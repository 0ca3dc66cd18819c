use gdeditor::guides::{GuideOrientation, GuideSet};
use gdeditor::input_map::{InputEvent, InputMap};
use gdeditor::inspector::PropertyCategory;
use gdeditor::inspector_history::{InspectorHistory, InspectorHistoryEntry, InspectorToolbar, NodeId};
use gdeditor::inspector::ResourceAction;
use gdeditor::inspector_sections::{PropertyEntry, SectionedInspector};
use gdeditor::import_settings::ImportResourceType;
use gdeditor::import_settings_panel::ImportSettingsPanel;
use gdeditor::monitors_panel::{Monitor, MonitorSample, MonitorsPanel};
use gdeditor::numeric_expression::parse_numeric_expression;

#[test]
fn history_back_then_forward_returns_to_same_entry() {
    let mut h = InspectorHistory::new();
    for id in 1..=4u64 {
        h.push(InspectorHistoryEntry::node(NodeId(id)));
    }
    let before = h.current().unwrap().node_id;
    assert_eq!(h.back().unwrap().node_id, NodeId(3));
    assert_eq!(h.forward().unwrap().node_id, before);
    assert!(!h.can_go_forward());
}

#[test]
fn history_keeps_at_most_sixty_four_entries() {
    let mut h = InspectorHistory::new();
    for id in 0..100u64 {
        h.push(InspectorHistoryEntry::node(NodeId(id)));
    }
    assert_eq!(h.len(), 64);
    assert_eq!(h.current().unwrap().node_id, NodeId(99));
    let recent = h.entries_recent_first();
    assert_eq!(recent[0].node_id, NodeId(99));
    assert_eq!(recent[63].node_id, NodeId(36));
}

#[test]
fn history_jump_picks_latest_plain_entry() {
    let mut h = InspectorHistory::new();
    h.push(InspectorHistoryEntry::node(NodeId(1)));
    h.push(InspectorHistoryEntry::subresource(NodeId(1), "material"));
    h.push(InspectorHistoryEntry::node(NodeId(2)));
    let e = h.jump_to_node(NodeId(1)).unwrap();
    assert!(e.subresource_path.is_none());
    assert!(h.can_go_forward());
    assert_eq!(h.current().unwrap().node_id, NodeId(1));
    assert!(h.jump_to_node(NodeId(9)).is_none());
}

#[test]
fn toolbar_offers_resource_actions_only_for_subresources() {
    let mut tb = InspectorToolbar::new();
    assert!(tb.resource_actions().is_empty());
    tb.inspect_node(NodeId(5), "Sprite", "Sprite2D");
    assert!(tb.resource_actions().is_empty());
    assert_eq!(tb.breadcrumbs[0].label, "Sprite (Sprite2D)");
    tb.drill_into_subresource(NodeId(5), "material", "Material");
    assert_eq!(
        tb.resource_actions(),
        vec![
            ResourceAction::Edit,
            ResourceAction::Load,
            ResourceAction::Clear,
            ResourceAction::SaveAs,
            ResourceAction::Copy,
            ResourceAction::Paste
        ]
    );
}

#[test]
fn grouping_keeps_every_entry_once() {
    let names = ["position", "mass", "visible", "script_x", "rotation", "foo"];
    let entries: Vec<PropertyEntry<usize>> = names
        .iter()
        .enumerate()
        .map(|(i, n)| PropertyEntry { name: n.to_string(), value: i, category: PropertyCategory::categorize(n) })
        .collect();
    let s = SectionedInspector::from_entries(entries);
    assert_eq!(s.total_property_count(), names.len());
    let mut seen: Vec<usize> = s.sections().iter().flat_map(|x| x.entries().iter().map(|e| e.value)).collect();
    seen.sort();
    assert_eq!(seen, (0..names.len()).collect::<Vec<_>>());
    assert_eq!(s.section_count(), 5);
}

#[test]
fn input_map_bind_then_unbind_restores_map() {
    let mut map = InputMap::new(0.5f32);
    map.add_action("jump");
    map.bind("jump", InputEvent::Key("Space".to_string()));
    let before = map.clone();
    assert!(map.bind("jump", InputEvent::MouseButton(2)));
    assert!(map.bind("jump", InputEvent::MouseButton(2)));
    assert_eq!(map.events("jump").unwrap().len(), 2);
    assert!(map.unbind("jump", &InputEvent::MouseButton(2)));
    assert_eq!(map, before);
}

#[test]
fn input_map_add_then_remove_restores_map() {
    let mut map = InputMap::new(0.25f32);
    map.add_action("b");
    let before = map.clone();
    assert!(map.add_action("a"));
    assert_eq!(map.actions(), vec!["a", "b"]);
    assert_eq!(map.deadzone("a"), Some(0.25));
    assert!(map.remove_action("a"));
    assert_eq!(map, before);
}

#[test]
fn runtime_table_round_trips_with_order_kept() {
    let rows = vec![
        ("move".to_string(), vec!["w".to_string(), "Up".to_string()]),
        ("fire".to_string(), vec!["Space".to_string()]),
    ];
    let map = InputMap::from_runtime_map(&rows, 0.5f32);
    let back = map.to_runtime_map();
    assert_eq!(
        back,
        vec![
            ("fire".to_string(), vec!["Space".to_string()]),
            ("move".to_string(), vec!["w".to_string(), "Up".to_string()]),
        ]
    );
}

#[test]
fn applying_pending_edit_keeps_what_panel_shows() {
    let mut panel: ImportSettingsPanel<u32> =
        ImportSettingsPanel::new(vec![(ImportResourceType::Texture, 1), (ImportResourceType::Audio, 2)]);
    panel.select_resource("res://a.PNG");
    assert_eq!(panel.selected_resource_type(), Some(ImportResourceType::Texture));
    assert_eq!(panel.effective_settings(), Some(&1));
    panel.set_pending(7);
    assert_eq!(panel.effective_settings(), Some(&7));
    assert!(panel.apply());
    assert_eq!(panel.effective_settings(), Some(&7));
    assert!(panel.remove_override("res://a.PNG"));
    assert_eq!(panel.effective_settings(), Some(&1));
    assert!(panel.default_settings(ImportResourceType::Shader).is_none());
}

#[test]
fn later_factory_entries_win() {
    let mut panel: ImportSettingsPanel<u32> = ImportSettingsPanel::new(vec![
        (ImportResourceType::Mesh, 1),
        (ImportResourceType::Mesh, 2),
    ]);
    assert_eq!(panel.default_settings(ImportResourceType::Mesh), Some(&2));
    panel.set_default_settings(ImportResourceType::Mesh, 9);
    panel.reset_defaults(ImportResourceType::Mesh);
    assert_eq!(panel.default_settings(ImportResourceType::Mesh), Some(&2));
}

#[test]
fn monitors_record_only_while_playing() {
    let mut panel: MonitorsPanel<u32> = MonitorsPanel::new();
    let s = MonitorSample { fps: 60, memory: 1, draw_calls: 2, physics: 3 };
    assert!(!panel.record(s));
    panel.start_play();
    assert!(panel.record(s));
    panel.stop_play();
    assert!(!panel.record(s));
    assert_eq!(panel.sample_count(), 1);
    assert_eq!(panel.series(Monitor::Physics), &[3]);
    let default_panel: MonitorsPanel<u32> = MonitorsPanel::default();
    assert_eq!(default_panel.selected(), None);
    assert!(default_panel.graph_points().is_empty());
}

#[test]
fn guides_move_and_remove() {
    let mut g: GuideSet<i32> = GuideSet::new();
    assert_eq!(g.create_from_ruler(GuideOrientation::Vertical, 10), 0);
    assert_eq!(g.create_from_ruler(GuideOrientation::Horizontal, 20), 1);
    assert!(g.move_guide(0, 15));
    assert_eq!(g.guides()[0].position, 15);
    assert!(!g.move_guide(5, 1));
    assert!(g.remove_guide(0));
    assert_eq!(g.len(), 1);
    assert_eq!(g.guides()[0].orientation, GuideOrientation::Horizontal);
    assert!(!g.remove_guide(3));
}

#[test]
fn stray_characters_reject_expressions() {
    for text in ["1 # 2", "2^3", "3%", "a;b", "1,5"] {
        assert!(parse_numeric_expression(text).is_none(), "{text}");
    }
}
