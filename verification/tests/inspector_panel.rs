use gdeditor::inspector::PropertyCategory;
use gdeditor::inspector_history::NodeId;
use gdeditor::inspector_panel::InspectorPanel;
use gdeditor::inspector_sections::PropertyEntry;

/// A property value as a node holds it.
#[derive(Debug, Clone, PartialEq)]
enum Value {
    Int(i64),
    Float(f64),
    Bool(bool),
    Text(String),
}

/// The properties of a node, listed by name as the inspector lists them.
fn list_properties(props: &[(&str, Value)]) -> Vec<PropertyEntry<Value>> {
    let mut entries: Vec<PropertyEntry<Value>> = props
        .iter()
        .map(|(name, value)| PropertyEntry {
            name: name.to_string(),
            value: value.clone(),
            category: PropertyCategory::categorize(name),
        })
        .collect();
    entries.sort_by(|a, b| a.name.cmp(&b.name));
    entries
}

/// The properties of the test node "Player" (a Node2D).
fn player_properties() -> Vec<PropertyEntry<Value>> {
    list_properties(&[
        ("position", Value::Int(0)),
        ("velocity", Value::Float(1.5)),
        ("visible", Value::Bool(true)),
    ])
}

#[test]
fn favorites_add_remove_toggle() {
    let mut panel = InspectorPanel::new();
    assert!(!panel.is_favorite("position"));

    panel.add_favorite("position");
    assert!(panel.is_favorite("position"));

    panel.add_favorite("velocity");
    assert_eq!(panel.favorites(), vec!["position", "velocity"]);

    panel.remove_favorite("position");
    assert!(!panel.is_favorite("position"));
    assert_eq!(panel.favorites(), vec!["velocity"]);
}

#[test]
fn favorites_toggle_returns_state() {
    let mut panel = InspectorPanel::new();
    assert!(panel.toggle_favorite("position")); // now favorite
    assert!(panel.is_favorite("position"));
    assert!(!panel.toggle_favorite("position")); // no longer favorite
    assert!(!panel.is_favorite("position"));
}

#[test]
fn favorite_entries_returns_matching_properties() {
    let mut panel = InspectorPanel::new();
    panel.inspect(NodeId(2));
    panel.add_favorite("position");
    panel.add_favorite("visible");

    let favs = panel.favorite_entries(player_properties());
    assert_eq!(favs.len(), 2);
    let names: Vec<&str> = favs.iter().map(|e| e.name.as_str()).collect();
    assert!(names.contains(&"position"));
    assert!(names.contains(&"visible"));
}

#[test]
fn favorite_entries_empty_when_no_favorites() {
    let mut panel = InspectorPanel::new();
    panel.inspect(NodeId(2));
    assert!(panel.favorite_entries(player_properties()).is_empty());
}

#[test]
fn inspector_favorites_pin_to_top() {
    // Two objects of the same class (Sprite2D).
    let a_props = || {
        list_properties(&[
            ("texture", Value::Text("res://a.png".to_string())),
            ("position", Value::Int(0)),
        ])
    };
    let b_props = || {
        list_properties(&[
            ("texture", Value::Text("res://b.png".to_string())),
            ("position", Value::Int(7)),
        ])
    };
    let a_id = NodeId(2);
    let b_id = NodeId(3);

    let mut panel = InspectorPanel::new();
    panel.inspect(a_id);

    // Initially there is no Favorites section.
    let before = panel.sections(Some("Sprite2D"), a_props());
    assert!(
        before.iter().all(|s| s.name != "Favorites"),
        "no Favorites section before pinning"
    );

    // Pin "texture": it moves into a top Favorites section.
    assert!(panel.pin_favorite(Some("Sprite2D"), "texture"));
    assert!(panel.is_pinned_favorite(Some("Sprite2D"), "texture"));
    let sections = panel.sections(Some("Sprite2D"), a_props());
    assert_eq!(sections[0].name, "Favorites", "Favorites section is at the top");
    assert!(
        sections[0].entries().iter().any(|e| e.name == "texture"),
        "the pinned property is in the Favorites section"
    );
    // And it is no longer duplicated in its normal (Rendering) category.
    assert!(
        sections
            .iter()
            .skip(1)
            .all(|s| s.entries().iter().all(|e| e.name != "texture")),
        "favorited property is moved out of its category section"
    );

    // Re-inspecting a different same-class object keeps it favorited, with
    // the Favorites section still on top.
    panel.inspect(b_id);
    assert!(
        panel.is_pinned_favorite(Some("Sprite2D"), "texture"),
        "favorite persists across same-class objects"
    );
    let sections_b = panel.sections(Some("Sprite2D"), b_props());
    assert_eq!(sections_b[0].name, "Favorites");
    assert!(sections_b[0].entries().iter().any(|e| e.name == "texture"));

    // Unpinning removes the Favorites section.
    assert!(panel.unpin_favorite(Some("Sprite2D"), "texture"));
    assert!(!panel.is_pinned_favorite(Some("Sprite2D"), "texture"));
    assert!(panel
        .sections(Some("Sprite2D"), b_props())
        .iter()
        .all(|s| s.name != "Favorites"));
}

#[test]
fn export_group_assignment() {
    let mut panel = InspectorPanel::new();
    panel.set_export_group("speed", "Movement", None);
    panel.set_export_group("jump_height", "Movement", Some("Jumping".to_string()));

    let eg = panel.export_group_for("speed").unwrap();
    assert_eq!(eg.group, "Movement");
    assert_eq!(eg.subgroup, None);

    let eg = panel.export_group_for("jump_height").unwrap();
    assert_eq!(eg.group, "Movement");
    assert_eq!(eg.subgroup, Some("Jumping".to_string()));

    assert!(panel.export_group_for("position").is_none());
}

#[test]
fn properties_by_export_group() {
    let mut panel = InspectorPanel::new();
    panel.inspect(NodeId(2));
    panel.set_export_group("position", "Transform", None);
    panel.set_export_group("velocity", "Physics", None);

    let grouped = panel.properties_by_export_group(player_properties());
    let get = |g: &str| grouped.iter().find(|(k, _)| k == g).map(|(_, v)| v);
    assert_eq!(grouped.len(), 2);
    assert!(get("Transform").is_some());
    assert!(get("Physics").is_some());
    assert_eq!(get("Transform").unwrap().len(), 1);
    assert_eq!(get("Transform").unwrap()[0].name, "position");
}

#[test]
fn clear_export_groups() {
    let mut panel = InspectorPanel::new();
    panel.set_export_group("speed", "Movement", None);
    panel.clear_export_groups();
    assert!(panel.export_group_for("speed").is_none());
}

#[test]
fn sections_follow_fixed_category_order() {
    let panel = InspectorPanel::new();
    let props = list_properties(&[
        ("script_speed", Value::Int(1)),
        ("mass", Value::Int(2)),
        ("visible", Value::Bool(true)),
        ("rotation", Value::Int(3)),
        ("custom", Value::Int(4)),
        ("position", Value::Int(5)),
    ]);
    let sections = panel.sections(None, props);
    let names: Vec<&str> = sections.iter().map(|s| s.name.as_str()).collect();
    assert_eq!(names, vec!["Transform", "Rendering", "Physics", "Script", "Misc"]);
    let transform: Vec<&str> = sections[0].entries().iter().map(|e| e.name.as_str()).collect();
    assert_eq!(transform, vec!["position", "rotation"]);
    assert!(sections.iter().all(|s| s.is_expanded()));
}

#[test]
fn pinned_favorites_are_sorted_by_name() {
    let mut panel = InspectorPanel::new();
    panel.pin_favorite(Some("Node2D"), "velocity");
    panel.pin_favorite(Some("Node2D"), "position");
    assert!(!panel.pin_favorite(None, "visible"));
    let props = list_properties(&[
        ("velocity", Value::Int(1)),
        ("zeta", Value::Int(2)),
        ("position", Value::Int(3)),
    ]);
    let favs = panel.favorite_entries_for_class(Some("Node2D"), props);
    let names: Vec<&str> = favs.iter().map(|e| e.name.as_str()).collect();
    assert_eq!(names, vec!["position", "velocity"]);
    assert!(panel
        .favorite_entries_for_class(Some("Sprite2D"), player_properties())
        .is_empty());
}

/// The scene path of the test node "Player" under the root.
const PLAYER_PATH: &str = "/root/Player";

#[test]
fn copy_property_path_format() {
    let mut panel = InspectorPanel::new();
    panel.inspect(NodeId(2));

    let path = panel.copy_property_path(Some(PLAYER_PATH), "position");
    assert!(path.is_some());
    let path = path.unwrap();
    assert!(path.ends_with(":position"), "got: {}", path);
    assert!(path.contains("Player"), "got: {}", path);
}

#[test]
fn inspector_copy_property_path() {
    let mut panel = InspectorPanel::new();

    // Nothing inspected -> no path.
    assert!(panel
        .copy_property_scripting_path("position", Some("x"))
        .is_none());

    panel.inspect(NodeId(2));

    // A selected sub-property/component yields the `property:subname`
    // scripting path.
    assert_eq!(
        panel
            .copy_property_scripting_path("position", Some("x"))
            .as_deref(),
        Some("position:x")
    );

    // A plain top-level property is just its name.
    assert_eq!(
        panel.copy_property_scripting_path("visible", None).as_deref(),
        Some("visible")
    );

    // An empty subname collapses to the plain property path.
    assert_eq!(
        panel
            .copy_property_scripting_path("position", Some(""))
            .as_deref(),
        Some("position")
    );
}

#[test]
fn copy_node_path() {
    let mut panel = InspectorPanel::new();
    panel.inspect(NodeId(2));

    let path = panel.copy_node_path(Some(PLAYER_PATH));
    assert!(path.is_some());
    assert!(path.unwrap().contains("Player"));
}

#[test]
fn copy_property_path_no_node() {
    let panel = InspectorPanel::new();
    assert!(panel.copy_property_path(None, "position").is_none());
    assert!(panel.copy_property_path(Some(PLAYER_PATH), "position").is_none());
}

#[test]
fn list_properties_sorted_with_categories() {
    let mut panel = InspectorPanel::new();
    let props = vec![
        ("visible".to_string(), 1),
        ("position".to_string(), 2),
        ("script_speed".to_string(), 3),
        ("hp".to_string(), 4),
    ];
    assert!(panel.list_properties(props.clone()).is_empty());
    panel.inspect(NodeId(7));
    let entries = panel.list_properties(props);
    let names: Vec<&str> = entries.iter().map(|e| e.name.as_str()).collect();
    assert_eq!(names, vec!["hp", "position", "script_speed", "visible"]);
    assert_eq!(entries[0].category, PropertyCategory::Misc);
    assert_eq!(entries[1].category, PropertyCategory::Transform);
    assert_eq!(entries[2].category, PropertyCategory::Script);
    assert_eq!(entries[3].category, PropertyCategory::Rendering);
    assert_eq!(entries[1].value, 2);
}
