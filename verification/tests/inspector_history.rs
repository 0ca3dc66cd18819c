use gdeditor::inspector_history::{InspectorHistory, InspectorHistoryEntry, InspectorToolbar, NodeId};

#[test]
fn inspector_history_back_forward_navigates_stack() {
    let a = NodeId(65);
    let b = NodeId(66);

    let mut toolbar = InspectorToolbar::new();

    // Inspect A, then B: the stack is [A, B] with the cursor at B.
    toolbar.inspect_node(a, "A", "Node2D");
    toolbar.inspect_node(b, "B", "Node2D");
    assert!(toolbar.history.can_go_back(), "Back enabled after A -> B");
    assert!(
        !toolbar.history.can_go_forward(),
        "Forward disabled at the end of the stack"
    );

    // Back re-selects A and enables Forward.
    let back = toolbar.navigate_back().expect("Back returns the previous entry");
    assert_eq!(back.node_id, a, "Back re-selects A");
    assert!(
        toolbar.history.can_go_forward(),
        "Forward enabled after going back"
    );

    // At the start of the stack, Back is disabled.
    assert!(
        !toolbar.history.can_go_back(),
        "Back disabled at the start of the stack"
    );

    // Forward returns to B.
    let fwd = toolbar
        .navigate_forward()
        .expect("Forward returns the next entry");
    assert_eq!(fwd.node_id, b, "Forward re-selects B");
    assert!(
        !toolbar.history.can_go_forward(),
        "Forward disabled again at the end"
    );
}

#[test]
fn inspector_history_dropdown_lists_and_selects() {
    let a = NodeId(65);
    let b = NodeId(66);
    let c = NodeId(67);

    let mut toolbar = InspectorToolbar::new();
    toolbar.inspect_node(a, "A", "Node2D");
    toolbar.inspect_node(b, "B", "Node2D");
    toolbar.inspect_node(c, "C", "Node2D");

    // The dropdown lists all three, most-recent-first.
    let dropdown = toolbar.history_dropdown();
    let ids: Vec<NodeId> = dropdown.iter().map(|e| e.node_id).collect();
    assert_eq!(ids, vec![c, b, a], "dropdown lists recent-first");

    // Selecting an older entry re-inspects that object.
    let selected = toolbar
        .select_from_history(a)
        .expect("selecting A from the dropdown re-inspects it");
    assert_eq!(selected.node_id, a);
    assert_eq!(
        toolbar.history.current().map(|e| e.node_id),
        Some(a),
        "current inspected object follows the dropdown selection"
    );
}

#[test]
fn history_entry_node() {
    let id = NodeId(101);
    let entry = InspectorHistoryEntry::node(id);
    assert_eq!(entry.node_id, id);
    assert!(entry.subresource_path.is_none());
}

#[test]
fn history_entry_subresource() {
    let id = NodeId(102);
    let entry = InspectorHistoryEntry::subresource(id, "material");
    assert_eq!(entry.node_id, id);
    assert_eq!(entry.subresource_path.as_deref(), Some("material"));
}

#[test]
fn history_empty_state() {
    let h = InspectorHistory::new();
    assert!(h.is_empty());
    assert_eq!(h.len(), 0);
    assert!(!h.can_go_back());
    assert!(!h.can_go_forward());
    assert!(h.current().is_none());
}

#[test]
fn history_push_and_current() {
    let mut h = InspectorHistory::new();
    let id1 = NodeId(103);
    h.push(InspectorHistoryEntry::node(id1));
    assert_eq!(h.len(), 1);
    assert_eq!(h.current().unwrap().node_id, id1);
}

#[test]
fn history_back_and_forward() {
    let mut h = InspectorHistory::new();
    let id1 = NodeId(104);
    let id2 = NodeId(105);
    let id3 = NodeId(106);
    h.push(InspectorHistoryEntry::node(id1));
    h.push(InspectorHistoryEntry::node(id2));
    h.push(InspectorHistoryEntry::node(id3));

    assert!(h.can_go_back());
    assert!(!h.can_go_forward());

    let prev = h.back().unwrap();
    assert_eq!(prev.node_id, id2);
    assert!(h.can_go_forward());

    let prev2 = h.back().unwrap();
    assert_eq!(prev2.node_id, id1);

    assert!(!h.can_go_back());

    let next = h.forward().unwrap();
    assert_eq!(next.node_id, id2);
}

#[test]
fn history_push_truncates_forward() {
    let mut h = InspectorHistory::new();
    let id1 = NodeId(107);
    let id2 = NodeId(108);
    let id3 = NodeId(109);
    let id4 = NodeId(110);
    h.push(InspectorHistoryEntry::node(id1));
    h.push(InspectorHistoryEntry::node(id2));
    h.push(InspectorHistoryEntry::node(id3));

    h.back(); // at 2
    h.back(); // at 1

    // Push new entry from position 1 — should discard 2 and 3
    h.push(InspectorHistoryEntry::node(id4));
    assert_eq!(h.len(), 2); // 1, 4
    assert!(!h.can_go_forward());
    assert_eq!(h.current().unwrap().node_id, id4);
}

#[test]
fn history_clear() {
    let mut h = InspectorHistory::new();
    h.push(InspectorHistoryEntry::node(NodeId(111)));
    h.push(InspectorHistoryEntry::node(NodeId(112)));
    h.clear();
    assert!(h.is_empty());
    assert!(h.current().is_none());
}

#[test]
fn history_back_at_start_returns_none() {
    let mut h = InspectorHistory::new();
    h.push(InspectorHistoryEntry::node(NodeId(113)));
    assert!(h.back().is_none());
}

#[test]
fn history_forward_at_end_returns_none() {
    let mut h = InspectorHistory::new();
    h.push(InspectorHistoryEntry::node(NodeId(114)));
    assert!(h.forward().is_none());
}

#[test]
fn toolbar_inspect_node() {
    let mut tb = InspectorToolbar::new();
    let id = NodeId(115);
    tb.inspect_node(id, "Player", "CharacterBody2D");
    assert_eq!(tb.object_class, "CharacterBody2D");
    assert_eq!(tb.object_name, "Player");
    assert_eq!(tb.breadcrumb_depth(), 1);
    assert!(tb.breadcrumbs[0].label.contains("Player"));
}

#[test]
fn toolbar_drill_into_subresource() {
    let mut tb = InspectorToolbar::new();
    let id = NodeId(116);
    tb.inspect_node(id, "Sprite", "Sprite2D");
    tb.drill_into_subresource(id, "material", "SpatialMaterial");
    assert_eq!(tb.breadcrumb_depth(), 2);
    assert_eq!(tb.breadcrumbs[1].label, "SpatialMaterial");
}

#[test]
fn toolbar_navigate_back() {
    let mut tb = InspectorToolbar::new();
    let id = NodeId(117);
    tb.inspect_node(id, "Sprite", "Sprite2D");
    tb.drill_into_subresource(id, "material", "Material");
    assert!(tb.can_go_back());

    let entry = tb.navigate_back().unwrap();
    assert_eq!(entry.node_id, id);
    assert!(entry.subresource_path.is_none());
    assert_eq!(tb.breadcrumb_depth(), 1);
}

#[test]
fn toolbar_navigate_to_breadcrumb() {
    let mut tb = InspectorToolbar::new();
    let id = NodeId(118);
    tb.inspect_node(id, "Mesh", "MeshInstance3D");
    tb.drill_into_subresource(id, "material", "Material");
    tb.drill_into_subresource(id, "material/albedo_texture", "Texture");

    assert_eq!(tb.breadcrumb_depth(), 3);

    // Navigate back to the root node breadcrumb.
    let entry = tb.navigate_to_breadcrumb(0).unwrap();
    assert_eq!(entry.node_id, id);
    assert!(entry.subresource_path.is_none());
    assert_eq!(tb.breadcrumb_depth(), 1);
}

#[test]
fn toolbar_breadcrumb_out_of_bounds() {
    let mut tb = InspectorToolbar::new();
    tb.inspect_node(NodeId(119), "Root", "Node");
    assert!(tb.navigate_to_breadcrumb(5).is_none());
}

/// Acceptance (pat-iksvf): editing a sub-resource of a node shows a
/// breadcrumb with the parent object, and clicking the parent crumb
/// re-inspects it (navigating back up to the owning object).
#[test]
fn inspector_subresource_breadcrumb_navigates_up() {
    let mut tb = InspectorToolbar::new();
    let node = NodeId(120);

    // Inspect the owning node, then drill into one of its embedded
    // sub-resources (e.g. editing the node's `material` slot).
    tb.inspect_node(node, "Sprite", "Sprite2D");
    tb.drill_into_subresource(node, "material", "SpatialMaterial");

    // The breadcrumb now shows the path back to the owning object: the
    // parent (owning node) crumb followed by the sub-resource crumb.
    assert_eq!(
        tb.breadcrumb_depth(),
        2,
        "owning object crumb + sub-resource crumb"
    );
    let parent_crumb = &tb.breadcrumbs[0];
    assert!(
        parent_crumb.label.contains("Sprite"),
        "parent crumb names the owning object: {}",
        parent_crumb.label
    );
    assert_eq!(
        parent_crumb.entry.node_id, node,
        "parent crumb points back at the owning node"
    );
    assert!(
        parent_crumb.entry.subresource_path.is_none(),
        "parent crumb is the object itself, not a sub-resource"
    );
    // The deepest crumb is the sub-resource currently being edited.
    assert_eq!(tb.breadcrumbs[1].label, "SpatialMaterial");

    // Clicking the parent crumb re-inspects the owning object and trims the
    // sub-resource crumb back off.
    let reinspected = tb
        .navigate_to_breadcrumb(0)
        .expect("clicking the parent crumb re-inspects it");
    assert_eq!(reinspected.node_id, node, "re-inspects the owning node");
    assert!(
        reinspected.subresource_path.is_none(),
        "navigates up to the object, not a sub-resource"
    );
    assert_eq!(
        tb.breadcrumb_depth(),
        1,
        "sub-resource crumb is removed after navigating up"
    );
}

#[test]
fn toolbar_default_state() {
    let tb = InspectorToolbar::new();
    assert!(tb.object_class.is_empty());
    assert!(tb.object_name.is_empty());
    assert_eq!(tb.breadcrumb_depth(), 0);
    assert!(!tb.can_go_back());
    assert!(!tb.can_go_forward());
}
