use gdeditor::group_dialog::GroupDialog;
use gdeditor::inspector_history::NodeId;

/// A stand-in for the scene tree: its nodes, in tree order, with their
/// groups.
struct SceneTree {
    nodes: Vec<(NodeId, Vec<String>)>,
}

impl SceneTree {
    fn new() -> Self {
        SceneTree { nodes: vec![(NodeId(1), Vec::new())] }
    }

    fn root_id(&self) -> NodeId {
        NodeId(1)
    }

    fn add_child(&mut self, id: u64) -> NodeId {
        self.nodes.push((NodeId(id), Vec::new()));
        NodeId(id)
    }

    fn memberships(&self) -> Vec<(NodeId, Vec<String>)> {
        self.nodes.clone()
    }

    fn add_to_group(&mut self, id: NodeId, group: &str) -> Result<(), String> {
        let node = self.nodes.iter_mut().find(|n| n.0 == id).ok_or_else(|| "node not found".to_string())?;
        if !node.1.iter().any(|g| g == group) {
            node.1.push(group.to_string());
        }
        Ok(())
    }

    fn remove_from_group(&mut self, id: NodeId, group: &str) -> Result<(), String> {
        let node = self.nodes.iter_mut().find(|n| n.0 == id).ok_or_else(|| "node not found".to_string())?;
        node.1.retain(|g| g != group);
        Ok(())
    }
}

fn make_tree() -> SceneTree {
    let mut tree = SceneTree::new();
    let player_id = tree.add_child(2);
    let enemy1_id = tree.add_child(3);
    let enemy2_id = tree.add_child(4);
    tree.add_to_group(player_id, "players").unwrap();
    tree.add_to_group(enemy1_id, "enemies").unwrap();
    tree.add_to_group(enemy2_id, "enemies").unwrap();
    tree.add_to_group(player_id, "saveable").unwrap();
    tree.add_to_group(enemy1_id, "saveable").unwrap();
    tree
}

fn node_ids(tree: &SceneTree) -> (NodeId, NodeId, NodeId, NodeId) {
    (tree.root_id(), tree.nodes[1].0, tree.nodes[2].0, tree.nodes[3].0)
}

#[test]
fn new_dialog_defaults() {
    let d = GroupDialog::new();
    assert!(!d.is_visible());
    assert!(d.inspected_node().is_none());
    assert!(d.filter_text().is_empty());
}

#[test]
fn open_and_close() {
    let tree = make_tree();
    let (_, player_id, _, _) = node_ids(&tree);
    let mut d = GroupDialog::new();
    d.open(player_id);
    assert!(d.is_visible());
    assert_eq!(d.inspected_node(), Some(player_id));
    d.close();
    assert!(!d.is_visible());
    assert_eq!(d.inspected_node(), Some(player_id));
}

#[test]
fn open_clears_filter() {
    let tree = make_tree();
    let (_, player_id, _, _) = node_ids(&tree);
    let mut d = GroupDialog::new();
    d.set_filter("old filter");
    d.open(player_id);
    assert!(d.filter_text().is_empty());
}

#[test]
fn collect_all_groups() {
    let tree = make_tree();
    let d = GroupDialog::new();
    let groups = d.collect_all_groups(&tree.memberships());
    assert_eq!(groups.len(), 3);
    let find = |name: &str| groups.iter().find(|g| g.0 == name).map(|g| g.1.len());
    assert!(find("enemies").is_some());
    assert!(find("players").is_some());
    assert!(find("saveable").is_some());
    assert_eq!(find("enemies"), Some(2));
    assert_eq!(find("players"), Some(1));
    assert_eq!(find("saveable"), Some(2));
}

#[test]
fn filtered_groups_no_filter() {
    let tree = make_tree();
    let (_, player_id, _, _) = node_ids(&tree);
    let mut d = GroupDialog::new();
    d.open(player_id);
    let entries = d.filtered_groups(&tree.memberships());
    assert_eq!(entries.len(), 3);
    assert_eq!(entries[0].name, "enemies");
    assert!(!entries[0].node_is_member);
    assert_eq!(entries[1].name, "players");
    assert!(entries[1].node_is_member);
    assert_eq!(entries[2].name, "saveable");
    assert!(entries[2].node_is_member);
}

#[test]
fn filtered_groups_with_filter() {
    let tree = make_tree();
    let (_, player_id, _, _) = node_ids(&tree);
    let mut d = GroupDialog::new();
    d.open(player_id);
    d.set_filter("enem");
    let entries = d.filtered_groups(&tree.memberships());
    assert_eq!(entries.len(), 1);
    assert_eq!(entries[0].name, "enemies");
}

#[test]
fn filter_case_insensitive() {
    let tree = make_tree();
    let mut d = GroupDialog::new();
    d.set_filter("SAVE");
    let entries = d.filtered_groups(&tree.memberships());
    assert_eq!(entries.len(), 1);
    assert_eq!(entries[0].name, "saveable");
}

#[test]
fn node_groups_returns_sorted() {
    let tree = make_tree();
    let (_, player_id, _, _) = node_ids(&tree);
    let mut d = GroupDialog::new();
    d.open(player_id);
    let groups = d.node_groups(&tree.memberships());
    assert_eq!(groups, vec!["players", "saveable"]);
}

#[test]
fn node_groups_no_inspected_node() {
    let tree = make_tree();
    let d = GroupDialog::new();
    assert!(d.node_groups(&tree.memberships()).is_empty());
}

#[test]
fn add_to_group() {
    let mut tree = make_tree();
    let (_, player_id, _, _) = node_ids(&tree);
    let mut d = GroupDialog::new();
    d.open(player_id);
    let result = d.add_to_group("new_group", |id: NodeId, g: &str| tree.add_to_group(id, g)).unwrap();
    assert_eq!(result.group_name, "new_group");
    let groups = d.node_groups(&tree.memberships());
    assert!(groups.contains(&"new_group".to_string()));
}

#[test]
fn add_to_group_empty_name_fails() {
    let mut tree = make_tree();
    let (_, player_id, _, _) = node_ids(&tree);
    let mut d = GroupDialog::new();
    d.open(player_id);
    let err = d.add_to_group("", |id: NodeId, g: &str| tree.add_to_group(id, g)).unwrap_err();
    assert!(err.contains("empty"));
}

#[test]
fn add_to_group_no_inspected_node_fails() {
    let mut tree = make_tree();
    let d = GroupDialog::new();
    let err = d.add_to_group("test", |id: NodeId, g: &str| tree.add_to_group(id, g)).unwrap_err();
    assert!(err.contains("no node"));
}

#[test]
fn remove_from_group() {
    let mut tree = make_tree();
    let (_, player_id, _, _) = node_ids(&tree);
    let mut d = GroupDialog::new();
    d.open(player_id);
    assert!(d.node_groups(&tree.memberships()).contains(&"players".to_string()));
    let result = d.remove_from_group("players", |id: NodeId, g: &str| tree.remove_from_group(id, g)).unwrap();
    assert_eq!(result.group_name, "players");
    assert!(!d.node_groups(&tree.memberships()).contains(&"players".to_string()));
}

#[test]
fn remove_from_group_no_inspected_node_fails() {
    let mut tree = make_tree();
    let d = GroupDialog::new();
    let err = d.remove_from_group("players", |id: NodeId, g: &str| tree.remove_from_group(id, g)).unwrap_err();
    assert!(err.contains("no node"));
}

#[test]
fn create_group_is_add() {
    let mut tree = make_tree();
    let (_, player_id, _, _) = node_ids(&tree);
    let mut d = GroupDialog::new();
    d.open(player_id);
    let result = d.create_group("brand_new", |id: NodeId, g: &str| tree.add_to_group(id, g)).unwrap();
    assert_eq!(result.group_name, "brand_new");
    assert!(d.node_groups(&tree.memberships()).contains(&"brand_new".to_string()));
}

#[test]
fn group_count() {
    let tree = make_tree();
    let d = GroupDialog::new();
    assert_eq!(d.group_count(&tree.memberships()), 3);
}

#[test]
fn members_in_group() {
    let tree = make_tree();
    let d = GroupDialog::new();
    let m = tree.memberships();
    assert_eq!(d.members_in_group(&m, "enemies"), 2);
    assert_eq!(d.members_in_group(&m, "players"), 1);
    assert_eq!(d.members_in_group(&m, "nonexistent"), 0);
}

#[test]
fn member_count_in_entries() {
    let tree = make_tree();
    let d = GroupDialog::new();
    let entries = d.filtered_groups(&tree.memberships());
    let enemies = entries.iter().find(|e| e.name == "enemies").unwrap();
    assert_eq!(enemies.member_count, 2);
    let saveable = entries.iter().find(|e| e.name == "saveable").unwrap();
    assert_eq!(saveable.member_count, 2);
}

#[test]
fn set_inspected_node_without_open() {
    let tree = make_tree();
    let (_, player_id, enemy1_id, _) = node_ids(&tree);
    let mut d = GroupDialog::new();
    d.open(player_id);
    d.set_inspected_node(Some(enemy1_id));
    assert_eq!(d.inspected_node(), Some(enemy1_id));
    let groups = d.node_groups(&tree.memberships());
    assert!(groups.contains(&"enemies".to_string()));
    assert!(!groups.contains(&"players".to_string()));
}

#[test]
fn add_then_remove_roundtrip() {
    let mut tree = make_tree();
    let (_, player_id, _, _) = node_ids(&tree);
    let mut d = GroupDialog::new();
    d.open(player_id);
    let before = d.group_count(&tree.memberships());
    d.add_to_group("temp_group", |id: NodeId, g: &str| tree.add_to_group(id, g)).unwrap();
    assert_eq!(d.group_count(&tree.memberships()), before + 1);
    d.remove_from_group("temp_group", |id: NodeId, g: &str| tree.remove_from_group(id, g)).unwrap();
    assert_eq!(d.group_count(&tree.memberships()), before);
}

#[test]
fn default_trait_impl() {
    let d = GroupDialog::default();
    assert!(!d.is_visible());
}

#[test]
fn empty_tree_has_no_groups() {
    let tree = SceneTree::new();
    let d = GroupDialog::new();
    assert_eq!(d.group_count(&tree.memberships()), 0);
    assert!(d.filtered_groups(&tree.memberships()).is_empty());
}

#[test]
fn filtered_groups_no_inspected_still_shows_groups() {
    let tree = make_tree();
    let d = GroupDialog::new();
    let entries = d.filtered_groups(&tree.memberships());
    assert_eq!(entries.len(), 3);
    assert!(entries.iter().all(|e| !e.node_is_member));
}

#[test]
fn group_action_descriptions() {
    let mut tree = make_tree();
    let (_, player_id, _, _) = node_ids(&tree);
    let mut d = GroupDialog::new();
    d.open(player_id);
    let added = d.add_to_group("npc", |id: NodeId, g: &str| tree.add_to_group(id, g)).unwrap();
    assert_eq!(added.description, "Added node to group \"npc\"");
    let removed = d.remove_from_group("npc", |id: NodeId, g: &str| tree.remove_from_group(id, g)).unwrap();
    assert_eq!(removed.description, "Removed node from group \"npc\"");
}

#[test]
fn scene_error_is_passed_on() {
    let mut tree = make_tree();
    let mut d = GroupDialog::new();
    d.open(NodeId(42));
    let err = d.add_to_group("x", |id: NodeId, g: &str| tree.add_to_group(id, g)).unwrap_err();
    assert_eq!(err, "node not found");
}

#[test]
fn repeated_memberships_count_once() {
    let d = GroupDialog::new();
    let m = vec![
        (NodeId(5), vec!["b".to_string(), "a".to_string(), "b".to_string()]),
        (NodeId(5), vec!["a".to_string()]),
        (NodeId(6), vec!["Ä".to_string()]),
    ];
    let groups = d.collect_all_groups(&m);
    let names: Vec<&str> = groups.iter().map(|g| g.0.as_str()).collect();
    assert_eq!(names, vec!["a", "b", "Ä"]);
    assert_eq!(groups[0].1, vec![NodeId(5)]);
    assert_eq!(d.group_count(&m), 3);
    assert_eq!(d.members_in_group(&m, "a"), 1);
    let mut d2 = GroupDialog::new();
    d2.set_filter("ä");
    let entries = d2.filtered_groups(&m);
    assert_eq!(entries.len(), 1);
    assert_eq!(entries[0].name, "Ä");
}
