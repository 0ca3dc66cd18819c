use gdeditor::editor::{Editor, EditorError, SceneCommand};
use gdeditor::inspector_history::NodeId;

/// A stand-in for the edited scene tree: it hands out node handles and
/// keeps integer properties and a name per node.
#[derive(Default)]
struct SceneTree {
    next: u64,
    nodes: Vec<(NodeId, String, Vec<(String, i64)>)>,
}

impl SceneTree {
    fn new() -> Self {
        SceneTree { next: 2, nodes: vec![(NodeId(1), "root".to_string(), Vec::new())] }
    }

    fn root_id(&self) -> NodeId {
        NodeId(1)
    }

    fn add_child(&mut self, _parent: NodeId, name: &str) -> Option<NodeId> {
        let id = NodeId(self.next);
        self.next += 1;
        self.nodes.push((id, name.to_string(), Vec::new()));
        Some(id)
    }

    fn node_mut(&mut self, id: NodeId) -> Result<&mut (NodeId, String, Vec<(String, i64)>), EditorError> {
        self.nodes
            .iter_mut()
            .find(|n| n.0 == id)
            .ok_or_else(|| EditorError::Engine("node not found".to_string()))
    }

    fn get_property(&self, id: NodeId, name: &str) -> Option<i64> {
        let node = self.nodes.iter().find(|n| n.0 == id)?;
        node.2.iter().find(|p| p.0 == name).map(|p| p.1)
    }

    fn set_property(&mut self, id: NodeId, name: &str, value: Option<i64>) -> Result<Option<i64>, EditorError> {
        let node = self.node_mut(id)?;
        let old = node.2.iter().find(|p| p.0 == name).map(|p| p.1);
        node.2.retain(|p| p.0 != name);
        if let Some(v) = value {
            node.2.push((name.to_string(), v));
        }
        Ok(old)
    }

    fn name_of(&self, id: NodeId) -> Option<String> {
        self.nodes.iter().find(|n| n.0 == id).map(|n| n.1.clone())
    }
}

/// A stand-in for the editor's commands.
enum Cmd {
    SetProperty { node_id: NodeId, property: String, new_value: Option<i64>, old_value: Option<i64> },
    RenameNode { node_id: NodeId, new_name: String, old_name: String },
    Group { label: String, commands: Vec<Cmd> },
}

impl Cmd {
    fn apply(&mut self, tree: &mut SceneTree) -> Result<(), EditorError> {
        match self {
            Cmd::SetProperty { node_id, property, new_value, old_value } => {
                *old_value = tree.set_property(*node_id, property, *new_value)?;
                Ok(())
            }
            Cmd::RenameNode { node_id, new_name, old_name } => {
                let node = tree.node_mut(*node_id)?;
                *old_name = std::mem::replace(&mut node.1, new_name.clone());
                Ok(())
            }
            Cmd::Group { commands, .. } => {
                for c in commands.iter_mut() {
                    c.apply(tree)?;
                }
                Ok(())
            }
        }
    }

    fn revert(&self, tree: &mut SceneTree) -> Result<(), EditorError> {
        match self {
            Cmd::SetProperty { node_id, property, old_value, .. } => {
                tree.set_property(*node_id, property, *old_value)?;
                Ok(())
            }
            Cmd::RenameNode { node_id, old_name, .. } => {
                tree.node_mut(*node_id)?.1 = old_name.clone();
                Ok(())
            }
            Cmd::Group { commands, .. } => {
                for c in commands.iter().rev() {
                    c.revert(tree)?;
                }
                Ok(())
            }
        }
    }
}

impl SceneCommand<SceneTree> for Cmd {
    fn execute(mut self, mut tree: SceneTree) -> (Self, SceneTree, Result<(), EditorError>) {
        let r = self.apply(&mut tree);
        (self, tree, r)
    }

    fn undo(&self, mut tree: SceneTree) -> (SceneTree, Result<(), EditorError>) {
        let r = self.revert(&mut tree);
        (tree, r)
    }

    fn label(&self) -> String {
        match self {
            Cmd::SetProperty { property, .. } => format!("Set {property}"),
            Cmd::RenameNode { old_name, new_name, .. } => format!("Rename '{old_name}' -> '{new_name}'"),
            Cmd::Group { label, .. } => label.clone(),
        }
    }

    fn continues(&self, prev: &Self) -> bool {
        match (self, prev) {
            (
                Cmd::SetProperty { node_id, property, .. },
                Cmd::SetProperty { node_id: prev_node, property: prev_prop, .. },
            ) => node_id == prev_node && property == prev_prop,
            _ => false,
        }
    }

    fn absorb(mut self, prev: Self, mut tree: SceneTree) -> (Self, SceneTree, Result<(), EditorError>) {
        let mut r = Ok(());
        if let (
            Cmd::SetProperty { node_id, property, new_value, old_value },
            Cmd::SetProperty { old_value: prev_old, .. },
        ) = (&mut self, prev)
        {
            match tree.set_property(*node_id, property, *new_value) {
                Ok(_) => *old_value = prev_old,
                Err(e) => r = Err(e),
            }
        }
        (self, tree, r)
    }

    fn group(label: String, commands: Vec<Self>) -> Self {
        Cmd::Group { label, commands }
    }
}

fn set(node_id: NodeId, property: &str, value: i64) -> Cmd {
    Cmd::SetProperty { node_id, property: property.to_string(), new_value: Some(value), old_value: None }
}

fn make_editor() -> Editor<SceneTree, Cmd> {
    let mut tree = SceneTree::new();
    let root = tree.root_id();
    tree.add_child(root, "Main").unwrap();
    Editor::new(tree)
}

/// The id of the node "Main" that `make_editor` adds.
const MAIN: NodeId = NodeId(2);

#[test]
fn select_and_deselect() {
    let mut editor = make_editor();
    let root = editor.tree().root_id();
    editor.select_node(root);
    assert_eq!(editor.selected_node(), Some(root));
    editor.deselect();
    assert_eq!(editor.selected_node(), None);
}

#[test]
fn inspector_pin_lock_holds_selection() {
    // The pin/lock toggle keeps the current object inspected even as the
    // scene-tree selection changes; unpinning resumes following selection.
    let mut tree = SceneTree::new();
    let root = tree.root_id();
    let a = tree.add_child(root, "A").unwrap();
    let b = tree.add_child(root, "B").unwrap();
    let mut editor: Editor<SceneTree, Cmd> = Editor::new(tree);

    // Unpinned, the inspector follows the active selection.
    editor.select_node(a);
    assert!(!editor.is_inspector_pinned());
    assert_eq!(editor.inspected_node(), Some(a));

    // Pinning locks the inspector to A.
    editor.pin_inspector();
    assert!(editor.is_inspector_pinned());

    // Selecting B in the scene tree moves the selection but the pinned
    // inspector keeps showing A.
    editor.select_node(b);
    assert_eq!(editor.selected_node(), Some(b), "tree selection follows to B");
    assert_eq!(
        editor.inspected_node(),
        Some(a),
        "pinned inspector keeps showing A"
    );

    // Unpinning resumes following the selection, so the inspector now
    // shows B.
    editor.unpin_inspector();
    assert!(!editor.is_inspector_pinned());
    assert_eq!(
        editor.inspected_node(),
        Some(b),
        "unpinning resumes following selection"
    );
}

#[test]
fn select_nodes_drops_repeats_in_order() {
    let mut editor = make_editor();
    editor.select_nodes(&[NodeId(3), NodeId(1), NodeId(3), NodeId(2), NodeId(1)]);
    assert_eq!(editor.selected_nodes(), &[NodeId(3), NodeId(1), NodeId(2)]);
    assert!(editor.is_selected(NodeId(2)));
    assert!(!editor.is_selected(NodeId(7)));
    assert_eq!(editor.selected_node(), Some(NodeId(2)));
}

#[test]
fn toggle_select_adds_and_removes() {
    let mut editor = make_editor();
    editor.select_node(NodeId(1));
    assert!(editor.toggle_select(NodeId(2)));
    assert_eq!(editor.selected_nodes(), &[NodeId(1), NodeId(2)]);
    assert!(!editor.toggle_select(NodeId(1)));
    assert_eq!(editor.selected_nodes(), &[NodeId(2)]);
    assert!(!editor.toggle_select(NodeId(2)));
    assert!(editor.selected_nodes().is_empty());
}

#[test]
fn select_range_runs_from_anchor_to_target() {
    let order = [NodeId(10), NodeId(11), NodeId(12), NodeId(13), NodeId(14)];
    let mut editor = make_editor();
    editor.select_range(NodeId(12), &order);
    assert_eq!(editor.selected_nodes(), &[NodeId(12)]);
    editor.select_range(NodeId(14), &order);
    assert_eq!(editor.selected_nodes(), &[NodeId(12), NodeId(13), NodeId(14)]);
    editor.select_node(NodeId(13));
    editor.select_range(NodeId(10), &order);
    assert_eq!(
        editor.selected_nodes(),
        &[NodeId(13), NodeId(12), NodeId(11), NodeId(10)]
    );
    editor.select_range(NodeId(99), &order);
    assert_eq!(editor.selected_nodes(), &[NodeId(99)]);
}

#[test]
fn pinning_with_nothing_shown_pins_nothing() {
    let mut editor = make_editor();
    editor.pin_inspector();
    assert!(!editor.is_inspector_pinned());
    assert_eq!(editor.inspected_node(), None);
}

#[test]
fn set_property_undo_redo() {
    let mut editor = make_editor();
    editor.execute(set(MAIN, "hp", 100)).unwrap();
    assert_eq!(editor.tree().get_property(MAIN, "hp"), Some(100));
    assert_eq!(editor.undo_depth(), 1);
    editor.undo().unwrap();
    assert_eq!(editor.tree().get_property(MAIN, "hp"), None);
    assert_eq!(editor.redo_depth(), 1);
    editor.redo().unwrap();
    assert_eq!(editor.tree().get_property(MAIN, "hp"), Some(100));
}

#[test]
fn undo_empty_stack_errors() {
    let mut editor = make_editor();
    assert_eq!(editor.undo(), Err(EditorError::NothingToUndo));
}

#[test]
fn redo_empty_stack_errors() {
    let mut editor = make_editor();
    assert_eq!(editor.redo(), Err(EditorError::NothingToRedo));
}

#[test]
fn new_command_clears_redo() {
    let mut editor = make_editor();
    editor.execute(set(MAIN, "x", 1)).unwrap();
    editor.undo().unwrap();
    assert_eq!(editor.redo_depth(), 1);
    editor.execute(set(MAIN, "y", 2)).unwrap();
    assert_eq!(editor.redo_depth(), 0);
}

#[test]
fn multiple_undo_redo_cycle() {
    let mut editor = make_editor();
    editor.execute(set(MAIN, "a", 1)).unwrap();
    editor.execute(set(MAIN, "b", 2)).unwrap();
    assert_eq!(editor.undo_depth(), 2);
    editor.undo().unwrap();
    editor.undo().unwrap();
    assert_eq!(editor.undo_depth(), 0);
    assert_eq!(editor.redo_depth(), 2);
    assert_eq!(editor.tree().get_property(MAIN, "a"), None);
    assert_eq!(editor.tree().get_property(MAIN, "b"), None);
    editor.redo().unwrap();
    editor.redo().unwrap();
    assert_eq!(editor.tree().get_property(MAIN, "a"), Some(1));
    assert_eq!(editor.tree().get_property(MAIN, "b"), Some(2));
}

#[test]
fn can_undo_can_redo() {
    let mut editor = make_editor();
    assert!(!editor.can_undo());
    assert!(!editor.can_redo());
    editor.execute(set(MAIN, "x", 1)).unwrap();
    assert!(editor.can_undo());
    assert!(!editor.can_redo());
    editor.undo().unwrap();
    assert!(!editor.can_undo());
    assert!(editor.can_redo());
}

#[test]
fn clear_history() {
    let mut editor = make_editor();
    editor.execute(set(MAIN, "x", 1)).unwrap();
    editor.undo().unwrap();
    assert!(editor.can_redo());
    editor.clear_history();
    assert!(!editor.can_undo());
    assert!(!editor.can_redo());
}

#[test]
fn undo_redo_history_labels() {
    let mut editor = make_editor();
    editor.execute(set(MAIN, "hp", 10)).unwrap();
    editor
        .execute(Cmd::RenameNode { node_id: MAIN, new_name: "Player".into(), old_name: String::new() })
        .unwrap();
    let history = editor.undo_history();
    assert_eq!(history.len(), 2);
    assert!(history[0].contains("Rename"));
    assert!(history[1].contains("Set hp"));
    editor.undo().unwrap();
    let redo_hist = editor.redo_history();
    assert_eq!(redo_hist.len(), 1);
    assert!(redo_hist[0].contains("Rename"));
}

#[test]
fn undo_many_and_redo_many() {
    let mut editor = make_editor();
    for i in 0..5 {
        editor.execute(set(MAIN, &format!("p{i}"), i)).unwrap();
    }
    assert_eq!(editor.undo_depth(), 5);
    let undone = editor.undo_many(3);
    assert_eq!(undone, 3);
    assert_eq!(editor.undo_depth(), 2);
    assert_eq!(editor.redo_depth(), 3);
    let redone = editor.redo_many(10);
    assert_eq!(redone, 3);
    assert_eq!(editor.undo_depth(), 5);
    assert_eq!(editor.redo_depth(), 0);
}

#[test]
fn merge_or_execute_merges_same_property() {
    let mut editor = make_editor();
    editor.merge_or_execute(set(MAIN, "speed", 10)).unwrap();
    editor.merge_or_execute(set(MAIN, "speed", 20)).unwrap();
    assert_eq!(editor.undo_depth(), 1);
    assert_eq!(editor.tree().get_property(MAIN, "speed"), Some(20));
    editor.undo().unwrap();
    assert_eq!(editor.tree().get_property(MAIN, "speed"), None);
}

#[test]
fn merge_or_execute_different_property_no_merge() {
    let mut editor = make_editor();
    editor.merge_or_execute(set(MAIN, "a", 1)).unwrap();
    editor.merge_or_execute(set(MAIN, "b", 2)).unwrap();
    assert_eq!(editor.undo_depth(), 2);
}

#[test]
fn group_command_undo_redo() {
    let mut editor = make_editor();
    editor.execute_group("Set stats", vec![set(MAIN, "hp", 100), set(MAIN, "mp", 50)]).unwrap();
    assert_eq!(editor.undo_depth(), 1);
    assert_eq!(editor.undo_history(), vec!["Set stats".to_string()]);
    assert_eq!(editor.tree().get_property(MAIN, "hp"), Some(100));
    assert_eq!(editor.tree().get_property(MAIN, "mp"), Some(50));
    editor.undo().unwrap();
    assert_eq!(editor.tree().get_property(MAIN, "hp"), None);
    assert_eq!(editor.tree().get_property(MAIN, "mp"), None);
    editor.redo().unwrap();
    assert_eq!(editor.tree().get_property(MAIN, "hp"), Some(100));
}

#[test]
fn failed_command_leaves_history_unchanged() {
    let mut editor = make_editor();
    editor.execute(set(MAIN, "a", 1)).unwrap();
    editor.undo().unwrap();
    let missing = NodeId(99);
    assert!(matches!(editor.execute(set(missing, "a", 1)), Err(EditorError::Engine(_))));
    assert_eq!(editor.undo_depth(), 0);
    assert_eq!(editor.redo_depth(), 1);
}

#[test]
fn failed_undo_drops_the_change() {
    let mut editor = make_editor();
    editor
        .execute(Cmd::RenameNode { node_id: MAIN, new_name: "Player".into(), old_name: String::new() })
        .unwrap();
    assert_eq!(editor.tree().name_of(MAIN), Some("Player".to_string()));
    editor.tree_mut().nodes.retain(|n| n.0 != MAIN);
    assert!(editor.undo().is_err());
    assert_eq!(editor.undo_depth(), 0);
    assert_eq!(editor.redo_depth(), 0);
}

#[test]
fn undo_many_stops_at_a_failing_change() {
    let mut editor = make_editor();
    let root = editor.tree().root_id();
    editor.execute(set(root, "a", 1)).unwrap();
    editor.execute(set(MAIN, "b", 2)).unwrap();
    editor.execute(set(root, "c", 3)).unwrap();
    editor.tree_mut().nodes.retain(|n| n.0 != MAIN);
    assert_eq!(editor.undo_many(3), 1);
    assert_eq!(editor.undo_depth(), 1);
    assert_eq!(editor.redo_depth(), 1);
    assert_eq!(editor.undo_stack_last().map(|c| c.label()), Some("Set a".to_string()));
}

#[test]
fn undo_after_execute_then_redo_restores() {
    let mut editor = make_editor();
    editor.execute(set(MAIN, "x", 5)).unwrap();
    let before = editor.undo_history();
    editor.undo().unwrap();
    assert_eq!(editor.undo_depth() + editor.redo_depth(), 1);
    editor.redo().unwrap();
    assert_eq!(editor.undo_history(), before);
    assert_eq!(editor.tree().get_property(MAIN, "x"), Some(5));
}

#[test]
fn merge_or_execute_with_follows_the_flag() {
    let mut editor = make_editor();
    editor.merge_or_execute_with(set(MAIN, "speed", 10), true).unwrap();
    assert_eq!(editor.undo_depth(), 1);
    editor.merge_or_execute_with(set(MAIN, "speed", 20), true).unwrap();
    assert_eq!(editor.undo_depth(), 1);
    editor.merge_or_execute_with(set(MAIN, "speed", 30), false).unwrap();
    assert_eq!(editor.undo_depth(), 2);
    editor.undo().unwrap();
    editor.undo().unwrap();
    assert_eq!(editor.tree().get_property(MAIN, "speed"), None);
}

#[test]
fn unique_sibling_name_keeps_a_free_name() {
    let siblings = vec!["Player".to_string(), "Camera".to_string()];
    assert_eq!(gdeditor::editor::unique_sibling_name("Enemy", &siblings), "Enemy");
}

#[test]
fn unique_sibling_name_numbers_from_two() {
    let siblings = vec!["Enemy".to_string()];
    assert_eq!(gdeditor::editor::unique_sibling_name("Enemy", &siblings), "Enemy2");
}

#[test]
fn unique_sibling_name_replaces_trailing_digits() {
    let siblings = vec!["Enemy2".to_string(), "Enemy3".to_string()];
    assert_eq!(gdeditor::editor::unique_sibling_name("Enemy2", &siblings), "Enemy4");
}

#[test]
fn unique_sibling_name_all_digits_keeps_base_as_stem() {
    let siblings = vec!["123".to_string()];
    assert_eq!(gdeditor::editor::unique_sibling_name("123", &siblings), "1232");
}
