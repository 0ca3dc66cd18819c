use gdeditor::multi_document::{CloseOutcome, DocumentKind, MultiDocModel, OpenDocument, SavePromptChoice};

/// A 2D viewport framing (pan offset and zoom), stored per document.
#[derive(Debug, Clone, Copy, PartialEq)]
struct ViewportState {
    pan_x: f32,
    pan_y: f32,
    zoom: f32,
}

impl Default for ViewportState {
    fn default() -> Self {
        Self { pan_x: 0.0, pan_y: 0.0, zoom: 1.0 }
    }
}

fn scene(title: &str, path: Option<&str>) -> OpenDocument<ViewportState> {
    OpenDocument::new(title, path.map(|p| p.to_string()), DocumentKind::Scene)
}

/// Acceptance (pat-w1ub4.1): the multi-document model supports opening,
/// switching, and closing documents while correctly tracking the active
/// index across each operation.
#[test]
fn editor_multidoc_open_switch_close_model() {
    let mut docs: MultiDocModel<ViewportState> = MultiDocModel::new();
    assert!(docs.is_empty());
    assert_eq!(docs.active_index(), None);

    // Opening focuses the newly opened document.
    let a = docs.open(scene("Main", Some("res://main.tscn")));
    let b = docs.open(scene("Level", Some("res://level.tscn")));
    let c = docs.open(OpenDocument::new(
        "player.gd",
        Some("res://player.gd".to_string()),
        DocumentKind::Script,
    ));
    assert_eq!(docs.len(), 3);
    assert_eq!(docs.active_index(), Some(c));
    assert_eq!(docs.active().unwrap().title, "player.gd");
    assert_eq!(docs.active().unwrap().kind, DocumentKind::Script);

    // Re-opening an already-open path switches to it — no duplicate tab.
    let a_again = docs.open(scene("Main", Some("res://main.tscn")));
    assert_eq!(a_again, a, "re-open returns the existing index");
    assert_eq!(docs.len(), 3, "no duplicate tab created");
    assert_eq!(docs.active_index(), Some(a), "re-open focuses the existing doc");

    // Switching changes the active tab; an out-of-range switch is rejected.
    assert!(docs.switch_to(b));
    assert_eq!(docs.active_index(), Some(b));
    assert!(!docs.switch_to(99));
    assert_eq!(
        docs.active_index(),
        Some(b),
        "an invalid switch leaves the active tab unchanged"
    );

    // Closing a tab before the active one shifts the active index down.
    // docs: [Main(0), Level(1), player(2)], active = Level(1).
    let removed = docs.close(a).expect("closed Main");
    assert_eq!(removed.title, "Main");
    assert_eq!(docs.len(), 2);
    assert_eq!(docs.active_index(), Some(0), "active index shifts down");
    assert_eq!(docs.active().unwrap().title, "Level");

    // Closing the active (last) tab falls back to the new last tab.
    // docs: [Level(0), player(1)]; focus player(1) then close it.
    assert!(docs.switch_to(1));
    let removed = docs.close(1).expect("closed player");
    assert_eq!(removed.kind, DocumentKind::Script);
    assert_eq!(docs.len(), 1);
    assert_eq!(
        docs.active_index(),
        Some(0),
        "focus falls back to the remaining tab"
    );
    assert_eq!(docs.active().unwrap().title, "Level");

    // Closing the last remaining tab clears the active selection.
    docs.close(0).expect("closed Level");
    assert!(docs.is_empty());
    assert_eq!(docs.active_index(), None);

    // Closing out of range returns None.
    assert!(docs.close(0).is_none());
}

/// Acceptance (pat-w1ub4.2): `Scene > New Scene` creates an empty, untitled
/// scene document and makes it the active tab. Each invocation adds its own
/// distinct active tab.
#[test]
fn editor_new_scene_creates_empty_active_document() {
    let mut docs: MultiDocModel<ViewportState> = MultiDocModel::new();
    assert!(docs.is_empty());
    assert_eq!(docs.active_index(), None);

    // New Scene adds an empty active document + tab.
    let i = docs.new_scene();
    assert_eq!(docs.len(), 1, "a new tab was added");
    assert_eq!(docs.active_index(), Some(i), "the new scene is the active tab");
    let doc = docs.active().expect("active document present");
    assert_eq!(doc.kind, DocumentKind::Scene, "New Scene creates a scene document");
    assert_eq!(doc.path, None, "an empty new scene is unsaved (no path)");
    assert!(!doc.dirty, "a freshly created scene starts clean");
    assert!(
        doc.title.starts_with("Untitled"),
        "the new scene is labeled Untitled: {}",
        doc.title
    );

    // A second New Scene adds another distinct active tab.
    let j = docs.new_scene();
    assert_ne!(i, j, "each New Scene is a distinct tab");
    assert_eq!(docs.len(), 2, "each New Scene adds its own tab");
    assert_eq!(docs.active_index(), Some(j), "the latest new scene is active");
    assert_eq!(docs.get(j).unwrap().path, None, "the second new scene is also empty");
    // Distinct untitled scenes get distinct titles.
    assert_ne!(
        docs.get(i).unwrap().title,
        docs.get(j).unwrap().title,
        "untitled scenes are uniquely titled"
    );

    // With a real (saved) scene already open, New Scene still creates a
    // fresh empty active document rather than reusing an existing tab.
    docs.open(OpenDocument::new(
        "Main",
        Some("res://main.tscn".to_string()),
        DocumentKind::Scene,
    ));
    let before = docs.len();
    let k = docs.new_scene();
    assert_eq!(docs.len(), before + 1, "New Scene opens a brand-new tab");
    assert_eq!(docs.active_index(), Some(k), "the new empty scene is active");
    assert_eq!(docs.active().unwrap().path, None, "the new scene is empty (unsaved)");
}

/// Acceptance (pat-w1ub4.4): switching tabs swaps the active document's
/// tree, selection, and viewport. Each open document keeps its own
/// selection and viewport framing, restored when it becomes active again —
/// switching never leaks one tab's state into another.
#[test]
fn editor_switch_document_swaps_active_state() {
    let mut docs: MultiDocModel<ViewportState> = MultiDocModel::new();

    // Open scene A and give it a selection + viewport while it is active.
    let a = docs.open(scene("Main", Some("res://main.tscn")));
    {
        let st = docs.active_state_mut().expect("A is active");
        st.selection = vec![10, 11];
        st.viewport = ViewportState {
            pan_x: 100.0,
            pan_y: 50.0,
            zoom: 2.0,
        };
    }

    // Open scene B: a freshly opened document starts with default state.
    let b = docs.open(scene("Level", Some("res://level.tscn")));
    {
        let st = docs.active_state().expect("B is active");
        assert!(st.selection.is_empty(), "a new document starts with no selection");
        assert_eq!(
            st.viewport,
            ViewportState::default(),
            "and a default viewport framing"
        );
    }
    // Give scene B its own distinct selection + viewport.
    {
        let st = docs.active_state_mut().expect("B is active");
        st.selection = vec![42];
        st.viewport = ViewportState {
            pan_x: -20.0,
            pan_y: 0.0,
            zoom: 0.5,
        };
    }

    // Switching to A swaps the active tree and restores A's state.
    assert!(docs.switch_to(a));
    assert_eq!(docs.active().unwrap().title, "Main", "active tree is scene A");
    let sa = docs.active_state().unwrap();
    assert_eq!(sa.selection, vec![10, 11], "A's selection is restored");
    assert_eq!(
        sa.viewport,
        ViewportState { pan_x: 100.0, pan_y: 50.0, zoom: 2.0 },
        "A's viewport framing is restored"
    );

    // Switching to B swaps to B's tree and its own selection + viewport.
    assert!(docs.switch_to(b));
    assert_eq!(docs.active().unwrap().title, "Level", "active tree is scene B");
    let sb = docs.active_state().unwrap();
    assert_eq!(sb.selection, vec![42], "B's selection is restored");
    assert_eq!(
        sb.viewport,
        ViewportState { pan_x: -20.0, pan_y: 0.0, zoom: 0.5 },
        "B's viewport framing is restored"
    );

    // The two documents' states are independent — no leakage on switch.
    assert_ne!(
        docs.get(a).unwrap().state.selection,
        docs.get(b).unwrap().state.selection,
        "each document keeps its own selection"
    );
}

/// Acceptance (pat-w1ub4.6): closing a scene guards unsaved changes — a
/// clean document closes immediately, a dirty one prompts save/discard/
/// cancel and only closes once resolved, and closing the last document
/// leaves an empty editor (no documents, no active selection).
#[test]
fn editor_close_document_dirty_guard() {
    let mut docs: MultiDocModel<ViewportState> = MultiDocModel::new();
    let a = docs.open(scene("Main", Some("res://main.tscn")));
    let _b = docs.open(scene("Level", Some("res://level.tscn")));
    assert_eq!(docs.len(), 2);

    // A clean document closes immediately, no prompt.
    assert_eq!(docs.request_close(a), CloseOutcome::Closed);
    assert_eq!(docs.len(), 1, "a clean document is removed immediately");

    // Mark the remaining document (now at index 0) dirty.
    let idx = docs.active_index().expect("a document remains");
    docs.set_dirty(idx, true);

    // Requesting close on a dirty document prompts to save; it stays open.
    assert_eq!(docs.request_close(idx), CloseOutcome::NeedsSavePrompt);
    assert_eq!(
        docs.len(),
        1,
        "a dirty document is not closed until the prompt resolves"
    );

    // Cancel keeps it open and still dirty.
    assert!(!docs.resolve_close(idx, SavePromptChoice::Cancel));
    assert_eq!(docs.len(), 1);
    assert!(docs.get(idx).unwrap().dirty, "cancel leaves the edits unsaved");

    // Save clears the dirty flag and closes it — the last close leaves an
    // empty editor.
    assert!(docs.resolve_close(idx, SavePromptChoice::Save));
    assert!(docs.is_empty(), "closing the last document leaves an empty editor");
    assert_eq!(docs.active_index(), None);

    // Discard closes a dirty document without saving; the editor is empty
    // again afterwards.
    let c = docs.open(scene("Enemy", Some("res://enemy.tscn")));
    docs.set_dirty(c, true);
    assert_eq!(docs.request_close(c), CloseOutcome::NeedsSavePrompt);
    assert!(docs.resolve_close(c, SavePromptChoice::Discard));
    assert!(docs.is_empty(), "discard-closing the last document empties the editor");
    assert_eq!(docs.active_index(), None);

    // Requesting close of an out-of-range index is a harmless no-op.
    assert_eq!(docs.request_close(99), CloseOutcome::Closed);
}

#[test]
fn loaded_scene_opens_in_its_own_tab() {
    let mut docs: MultiDocModel<ViewportState> = MultiDocModel::new();
    assert!(docs.is_empty());
    let idx = docs.open_loaded_scene("res://main.tscn", Some("Main"));
    assert_eq!(docs.len(), 1);
    assert_eq!(docs.active_index(), Some(idx));
    let doc = docs.active().expect("active document");
    assert_eq!(doc.kind, DocumentKind::Scene);
    assert_eq!(doc.path.as_deref(), Some("res://main.tscn"));
    assert_eq!(doc.title, "Main");
    let again = docs.open_loaded_scene("res://main.tscn", Some("Main"));
    assert_eq!(again, idx);
    assert_eq!(docs.len(), 1);
    let idx2 = docs.open_loaded_scene("res://level.tscn", Some("Level"));
    assert_eq!(docs.len(), 2);
    assert_eq!(docs.active_index(), Some(idx2));
    assert_ne!(idx2, idx);
    assert_eq!(docs.active().unwrap().title, "Level");
    let idx3 = docs.open_loaded_scene("res://untitled_root.tscn", None);
    assert_eq!(docs.get(idx3).unwrap().title, "res://untitled_root.tscn");
}
