use gdeditor::menu_enablement::{is_enabled, EditorMenuState, MenuItem};

/// Acceptance (pat-e9l5w): Save is disabled when the active scene has no
/// changes and becomes enabled after an edit; Revert is disabled for a
/// never-saved scene.
#[test]
fn menus_action_enablement_reflects_state() {
    // No scene open: nothing scene-related is actionable.
    let empty = EditorMenuState::default();
    assert!(!is_enabled(MenuItem::Save, &empty));
    assert!(!is_enabled(MenuItem::SaveAs, &empty));
    assert!(!is_enabled(MenuItem::Revert, &empty));
    assert!(!is_enabled(MenuItem::CloseScene, &empty));

    // A brand-new, never-saved scene with no edits yet.
    let mut state = EditorMenuState {
        has_active_scene: true,
        active_scene_dirty: false,
        active_scene_has_path: false,
        ..Default::default()
    };
    // Save is disabled with no unsaved changes.
    assert!(!is_enabled(MenuItem::Save, &state), "Save off when clean");
    // Revert is disabled for a never-saved scene.
    assert!(
        !is_enabled(MenuItem::Revert, &state),
        "Revert off for an unsaved scene"
    );
    // Save As and Close are available as soon as a scene is open.
    assert!(is_enabled(MenuItem::SaveAs, &state));
    assert!(is_enabled(MenuItem::CloseScene, &state));

    // After an edit, Save becomes enabled.
    state.active_scene_dirty = true;
    assert!(
        is_enabled(MenuItem::Save, &state),
        "Save on after an edit makes the scene dirty"
    );
    // Still never saved, so Revert stays disabled.
    assert!(!is_enabled(MenuItem::Revert, &state));

    // Once the scene has been saved to disk it has a path; Revert enables.
    state.active_scene_has_path = true;
    assert!(
        is_enabled(MenuItem::Revert, &state),
        "Revert on once the scene exists on disk"
    );

    // Saving clears the dirty flag, disabling Save again.
    state.active_scene_dirty = false;
    assert!(
        !is_enabled(MenuItem::Save, &state),
        "Save off again after saving"
    );
    // Revert remains available (the scene still has a path).
    assert!(is_enabled(MenuItem::Revert, &state));
}

/// Undo/Redo enablement tracks the undo and redo stacks.
#[test]
fn undo_redo_enablement_tracks_stacks() {
    let mut state = EditorMenuState {
        has_active_scene: true,
        ..Default::default()
    };
    assert!(!is_enabled(MenuItem::Undo, &state));
    assert!(!is_enabled(MenuItem::Redo, &state));

    state.can_undo = true;
    assert!(is_enabled(MenuItem::Undo, &state));
    assert!(!is_enabled(MenuItem::Redo, &state));

    state.can_redo = true;
    assert!(is_enabled(MenuItem::Redo, &state));
}
