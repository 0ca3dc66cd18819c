//! Enabling and disabling state-dependent menu items (Save, Save As, Save
//! All, Revert, Close Scene, Undo, Redo) from a snapshot of the editor state.

use vstd::prelude::*;

verus! {

/// The editor state that menu enablement depends on.
#[derive(Debug, Clone, Copy, PartialEq, Eq, Structural)]
pub struct EditorMenuState {
    /// Whether a scene is open and active.
    pub has_active_scene: bool,
    /// Whether the active scene has unsaved changes.
    pub active_scene_dirty: bool,
    /// Whether the active scene has been saved to disk (has a path).
    pub active_scene_has_path: bool,
    /// Whether the undo stack is non-empty.
    pub can_undo: bool,
    /// Whether the redo stack is non-empty.
    pub can_redo: bool,
}

impl Default for EditorMenuState {
    fn default() -> (r: Self)
        ensures
            !r.has_active_scene,
            !r.active_scene_dirty,
            !r.active_scene_has_path,
            !r.can_undo,
            !r.can_redo,
    {
        EditorMenuState {
            has_active_scene: false,
            active_scene_dirty: false,
            active_scene_has_path: false,
            can_undo: false,
            can_redo: false,
        }
    }
}

/// A state-dependent menu item.
#[derive(Debug, Clone, Copy, PartialEq, Eq, Structural)]
pub enum MenuItem {
    /// Save the active scene.
    Save,
    /// Save the active scene to a new path.
    SaveAs,
    /// Save every open scene.
    SaveAll,
    /// Reload the active scene from disk.
    Revert,
    /// Close the active scene.
    CloseScene,
    /// Undo the last action.
    Undo,
    /// Redo the last undone action.
    Redo,
}

/// Whether `item` is actionable in `state`: Save needs unsaved changes,
/// Revert a scene that exists on disk, Save As / Save All / Close an active
/// scene, and Undo / Redo a non-empty stack.
pub open spec fn item_enabled(item: MenuItem, state: EditorMenuState) -> bool {
    match item {
        MenuItem::Save => state.has_active_scene && state.active_scene_dirty,
        MenuItem::SaveAs => state.has_active_scene,
        MenuItem::SaveAll => state.has_active_scene,
        MenuItem::Revert => state.has_active_scene && state.active_scene_has_path,
        MenuItem::CloseScene => state.has_active_scene,
        MenuItem::Undo => state.can_undo,
        MenuItem::Redo => state.can_redo,
    }
}

/// Whether `item` is enabled for `state`.
pub fn is_enabled(item: MenuItem, state: &EditorMenuState) -> (r: bool)
    ensures
        r == item_enabled(item, *state),
{
    match item {
        MenuItem::Save => state.has_active_scene && state.active_scene_dirty,
        MenuItem::SaveAs => state.has_active_scene,
        MenuItem::SaveAll => state.has_active_scene,
        MenuItem::Revert => state.has_active_scene && state.active_scene_has_path,
        MenuItem::CloseScene => state.has_active_scene,
        MenuItem::Undo => state.can_undo,
        MenuItem::Redo => state.can_redo,
    }
}

/// With no scene open, no scene item (Save, Save As, Save All, Revert,
/// Close Scene) is enabled; Save is never enabled on a clean scene, and
/// Revert never on a scene that was never saved.
pub proof fn law_scene_items_need_scene(state: EditorMenuState)
    ensures
        !state.has_active_scene ==> {
            &&& !item_enabled(MenuItem::Save, state)
            &&& !item_enabled(MenuItem::SaveAs, state)
            &&& !item_enabled(MenuItem::SaveAll, state)
            &&& !item_enabled(MenuItem::Revert, state)
            &&& !item_enabled(MenuItem::CloseScene, state)
        },
        !state.active_scene_dirty ==> !item_enabled(MenuItem::Save, state),
        !state.active_scene_has_path ==> !item_enabled(MenuItem::Revert, state),
{
}

} // verus!
