//! The main-screen mode switcher: a row of mutually exclusive buttons (2D,
//! 3D, Script, AssetLib) that swap the central view, and the main pane that
//! mounts the view component of the active mode.

use vstd::prelude::*;
use crate::editor_mode::EditorMode;

verus! {

/// One main-screen mode button and whether it is the active (pressed) one.
#[derive(Debug, Clone, Copy, PartialEq, Eq, Structural)]
pub struct ModeButton {
    /// The mode this button selects.
    pub mode: EditorMode,
    /// Whether this is the active button.
    pub active: bool,
}

/// The central pane shown for a main-screen mode.
#[derive(Debug, Clone, Copy, PartialEq, Eq, Structural)]
pub enum MainView {
    /// The 2D canvas viewport.
    Canvas2D,
    /// The 3D spatial viewport.
    Spatial3D,
    /// The script editor pane.
    ScriptEditor,
    /// The running game / play view.
    GamePreview,
    /// The AssetLib browser.
    AssetLibBrowser,
}

/// A central-pane view component: the view it renders and the identifier the
/// runtime mounts it by.
#[derive(Debug, Clone, Copy, PartialEq, Eq)]
pub struct ViewComponent {
    /// Which view this component renders.
    pub view: MainView,
    /// Stable identifier used to mount the widget.
    pub component_id: &'static str,
}

/// The component identifier of a view.
pub open spec fn component_id_of(v: MainView) -> Seq<char> {
    match v {
        MainView::Canvas2D => "canvas_item_editor"@,
        MainView::Spatial3D => "spatial_editor"@,
        MainView::ScriptEditor => "script_editor"@,
        MainView::GamePreview => "game_view"@,
        MainView::AssetLibBrowser => "asset_lib"@,
    }
}

/// Whether `c` is the component of view `v`.
pub open spec fn is_component_of(c: ViewComponent, v: MainView) -> bool {
    c.view == v && c.component_id@ == component_id_of(v)
}

impl MainView {
    /// The view component mounted to render this view.
    pub fn component(self) -> (r: ViewComponent)
        ensures
            is_component_of(r, self),
    {
        let component_id = match self {
            MainView::Canvas2D => "canvas_item_editor",
            MainView::Spatial3D => "spatial_editor",
            MainView::ScriptEditor => "script_editor",
            MainView::GamePreview => "game_view",
            MainView::AssetLibBrowser => "asset_lib",
        };
        ViewComponent { view: self, component_id }
    }
}

/// The central view of a mode.
pub open spec fn mode_view(m: EditorMode) -> MainView {
    match m {
        EditorMode::Canvas2D => MainView::Canvas2D,
        EditorMode::Spatial3D => MainView::Spatial3D,
        EditorMode::Script => MainView::ScriptEditor,
        EditorMode::Game => MainView::GamePreview,
        EditorMode::AssetLib => MainView::AssetLibBrowser,
    }
}

/// The main-screen modes the switcher toggles between, in toolbar order.
pub open spec fn main_modes() -> Seq<EditorMode> {
    seq![EditorMode::Canvas2D, EditorMode::Spatial3D, EditorMode::Script, EditorMode::AssetLib]
}

/// The button row when `active` is the active mode.
pub open spec fn buttons_for(active: EditorMode) -> Seq<ModeButton> {
    main_modes().map_values(|m: EditorMode| ModeButton { mode: m, active: active == m })
}

/// The main-screen mode switcher: which mode's view is shown.
#[derive(Debug, PartialEq, Eq, Structural)]
pub struct MainScreenSwitcher {
    active: EditorMode,
}

impl Clone for MainScreenSwitcher {
    fn clone(&self) -> (r: Self)
        ensures
            r == *self,
    {
        proof {
            use_type_invariant(self);
        }
        MainScreenSwitcher { active: self.active }
    }
}

impl Default for MainScreenSwitcher {
    fn default() -> (r: Self)
        ensures
            r.active_mode() == EditorMode::Canvas2D,
    {
        MainScreenSwitcher::new()
    }
}

impl MainScreenSwitcher {
    /// The main-screen modes, in toolbar order (the Game mode is driven by
    /// the run controls, not this switcher).
    pub const MODES: [EditorMode; 4] = [EditorMode::Canvas2D, EditorMode::Spatial3D, EditorMode::Script, EditorMode::AssetLib];

    /// The active mode.
    pub closed spec fn active_mode(&self) -> EditorMode {
        self.active
    }

    /// The active mode is always one of the main-screen modes, so exactly
    /// one button is active.
    #[verifier::type_invariant]
    spec fn shows_main_mode(self) -> bool {
        main_modes().contains(self.active)
    }

    /// A switcher showing the 2D canvas view.
    pub fn new() -> (r: Self)
        ensures
            r.active_mode() == EditorMode::Canvas2D,
    {
        assert(main_modes()[0] == EditorMode::Canvas2D);
        MainScreenSwitcher { active: EditorMode::Canvas2D }
    }

    /// The mode whose view is shown.
    pub fn active(&self) -> (r: EditorMode)
        ensures
            r == self.active_mode(),
    {
        self.active
    }

    /// The central view rendered for `mode`.
    pub fn view_for(mode: EditorMode) -> (r: MainView)
        ensures
            r == mode_view(mode),
    {
        match mode {
            EditorMode::Canvas2D => MainView::Canvas2D,
            EditorMode::Spatial3D => MainView::Spatial3D,
            EditorMode::Script => MainView::ScriptEditor,
            EditorMode::Game => MainView::GamePreview,
            EditorMode::AssetLib => MainView::AssetLibBrowser,
        }
    }

    /// The central view currently rendered.
    pub fn main_view(&self) -> (r: MainView)
        ensures
            r == mode_view(self.active_mode()),
    {
        Self::view_for(self.active)
    }

    /// Whether `mode` is the active button.
    pub fn is_active(&self, mode: EditorMode) -> (r: bool)
        ensures
            r == (self.active_mode() == mode),
    {
        self.active == mode
    }

    /// Selects `mode`; returns whether the view changed. Selecting the
    /// active mode does nothing, and so does selecting a mode that has no
    /// button here (the Game mode, driven by the run controls), so that
    /// exactly one button stays active.
    pub fn select(&mut self, mode: EditorMode) -> (changed: bool)
        ensures
            main_modes().contains(mode) ==> final(self).active_mode() == mode
                && changed == (old(self).active_mode() != mode),
            !main_modes().contains(mode) ==> final(self).active_mode() == old(self).active_mode() && !changed,
            main_modes().contains(final(self).active_mode()),
    {
        proof {
            use_type_invariant(&*self);
        }
        if self.active == mode {
            return false;
        }
        match mode {
            EditorMode::Game => {
                assert(!main_modes().contains(mode)) by {
                    if main_modes().contains(mode) {
                        let k = choose|k: int| 0 <= k < 4 && main_modes()[k] == mode;
                    }
                }
                return false;
            },
            EditorMode::Canvas2D => assert(main_modes()[0] == mode),
            EditorMode::Spatial3D => assert(main_modes()[1] == mode),
            EditorMode::Script => assert(main_modes()[2] == mode),
            EditorMode::AssetLib => assert(main_modes()[3] == mode),
        }
        self.active = mode;
        true
    }

    /// The mode buttons with their active state, in toolbar order; exactly
    /// one is active, the one of the active mode.
    pub fn button_states(&self) -> (r: Vec<ModeButton>)
        ensures
            r@ == buttons_for(self.active_mode()),
            exists|i: int| 0 <= i < r@.len() && (#[trigger] r@[i]).active && r@[i].mode == self.active_mode(),
            forall|i: int, j: int|
                0 <= i < r@.len() && 0 <= j < r@.len() && (#[trigger] r@[i]).active && (#[trigger] r@[j]).active ==> i == j,
    {
        proof {
            use_type_invariant(self);
            law_exactly_one_button_active(self.active);
        }
        let modes = Self::MODES;
        assert(modes@ =~= main_modes());
        let mut r: Vec<ModeButton> = Vec::new();
        let mut i: usize = 0;
        while i < 4
            invariant
                i <= 4,
                modes@ == main_modes(),
                r@ == buttons_for(self.active).take(i as int),
            decreases 4 - i,
        {
            let m = modes[i];
            r.push(ModeButton { mode: m, active: self.active == m });
            i += 1;
            assert(buttons_for(self.active).take(i as int) =~= buttons_for(self.active).take((i - 1) as int).push(
                buttons_for(self.active)[i - 1],
            ));
        }
        assert(buttons_for(self.active).take(4) =~= buttons_for(self.active));
        r
    }
}

/// With a main-screen mode active, exactly one button is active: the one of
/// that mode.
pub proof fn law_exactly_one_button_active(active: EditorMode)
    requires
        main_modes().contains(active),
    ensures
        exists|i: int| 0 <= i < 4 && (#[trigger] buttons_for(active)[i]).active && buttons_for(active)[i].mode == active,
        forall|i: int, j: int|
            0 <= i < 4 && 0 <= j < 4 && (#[trigger] buttons_for(active)[i]).active && (#[trigger] buttons_for(active)[j]).active ==> i == j,
{
    let b = buttons_for(active);
    assert(b.len() == 4);
    let k: int = choose|k: int| 0 <= k < 4 && main_modes()[k] == active;
    assert(b[k].active && b[k].mode == active);
}

/// Distinct modes show distinct views, and distinct views mount distinct
/// components.
pub proof fn law_views_distinct(m1: EditorMode, m2: EditorMode, v1: MainView, v2: MainView)
    ensures
        m1 != m2 ==> mode_view(m1) != mode_view(m2),
        v1 != v2 ==> component_id_of(v1) != component_id_of(v2),
{
    reveal_strlit("canvas_item_editor");
    reveal_strlit("spatial_editor");
    reveal_strlit("script_editor");
    reveal_strlit("game_view");
    reveal_strlit("asset_lib");
    assert("canvas_item_editor"@.len() == 18);
    assert("spatial_editor"@.len() == 14);
    assert("script_editor"@.len() == 13);
    assert("game_view"@.len() == 9);
    assert("asset_lib"@.len() == 9);
    assert("game_view"@[0] != "asset_lib"@[0]);
}

/// The editor's central pane: mounts the component of the active mode.
#[derive(Debug, Clone, PartialEq, Eq, Structural)]
pub struct MainPane {
    switcher: MainScreenSwitcher,
}

impl Default for MainPane {
    fn default() -> (r: Self)
        ensures
            r.mode() == EditorMode::Canvas2D,
    {
        MainPane::new()
    }
}

impl MainPane {
    /// The active mode of the pane.
    pub closed spec fn mode(&self) -> EditorMode {
        self.switcher.active_mode()
    }

    /// A pane routed to the 2D view.
    pub fn new() -> (r: Self)
        ensures
            r.mode() == EditorMode::Canvas2D,
    {
        MainPane { switcher: MainScreenSwitcher::new() }
    }

    /// The switcher that drives the pane.
    pub fn switcher(&self) -> (r: &MainScreenSwitcher)
        ensures
            r.active_mode() == self.mode(),
    {
        &self.switcher
    }

    /// The active mode.
    pub fn active_mode(&self) -> (r: EditorMode)
        ensures
            r == self.mode(),
    {
        self.switcher.active()
    }

    /// The component the pane mounts: always that of the active mode.
    pub fn routed_component(&self) -> (r: ViewComponent)
        ensures
            is_component_of(r, mode_view(self.mode())),
    {
        self.switcher.main_view().component()
    }

    /// Switches to `mode`; returns whether the mounted component changed.
    /// A mode without a main-screen button (the Game mode) changes nothing.
    pub fn route_to(&mut self, mode: EditorMode) -> (changed: bool)
        ensures
            main_modes().contains(mode) ==> final(self).mode() == mode && changed == (old(self).mode() != mode),
            !main_modes().contains(mode) ==> final(self).mode() == old(self).mode() && !changed,
    {
        self.switcher.select(mode)
    }

    /// A node-selection change: the mode is editor-global, so the pane keeps
    /// the component of the active mode.
    pub fn on_selection_changed(&self) -> (r: ViewComponent)
        ensures
            is_component_of(r, mode_view(self.mode())),
    {
        self.routed_component()
    }

    /// A scene change (new scene, open scene, tab switch): the mode persists,
    /// so the pane keeps the component of the active mode.
    pub fn on_scene_changed(&self) -> (r: ViewComponent)
        ensures
            is_component_of(r, mode_view(self.mode())),
    {
        self.routed_component()
    }
}

} // verus!
