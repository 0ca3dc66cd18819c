//! The editor's top bar: the workspace mode buttons (2D, 3D, Script, Game,
//! AssetLib) and the run controls (play project, play current scene, pause,
//! stop).

use vstd::prelude::*;
use crate::text::{owned, str_eq};

verus! {

broadcast use vstd::string::group_string_axioms;

/// The identifier of the viewport rasterizer backend that this build uses.
pub open spec fn backend_name() -> Seq<char> {
    "wgpu"@
}

/// The active viewport rasterizer backend: the default editor build is
/// GPU-backed and reports `"wgpu"`.
pub fn viewport_backend() -> (r: &'static str)
    ensures
        r@ == backend_name(),
{
    "wgpu"
}

/// The active editor workspace mode, one per top-bar button.
#[derive(Debug, Clone, Copy, PartialEq, Eq, Hash, Structural)]
pub enum EditorMode {
    /// 2D canvas editor.
    Canvas2D,
    /// 3D spatial editor.
    Spatial3D,
    /// Script/code editor.
    Script,
    /// Game preview (running scene).
    Game,
    /// Asset library browser.
    AssetLib,
}

/// The toolbar label of a mode.
pub open spec fn mode_label(m: EditorMode) -> Seq<char> {
    match m {
        EditorMode::Canvas2D => "2D"@,
        EditorMode::Spatial3D => "3D"@,
        EditorMode::Script => "Script"@,
        EditorMode::Game => "Game"@,
        EditorMode::AssetLib => "AssetLib"@,
    }
}

/// The string key of a mode.
pub open spec fn mode_key(m: EditorMode) -> Seq<char> {
    match m {
        EditorMode::Canvas2D => "2d"@,
        EditorMode::Spatial3D => "3d"@,
        EditorMode::Script => "script"@,
        EditorMode::Game => "game"@,
        EditorMode::AssetLib => "assetlib"@,
    }
}

/// The mode with a given string key.
pub open spec fn mode_from_key(s: Seq<char>) -> Option<EditorMode> {
    if s == "2d"@ {
        Some(EditorMode::Canvas2D)
    } else if s == "3d"@ {
        Some(EditorMode::Spatial3D)
    } else if s == "script"@ {
        Some(EditorMode::Script)
    } else if s == "game"@ {
        Some(EditorMode::Game)
    } else if s == "assetlib"@ {
        Some(EditorMode::AssetLib)
    } else {
        None
    }
}

/// Every mode, in toolbar order.
pub open spec fn all_modes() -> Seq<EditorMode> {
    seq![EditorMode::Canvas2D, EditorMode::Spatial3D, EditorMode::Script, EditorMode::Game, EditorMode::AssetLib]
}

impl Default for EditorMode {
    fn default() -> (r: Self)
        ensures
            r == EditorMode::Canvas2D,
    {
        EditorMode::Canvas2D
    }
}

impl EditorMode {
    /// The display label for the toolbar button.
    pub fn label(&self) -> (r: &'static str)
        ensures
            r@ == mode_label(*self),
    {
        match self {
            EditorMode::Canvas2D => "2D",
            EditorMode::Spatial3D => "3D",
            EditorMode::Script => "Script",
            EditorMode::Game => "Game",
            EditorMode::AssetLib => "AssetLib",
        }
    }

    /// All modes in toolbar display order.
    pub fn all() -> (r: [EditorMode; 5])
        ensures
            r@ == all_modes(),
    {
        let r = [EditorMode::Canvas2D, EditorMode::Spatial3D, EditorMode::Script, EditorMode::Game, EditorMode::AssetLib];
        assert(r@ =~= all_modes());
        r
    }

    /// Parses a mode from its string key.
    pub fn from_str_key(s: &str) -> (r: Option<Self>)
        ensures
            r == mode_from_key(s@),
    {
        if str_eq(s, "2d") {
            Some(EditorMode::Canvas2D)
        } else if str_eq(s, "3d") {
            Some(EditorMode::Spatial3D)
        } else if str_eq(s, "script") {
            Some(EditorMode::Script)
        } else if str_eq(s, "game") {
            Some(EditorMode::Game)
        } else if str_eq(s, "assetlib") {
            Some(EditorMode::AssetLib)
        } else {
            None
        }
    }

    /// The string key of the mode.
    pub fn key(&self) -> (r: &'static str)
        ensures
            r@ == mode_key(*self),
    {
        match self {
            EditorMode::Canvas2D => "2d",
            EditorMode::Spatial3D => "3d",
            EditorMode::Script => "script",
            EditorMode::Game => "game",
            EditorMode::AssetLib => "assetlib",
        }
    }
}

/// A mode's key parses back to that mode, and distinct modes have distinct
/// keys.
pub proof fn law_mode_key_roundtrip(m: EditorMode)
    ensures
        mode_from_key(mode_key(m)) == Some(m),
{
    reveal_strlit("2d");
    reveal_strlit("3d");
    reveal_strlit("script");
    reveal_strlit("game");
    reveal_strlit("assetlib");
    assert("2d"@[0] != "3d"@[0]);
    assert("script"@.len() != "game"@.len());
    assert("script"@.len() != "2d"@.len() && "script"@.len() != "3d"@.len());
    assert("game"@.len() != "2d"@.len() && "game"@.len() != "3d"@.len());
    assert("assetlib"@.len() != "script"@.len() && "assetlib"@.len() != "game"@.len());
    assert("assetlib"@.len() != "2d"@.len() && "assetlib"@.len() != "3d"@.len());
}

/// The play state of the run controls.
#[derive(Debug, Clone, Copy, PartialEq, Eq, Hash, Structural)]
pub enum PlayState {
    /// No scene is running.
    Stopped,
    /// A scene is running.
    Playing,
    /// A scene is running but paused.
    Paused,
}

impl Default for PlayState {
    fn default() -> (r: Self)
        ensures
            r == PlayState::Stopped,
    {
        PlayState::Stopped
    }
}

/// Which scene to run.
#[derive(Debug, Clone, PartialEq, Eq)]
pub enum RunTarget {
    /// The project's main scene.
    MainScene,
    /// The currently edited scene.
    CurrentScene,
    /// A specific scene by path.
    CustomScene(String),
}

/// The run controls: play state, what runs, and whether the last run action
/// was "run current scene".
#[derive(Debug, Clone)]
pub struct RunControls {
    /// Current play state.
    pub state: PlayState,
    /// What to run.
    pub target: RunTarget,
    /// Whether "Run Current Scene" was the last run action.
    pub last_ran_current: bool,
}

/// The state after pausing: a playing scene pauses, any other state stays.
pub open spec fn paused_state(s: PlayState) -> PlayState {
    if s == PlayState::Playing { PlayState::Paused } else { s }
}

/// The state after resuming: a paused scene plays, any other state stays.
pub open spec fn resumed_state(s: PlayState) -> PlayState {
    if s == PlayState::Paused { PlayState::Playing } else { s }
}

/// The state after toggling pause: playing and paused swap, stopped stays.
pub open spec fn toggled_state(s: PlayState) -> PlayState {
    match s {
        PlayState::Playing => PlayState::Paused,
        PlayState::Paused => PlayState::Playing,
        PlayState::Stopped => PlayState::Stopped,
    }
}

/// The path of the scene that runs for a target, given the project's main
/// scene and the editor's current scene.
pub open spec fn target_path(t: RunTarget, main_scene: Seq<char>, current_scene: Seq<char>) -> Seq<char> {
    match t {
        RunTarget::MainScene => main_scene,
        RunTarget::CurrentScene => current_scene,
        RunTarget::CustomScene(p) => p@,
    }
}

impl Default for RunControls {
    fn default() -> (r: Self)
        ensures
            r.state == PlayState::Stopped,
            r.target == RunTarget::MainScene,
            !r.last_ran_current,
    {
        RunControls::new()
    }
}

impl RunControls {
    /// Run controls in the stopped state, targeting the main scene.
    pub fn new() -> (r: Self)
        ensures
            r.state == PlayState::Stopped,
            r.target == RunTarget::MainScene,
            !r.last_ran_current,
    {
        RunControls { state: PlayState::Stopped, target: RunTarget::MainScene, last_ran_current: false }
    }

    /// Starts playing `target`.
    pub fn play(&mut self, target: RunTarget)
        ensures
            final(self).state == PlayState::Playing,
            final(self).target == target,
            final(self).last_ran_current == (target == RunTarget::CurrentScene),
    {
        self.last_ran_current = match &target {
            RunTarget::CurrentScene => true,
            _ => false,
        };
        self.target = target;
        self.state = PlayState::Playing;
    }

    /// Pauses a playing scene; does nothing otherwise.
    pub fn pause(&mut self)
        ensures
            final(self).state == paused_state(old(self).state),
            final(self).target == old(self).target,
            final(self).last_ran_current == old(self).last_ran_current,
    {
        if self.state == PlayState::Playing {
            self.state = PlayState::Paused;
        }
    }

    /// Resumes a paused scene; does nothing otherwise.
    pub fn resume(&mut self)
        ensures
            final(self).state == resumed_state(old(self).state),
            final(self).target == old(self).target,
            final(self).last_ran_current == old(self).last_ran_current,
    {
        if self.state == PlayState::Paused {
            self.state = PlayState::Playing;
        }
    }

    /// Toggles between playing and paused.
    pub fn toggle_pause(&mut self)
        ensures
            final(self).state == toggled_state(old(self).state),
            final(self).target == old(self).target,
            final(self).last_ran_current == old(self).last_ran_current,
    {
        match self.state {
            PlayState::Playing => self.state = PlayState::Paused,
            PlayState::Paused => self.state = PlayState::Playing,
            PlayState::Stopped => {},
        }
    }

    /// Stops the running scene.
    pub fn stop(&mut self)
        ensures
            final(self).state == PlayState::Stopped,
            final(self).target == old(self).target,
            final(self).last_ran_current == old(self).last_ran_current,
    {
        self.state = PlayState::Stopped;
    }

    /// Whether a scene is running (playing or paused).
    pub fn is_running(&self) -> (r: bool)
        ensures
            r == (self.state != PlayState::Stopped),
    {
        self.state != PlayState::Stopped
    }

    /// Whether the scene is playing (neither paused nor stopped).
    pub fn is_playing(&self) -> (r: bool)
        ensures
            r == (self.state == PlayState::Playing),
    {
        self.state == PlayState::Playing
    }

    /// Whether the scene is paused.
    pub fn is_paused(&self) -> (r: bool)
        ensures
            r == (self.state == PlayState::Paused),
    {
        self.state == PlayState::Paused
    }

    /// Plays the project's main scene (Run Project).
    pub fn play_project(&mut self)
        ensures
            final(self).state == PlayState::Playing,
            final(self).target == RunTarget::MainScene,
            !final(self).last_ran_current,
    {
        self.play(RunTarget::MainScene);
    }

    /// Plays the currently edited scene (Run Current Scene).
    pub fn play_current_scene(&mut self)
        ensures
            final(self).state == PlayState::Playing,
            final(self).target == RunTarget::CurrentScene,
            final(self).last_ran_current,
    {
        self.play(RunTarget::CurrentScene);
    }

    /// The path of the scene that is running (or, when paused, still
    /// running), given the project's main scene and the editor's current
    /// scene; `None` when stopped.
    pub fn running_scene(&self, main_scene: &str, current_scene: &str) -> (r: Option<String>)
        ensures
            self.state == PlayState::Stopped ==> r is None,
            self.state != PlayState::Stopped ==> (r matches Some(p) && p@ == target_path(self.target, main_scene@, current_scene@)),
    {
        if self.state == PlayState::Stopped {
            return None;
        }
        match &self.target {
            RunTarget::MainScene => Some(owned(main_scene)),
            RunTarget::CurrentScene => Some(owned(current_scene)),
            RunTarget::CustomScene(path) => Some(path.clone()),
        }
    }
}

/// Toggling pause twice gives back the state one started from, and pausing
/// a playing scene then resuming it plays it again.
pub proof fn law_pause_round_trip(s: PlayState)
    ensures
        toggled_state(toggled_state(s)) == s,
        s == PlayState::Playing ==> resumed_state(paused_state(s)) == s,
        s == PlayState::Paused ==> paused_state(resumed_state(s)) == s,
{
}

/// Pausing, resuming, toggling and stopping never start a scene: from the
/// stopped state each of them leaves the controls stopped.
pub proof fn law_stopped_stays_stopped()
    ensures
        paused_state(PlayState::Stopped) == PlayState::Stopped,
        resumed_state(PlayState::Stopped) == PlayState::Stopped,
        toggled_state(PlayState::Stopped) == PlayState::Stopped,
{
}

} // verus!
