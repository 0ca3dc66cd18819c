use gdeditor::editor_mode::{EditorMode, PlayState, RunControls, RunTarget};

// -- EditorMode ---------------------------------------------------------

#[test]
fn editor_mode_default_is_2d() {
    assert_eq!(EditorMode::default(), EditorMode::Canvas2D);
}

#[test]
fn editor_mode_labels() {
    assert_eq!(EditorMode::Canvas2D.label(), "2D");
    assert_eq!(EditorMode::Spatial3D.label(), "3D");
    assert_eq!(EditorMode::Script.label(), "Script");
    assert_eq!(EditorMode::Game.label(), "Game");
    assert_eq!(EditorMode::AssetLib.label(), "AssetLib");
}

#[test]
fn editor_mode_all_returns_five() {
    assert_eq!(EditorMode::all().len(), 5);
}

#[test]
fn editor_mode_from_str_key() {
    assert_eq!(EditorMode::from_str_key("2d"), Some(EditorMode::Canvas2D));
    assert_eq!(EditorMode::from_str_key("3d"), Some(EditorMode::Spatial3D));
    assert_eq!(EditorMode::from_str_key("script"), Some(EditorMode::Script));
    assert_eq!(EditorMode::from_str_key("game"), Some(EditorMode::Game));
    assert_eq!(
        EditorMode::from_str_key("assetlib"),
        Some(EditorMode::AssetLib)
    );
    assert_eq!(EditorMode::from_str_key("invalid"), None);
}

#[test]
fn editor_mode_key_roundtrip() {
    for mode in EditorMode::all() {
        assert_eq!(EditorMode::from_str_key(mode.key()), Some(mode));
    }
}

// -- PlayState / RunControls --------------------------------------------

#[test]
fn play_state_default_is_stopped() {
    assert_eq!(PlayState::default(), PlayState::Stopped);
}

#[test]
fn run_controls_initial_state() {
    let rc = RunControls::new();
    assert_eq!(rc.state, PlayState::Stopped);
    assert!(!rc.is_running());
    assert!(!rc.is_playing());
    assert!(!rc.is_paused());
}

#[test]
fn run_controls_play() {
    let mut rc = RunControls::new();
    rc.play(RunTarget::MainScene);
    assert!(rc.is_playing());
    assert!(rc.is_running());
    assert!(!rc.is_paused());
    assert!(!rc.last_ran_current);
}

#[test]
fn run_controls_play_current_scene() {
    let mut rc = RunControls::new();
    rc.play(RunTarget::CurrentScene);
    assert!(rc.is_playing());
    assert!(rc.last_ran_current);
}

#[test]
fn run_controls_pause_resume() {
    let mut rc = RunControls::new();
    rc.play(RunTarget::MainScene);
    rc.pause();
    assert!(rc.is_paused());
    assert!(rc.is_running());
    assert!(!rc.is_playing());

    rc.resume();
    assert!(rc.is_playing());
    assert!(!rc.is_paused());
}

#[test]
fn run_controls_toggle_pause() {
    let mut rc = RunControls::new();
    rc.play(RunTarget::MainScene);
    rc.toggle_pause();
    assert!(rc.is_paused());
    rc.toggle_pause();
    assert!(rc.is_playing());
}

#[test]
fn run_controls_stop() {
    let mut rc = RunControls::new();
    rc.play(RunTarget::MainScene);
    rc.stop();
    assert!(!rc.is_running());
    assert_eq!(rc.state, PlayState::Stopped);
}

#[test]
fn run_controls_pause_when_stopped_is_noop() {
    let mut rc = RunControls::new();
    rc.pause();
    assert_eq!(rc.state, PlayState::Stopped);
}

#[test]
fn run_controls_resume_when_stopped_is_noop() {
    let mut rc = RunControls::new();
    rc.resume();
    assert_eq!(rc.state, PlayState::Stopped);
}

#[test]
fn run_controls_custom_scene() {
    let mut rc = RunControls::new();
    rc.play(RunTarget::CustomScene("res://levels/boss.tscn".into()));
    assert!(rc.is_playing());
    assert!(!rc.last_ran_current);
    assert_eq!(
        rc.target,
        RunTarget::CustomScene("res://levels/boss.tscn".into())
    );
}

/// Acceptance (pat-twbea): the top-bar run controls play the project (main
/// scene), play the current scene, pause (toggle), and stop (terminate the
/// running instance).
#[test]
fn top_bar_run_controls() {
    let main = "res://Main.tscn";
    let current = "res://levels/Level2.tscn";
    let mut rc = RunControls::new();

    // Nothing runs until a run control is pressed.
    assert!(!rc.is_running());
    assert_eq!(rc.running_scene(main, current), None);

    // Play-project (F5) launches the project's main scene.
    rc.play_project();
    assert!(rc.is_playing());
    assert!(!rc.last_ran_current);
    assert_eq!(
        rc.running_scene(main, current).as_deref(),
        Some(main),
        "play-project launches the main scene"
    );

    // Stop terminates the running instance before switching targets.
    rc.stop();
    assert!(!rc.is_running());
    assert_eq!(rc.running_scene(main, current), None);

    // Play-scene (F6) launches the currently edited scene.
    rc.play_current_scene();
    assert!(rc.is_playing());
    assert!(rc.last_ran_current);
    assert_eq!(
        rc.running_scene(main, current).as_deref(),
        Some(current),
        "play-scene launches the current scene"
    );

    // Pause toggles the paused state — the instance stays alive.
    rc.toggle_pause();
    assert!(rc.is_paused());
    assert!(rc.is_running());
    assert_eq!(
        rc.running_scene(main, current).as_deref(),
        Some(current),
        "a paused instance is still the current scene"
    );
    // Toggling again resumes play.
    rc.toggle_pause();
    assert!(rc.is_playing());
    assert!(!rc.is_paused());

    // Stop terminates the running instance.
    rc.stop();
    assert!(!rc.is_running());
    assert_eq!(rc.state, PlayState::Stopped);
    assert_eq!(
        rc.running_scene(main, current),
        None,
        "stop terminates the running instance"
    );
}
