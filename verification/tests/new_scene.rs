use gdeditor::new_scene::SceneWorkspace;

/// Acceptance (pat-ajp4b): activating the new-scene control creates an
/// untitled scene, adds its tab, and makes it the active scene.
#[test]
fn top_bar_open_new_scene() {
    let mut workspace = SceneWorkspace::new();
    assert_eq!(workspace.tab_count(), 0);
    assert_eq!(workspace.active_index(), None);

    // Activating new-scene adds an untitled tab and focuses it.
    let first = workspace.new_scene();
    assert_eq!(workspace.tab_count(), 1, "a tab was added");
    assert_eq!(workspace.active_index(), Some(first), "the new scene is active");
    let tab = workspace.tab(first).expect("new tab exists");
    assert!(tab.untitled, "the new scene is untitled");
    assert_eq!(workspace.active_title(), Some("untitled"));

    // A second new-scene gets a distinct title and takes focus from the first.
    let second = workspace.new_scene();
    assert_eq!(workspace.tab_count(), 2);
    assert_eq!(
        workspace.active_index(),
        Some(second),
        "focus moves to the newest scene"
    );
    assert_ne!(first, second);
    assert_eq!(workspace.active_title(), Some("untitled (2)"));
    // The first scene is still present, just no longer active.
    assert!(workspace.tab(first).unwrap().untitled);
}
