use gdeditor::open_recent::OpenRecent;

fn paths(items: &[&str]) -> Vec<String> {
    items.iter().map(|s| s.to_string()).collect()
}

/// Acceptance (pat-0gmlw): opening scenes populates Open Recent
/// most-recent-first, selecting an entry opens it, and the list persists
/// after reload.
#[test]
fn menus_open_recent_tracks_and_opens() {
    let mut recent = OpenRecent::new(20);
    assert!(recent.is_empty(), "empty before any scene is opened");

    // Opening scenes populates Open Recent most-recent-first.
    recent.record_open("res://Main.tscn");
    recent.record_open("res://Player.tscn");
    recent.record_open("res://Enemy.tscn");
    assert_eq!(
        recent.entries(),
        paths(&["res://Enemy.tscn", "res://Player.tscn", "res://Main.tscn"]).as_slice(),
        "most-recent-first ordering"
    );

    // Re-opening an existing scene moves it to the front (de-duplicated).
    recent.record_open("res://Main.tscn");
    assert_eq!(
        recent.entries(),
        paths(&["res://Main.tscn", "res://Enemy.tscn", "res://Player.tscn"]).as_slice(),
        "re-open moves to front without duplicating"
    );
    assert_eq!(recent.len(), 3);

    // Selecting an entry opens it and moves it to the front.
    let opened = recent.select(2).expect("entry at index 2 exists");
    assert_eq!(opened, "res://Player.tscn", "select returns the opened path");
    assert_eq!(
        recent.entries()[0],
        "res://Player.tscn",
        "selected entry becomes most-recent"
    );
    // Out-of-range selection is a no-op returning None.
    assert!(recent.select(99).is_none());

    // The list persists across a reload (save → load).
    let json = serde_json::to_string(recent.entries()).expect("list serializes");
    let saved: Vec<String> = serde_json::from_str(&json).expect("persisted list reloads");
    let reloaded = OpenRecent::from_parts(saved, recent.max_entries());
    assert_eq!(
        reloaded.entries(),
        recent.entries(),
        "Open Recent survives a save/reload"
    );

    // The bound drops the oldest entries.
    let mut bounded = OpenRecent::new(2);
    bounded.record_open("a");
    bounded.record_open("b");
    bounded.record_open("c");
    assert_eq!(
        bounded.entries(),
        paths(&["c", "b"]).as_slice(),
        "oldest entry dropped at capacity"
    );
}
