use gdeditor::open_scripts_panel::OpenScriptsPanel;

/// Acceptance (pat-thr6k): the panel lists open scripts, selecting one makes
/// it the active editor buffer, and closing an entry removes it.
#[test]
fn script_nav_open_scripts_panel() {
    let mut p = OpenScriptsPanel::new();
    assert!(p.is_empty());
    assert_eq!(p.active_index(), None);

    // Opening scripts lists them; the most recently opened is active.
    p.open("res://player.gd");
    p.open("res://enemy.gd");
    p.open("res://ui.gd");
    assert_eq!(
        p.scripts(),
        &[
            "res://player.gd".to_string(),
            "res://enemy.gd".to_string(),
            "res://ui.gd".to_string()
        ]
    );
    assert_eq!(p.active_path(), Some("res://ui.gd"));

    // Opening an already-open script focuses it instead of duplicating.
    let idx = p.open("res://player.gd");
    assert_eq!(idx, 0);
    assert_eq!(p.len(), 3);
    assert_eq!(p.active_path(), Some("res://player.gd"));

    // Selecting an entry makes it the active editor buffer.
    assert!(p.select(1));
    assert_eq!(p.active_path(), Some("res://enemy.gd"));
    assert!(!p.select(9)); // out of range, no change
    assert_eq!(p.active_path(), Some("res://enemy.gd"));

    // Closing the active entry removes it; active moves to the entry that
    // slid into that slot (ui.gd).
    assert!(p.close(1));
    assert_eq!(
        p.scripts(),
        &["res://player.gd".to_string(), "res://ui.gd".to_string()]
    );
    assert_eq!(p.active_path(), Some("res://ui.gd"));

    // Closing an entry before the active one shifts the active index down.
    assert!(p.close(0)); // remove player.gd; active ui shifts 1 -> 0
    assert_eq!(p.scripts(), &["res://ui.gd".to_string()]);
    assert_eq!(p.active_path(), Some("res://ui.gd"));

    // Closing the last entry empties the panel and clears the active index.
    assert!(p.close(0));
    assert!(p.is_empty());
    assert_eq!(p.active_index(), None);
    assert_eq!(p.active_path(), None);

    // Out-of-range close is a no-op.
    assert!(!p.close(0));
}

/// `is_open` reflects membership and `open` is idempotent on paths.
#[test]
fn open_scripts_membership_and_idempotent_open() {
    let mut p = OpenScriptsPanel::new();
    assert!(!p.is_open("res://a.gd"));
    p.open("res://a.gd");
    assert!(p.is_open("res://a.gd"));
    // Re-opening does not grow the list.
    p.open("res://a.gd");
    assert_eq!(p.len(), 1);
}
