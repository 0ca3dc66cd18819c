use gdeditor::find_in_files::{find_in_files, open_location, OpenLocation, SearchOptions};

/// Acceptance (pat-78ywg): project-wide search returns matches grouped by
/// file with line context, and activating a result opens that file at the
/// matched line.
#[test]
fn script_nav_find_in_files() {
    let files = vec![
        (
            "player.gd",
            "func move():\n    velocity = 1\n    move_and_slide()\n",
        ),
        ("enemy.gd", "func move():\n    pass\n"),
        ("ui.gd", "var label = 0\n"),
    ];
    let results = find_in_files(
        &files,
        "move",
        SearchOptions {
            case_sensitive: true,
        },
    );

    // Grouped by file, in input order; ui.gd (no match) omitted.
    assert_eq!(results.len(), 2);
    assert_eq!(results[0].path, "player.gd");
    assert_eq!(results[1].path, "enemy.gd");

    // player.gd: "move" on line 1 ("func move():") and line 3 ("move_and_slide()").
    assert_eq!(results[0].matches.len(), 2);
    assert_eq!(results[0].matches[0].line, 1);
    assert_eq!(results[0].matches[0].column, 6); // after "func "
    assert_eq!(results[0].matches[0].context, "func move():");
    assert_eq!(results[0].matches[1].line, 3);
    assert_eq!(results[0].matches[1].column, 5); // after 4 spaces
    assert_eq!(results[0].matches[1].context, "    move_and_slide()");

    // enemy.gd: one match on line 1.
    assert_eq!(results[1].matches.len(), 1);
    assert_eq!(results[1].matches[0].line, 1);

    // Activating player.gd's second result opens that file at line 3.
    let loc = open_location(&results, 0, 1).unwrap();
    assert_eq!(
        loc,
        OpenLocation {
            path: "player.gd".to_string(),
            line: 3,
            column: 5,
        }
    );

    // Case-insensitive search matches differently-cased text.
    let ci = find_in_files(
        &[("a.gd", "Move\nmove\n")],
        "move",
        SearchOptions {
            case_sensitive: false,
        },
    );
    assert_eq!(ci.len(), 1);
    assert_eq!(ci[0].matches.len(), 2);
    assert_eq!(ci[0].matches[0].line, 1); // "Move"
    assert_eq!(ci[0].matches[1].line, 2); // "move"

    // Case-sensitive: "Move" is not matched by "move".
    let cs = find_in_files(
        &[("a.gd", "Move\nmove\n")],
        "move",
        SearchOptions {
            case_sensitive: true,
        },
    );
    assert_eq!(cs[0].matches.len(), 1);
    assert_eq!(cs[0].matches[0].line, 2);

    // Empty query yields no results.
    assert!(find_in_files(
        &files,
        "",
        SearchOptions {
            case_sensitive: true
        }
    )
    .is_empty());

    // Out-of-range activation returns None.
    assert!(open_location(&results, 9, 0).is_none());
    assert!(open_location(&results, 0, 9).is_none());
}

/// Multiple matches on a single line are each reported with their column.
#[test]
fn multiple_matches_per_line() {
    let r = find_in_files(
        &[("a.gd", "x x x\n")],
        "x",
        SearchOptions {
            case_sensitive: true,
        },
    );
    assert_eq!(r.len(), 1);
    let cols: Vec<usize> = r[0].matches.iter().map(|m| m.column).collect();
    assert_eq!(cols, vec![1, 3, 5]);
    assert!(r[0].matches.iter().all(|m| m.line == 1));
}
