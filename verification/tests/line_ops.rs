use gdeditor::line_ops::{delete_lines, duplicate_lines, move_lines_down, move_lines_up};

fn vec_lines(items: &[&str]) -> Vec<String> {
    items.iter().map(|s| s.to_string()).collect()
}

fn text(lines: &[String]) -> String {
    lines.join("\n")
}

/// Acceptance (pat-2ulga): duplicate copies the line/selection, move
/// up/down reorders it, delete removes it, each updating the caret line
/// consistently.
#[test]
fn script_core_line_operations() {
    let lines = vec_lines(&["a", "b", "c"]);

    // Duplicate the caret line ("b"): copy inserted below; caret on the copy.
    let r = duplicate_lines(&lines, 1, 1);
    assert_eq!(text(&r.lines), "a\nb\nb\nc");
    assert_eq!(r.caret_line, 2);

    // Duplicate a multi-line selection (lines 0..=1).
    let r = duplicate_lines(&lines, 0, 1);
    assert_eq!(text(&r.lines), "a\nb\na\nb\nc");
    assert_eq!(r.caret_line, 2);

    // Move line up: "c" moves above "b".
    let r = move_lines_up(&lines, 2, 2);
    assert_eq!(text(&r.lines), "a\nc\nb");
    assert_eq!(r.caret_line, 1);

    // Move up at the top is a no-op.
    let r = move_lines_up(&lines, 0, 0);
    assert_eq!(text(&r.lines), "a\nb\nc");
    assert_eq!(r.caret_line, 0);

    // Move line down: "a" moves below "b".
    let r = move_lines_down(&lines, 0, 0);
    assert_eq!(text(&r.lines), "b\na\nc");
    assert_eq!(r.caret_line, 1);

    // Move a selection down: lines 0..=1 ("a","b") move below "c".
    let r = move_lines_down(&lines, 0, 1);
    assert_eq!(text(&r.lines), "c\na\nb");
    assert_eq!(r.caret_line, 1);

    // Move down at the bottom is a no-op.
    let r = move_lines_down(&lines, 2, 2);
    assert_eq!(text(&r.lines), "a\nb\nc");
    assert_eq!(r.caret_line, 2);

    // Delete the caret line ("b"): caret stays at index 1 (now "c").
    let r = delete_lines(&lines, 1, 1);
    assert_eq!(text(&r.lines), "a\nc");
    assert_eq!(r.caret_line, 1);

    // Delete the last line: caret clamps to the new last line.
    let r = delete_lines(&lines, 2, 2);
    assert_eq!(text(&r.lines), "a\nb");
    assert_eq!(r.caret_line, 1);

    // Deleting every line leaves a single empty line with caret at 0.
    let r = delete_lines(&lines, 0, 2);
    assert_eq!(text(&r.lines), "");
    assert_eq!(r.caret_line, 0);
}

/// Out-of-range indices are clamped rather than panicking.
#[test]
fn line_ops_clamp_out_of_range() {
    let lines = vec_lines(&["x", "y"]);

    // end past the last line clamps to the last line.
    let r = duplicate_lines(&lines, 1, 99);
    assert_eq!(text(&r.lines), "x\ny\ny");
    assert_eq!(r.caret_line, 2);

    // start past the end clamps to the last line for delete.
    let r = delete_lines(&lines, 5, 5);
    assert_eq!(text(&r.lines), "x");
    assert_eq!(r.caret_line, 0);

    // An empty buffer yields a single empty line.
    let empty: Vec<String> = Vec::new();
    let r = move_lines_down(&empty, 0, 0);
    assert_eq!(r.lines, vec![String::new()]);
    assert_eq!(r.caret_line, 0);
}
