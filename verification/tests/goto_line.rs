use gdeditor::goto_line::GotoLine;

/// Acceptance (pat-9mpy2): go-to-line moves the caret to the requested line,
/// clamps out-of-range input, and centers the line in view.
#[test]
fn script_nav_goto_line() {
    // 100-line document, 20-line viewport.
    let mut g = GotoLine::new(100, 20);

    // Jump to the middle: caret lands exactly, and the line is centered.
    assert_eq!(g.goto(50), 50);
    assert_eq!(g.caret_line(), 50);
    // Centered: 10 lines above the caret are visible (top = 50 - 20/2).
    assert_eq!(g.top_line(), 40);
    assert!(g.is_visible(50));
    // Roughly centered within the viewport.
    assert_eq!(g.caret_line() - g.top_line(), 10);

    // Jumping near the top clamps the scroll to line 1 (can't center past it).
    assert_eq!(g.goto(3), 3);
    assert_eq!(g.top_line(), 1);
    assert!(g.is_visible(3));

    // Jumping near the bottom clamps the scroll so the last line stays in view.
    assert_eq!(g.goto(98), 98);
    assert_eq!(g.top_line(), 81); // max_top = 100 - 20 + 1
    assert_eq!(g.bottom_line(), 100);
    assert!(g.is_visible(98));

    // Out-of-range high clamps to the last line.
    assert_eq!(g.goto(1000), 100);
    assert_eq!(g.caret_line(), 100);
    assert!(g.is_visible(100));

    // Out-of-range low (zero / negative) clamps to line 1.
    assert_eq!(g.goto(0), 1);
    assert_eq!(g.caret_line(), 1);
    assert_eq!(g.goto(-25), 1);
    assert_eq!(g.caret_line(), 1);
}

/// A document shorter than the viewport never scrolls.
#[test]
fn short_document_never_scrolls() {
    let mut g = GotoLine::new(5, 20);
    assert_eq!(g.goto(4), 4);
    assert_eq!(g.top_line(), 1);
    assert_eq!(g.bottom_line(), 5);
    assert!(g.is_visible(4));
    // Out-of-range still clamps to the 5 available lines.
    assert_eq!(g.goto(99), 5);
    assert_eq!(g.top_line(), 1);
}
