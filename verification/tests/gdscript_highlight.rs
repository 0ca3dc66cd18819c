use gdeditor::gdscript_highlight::{highlight, GdScriptHighlighter, TokenKind};

fn has(hl: &GdScriptHighlighter, text: &str, kind: TokenKind) -> bool {
    hl.spans()
        .iter()
        .any(|s| s.kind == kind && hl.span_text(*s) == text)
}

/// Acceptance (pat-wsg4l): opening a GDScript file highlights keywords,
/// string/number literals, comments, and known types, and the spans update
/// as the text changes.
#[test]
fn script_core_syntax_highlight() {
    let mut hl = GdScriptHighlighter::new();
    hl.set_source("func _ready():\n    var hp: int = 42 # set up\n    var s = \"hi\"\n");

    // Keywords.
    assert!(has(&hl, "func", TokenKind::Keyword));
    assert!(has(&hl, "var", TokenKind::Keyword));
    // Built-in type.
    assert!(has(&hl, "int", TokenKind::Type));
    // Number literal.
    assert!(has(&hl, "42", TokenKind::Number));
    // Comment (through end of line).
    assert!(has(&hl, "# set up", TokenKind::Comment));
    // String literal (with quotes).
    assert!(has(&hl, "\"hi\"", TokenKind::StringLiteral));
    // The identifier `hp` is not a keyword/type, so it gets no span.
    assert!(!hl.spans().iter().any(|s| hl.span_text(*s) == "hp"));

    // Editing the text recomputes the spans.
    hl.set_source("# only a comment\n");
    assert_eq!(hl.spans().len(), 1);
    assert_eq!(hl.spans()[0].kind, TokenKind::Comment);
    assert_eq!(hl.span_text(hl.spans()[0]), "# only a comment");

    // Another edit: a typed Vector2 with a float literal and string.
    hl.set_source("var pos: Vector2 = Vector2(1.5, 2.0) # pos\n");
    assert!(has(&hl, "Vector2", TokenKind::Type));
    assert!(has(&hl, "1.5", TokenKind::Number));
    assert!(has(&hl, "2.0", TokenKind::Number));
    assert!(has(&hl, "# pos", TokenKind::Comment));
}

/// Spans are emitted in source order and don't overlap.
#[test]
fn spans_are_ordered_and_disjoint() {
    let spans = highlight("var x = 1 # c\n");
    for pair in spans.windows(2) {
        assert!(pair[0].end <= pair[1].start, "spans are ordered and disjoint");
    }
    // A `#` inside a string is part of the string, not a comment.
    let s = highlight("var s = \"# not a comment\"");
    assert!(s.iter().any(|sp| sp.kind == TokenKind::StringLiteral));
    assert!(!s.iter().any(|sp| sp.kind == TokenKind::Comment));
}
