use gdeditor::auto_indent::IndentStyle;
use gdeditor::indent_block::BlockIndenter;

/// Acceptance (pat-6ochk): indent adds one indent level to each selected
/// line and unindent removes one (no-op at column zero), using the
/// configured indent width.
#[test]
fn script_core_indent_unindent() {
    // 4-space indent style.
    let spaces = BlockIndenter::new(IndentStyle::Spaces(4));

    let original = vec![
        "func _ready():".to_string(),
        "    var hp = 10".to_string(),
        "".to_string(),
        "    return hp".to_string(),
    ];

    // Indent adds 4 spaces to each non-empty line; the blank line is left be.
    let indented = spaces.indent(&original);
    assert_eq!(
        indented,
        vec!["    func _ready():", "        var hp = 10", "", "        return hp"]
    );

    // Unindent removes exactly one level, restoring the original (round-trip).
    let unindented = spaces.unindent(&indented);
    assert_eq!(unindented, original);

    // Unindent at column zero is a no-op; it never removes non-whitespace.
    assert_eq!(
        spaces.unindent(&["func _ready():".to_string()]),
        vec!["func _ready():"]
    );

    // A line indented by fewer than a full level loses only what's there.
    assert_eq!(spaces.unindent(&["  x = 1".to_string()]), vec!["x = 1"]);
    // Deeper-than-one-level indentation only drops a single level.
    assert_eq!(
        spaces.unindent(&["        deep".to_string()]),
        vec!["    deep"]
    );

    // Tab indent style: one tab per level.
    let tabs = BlockIndenter::new(IndentStyle::Tabs);
    let block = vec!["a = 1".to_string(), "\tb = 2".to_string()];
    let tindent = tabs.indent(&block);
    assert_eq!(tindent, vec!["\ta = 1", "\t\tb = 2"]);
    assert_eq!(tabs.unindent(&tindent), block);
    // No-op at column zero for tabs as well.
    assert_eq!(tabs.unindent(&["pass".to_string()]), vec!["pass"]);
}
