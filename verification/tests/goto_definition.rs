use gdeditor::goto_definition::{find_definition, goto_definition, symbol_at};

    /// Acceptance (pat-yzqv7): invoking goto-definition on the symbol under the
    /// caret navigates to the definition line, and is a no-op for unresolved
    /// symbols (or when the caret is not on an identifier).
    #[test]
    fn script_nav_goto_definition() {
        let src = "\
var health = 100
func take_damage(amount):
    health -= amount
    die()
func die():
    queue_free()
";

        // Caret on the `die()` call (line 4) jumps to `func die` (line 5).
        assert_eq!(goto_definition(src, "    die()", 5), Some(5));
        // Caret on `health` usage jumps to its `var` definition (line 1).
        assert_eq!(goto_definition(src, "    health -= amount", 5), Some(1));

        // Unresolved symbol under the caret is a no-op.
        assert_eq!(goto_definition(src, "    amount += 1", 5), None);
        // Caret not on an identifier is a no-op.
        assert_eq!(goto_definition(src, "    die()", 0), None);

        // Direct symbol lookups.
        assert_eq!(find_definition(src, "take_damage"), Some(2));
        assert_eq!(find_definition(src, "health"), Some(1));
        assert_eq!(find_definition(src, "die"), Some(5));
        assert_eq!(find_definition(src, "nope"), None);

        // symbol_at extracts the identifier under the caret.
        assert_eq!(symbol_at("    die()", 4).as_deref(), Some("die")); // 'd'
        assert_eq!(symbol_at("    die()", 6).as_deref(), Some("die")); // 'e'
        assert_eq!(symbol_at("    die()", 7), None); // '('
        assert_eq!(symbol_at("    die()", 0), None); // ' '
    }

    /// `static func`, `const`, `signal`, `class`, and `enum` definitions resolve.
    #[test]
    fn goto_definition_keyword_kinds() {
        let src = "\
const MAX = 10
signal died
class Inner:
    pass
enum Mode { A, B }
static func helper():
    pass
";
        assert_eq!(find_definition(src, "MAX"), Some(1));
        assert_eq!(find_definition(src, "died"), Some(2));
        assert_eq!(find_definition(src, "Inner"), Some(3));
        assert_eq!(find_definition(src, "Mode"), Some(5));
        assert_eq!(find_definition(src, "helper"), Some(6));
    }
