use gdeditor::multi_caret::MultiCaret;

/// Acceptance (pat-dqbca): adding carets and typing inserts the same text at
/// every caret, and Escape collapses back to a single caret.
#[test]
fn script_core_multi_caret() {
    let mut mc = MultiCaret::new("foo foo foo");

    // Place the primary caret just after the first "foo".
    mc.set_caret(3);
    assert_eq!(mc.caret_count(), 1);

    // Select-next-occurrence grows the caret set to the end of each "foo".
    assert!(mc.select_next_occurrence("foo")); // 2nd foo -> offset 7
    assert!(mc.select_next_occurrence("foo")); // 3rd foo -> offset 11
    assert_eq!(mc.carets(), &[3, 7, 11]);
    // No further occurrences after the last caret.
    assert!(!mc.select_next_occurrence("foo"));

    // Typing inserts the same text at every caret at once.
    mc.insert("X");
    assert_eq!(mc.text(), "fooX fooX fooX");
    // Each caret advanced past the inserted "X".
    assert_eq!(mc.carets(), &[4, 9, 14]);

    // Typing again keeps inserting at all carets.
    mc.insert("!");
    assert_eq!(mc.text(), "fooX! fooX! fooX!");

    // Escape collapses to a single (primary) caret.
    mc.collapse();
    assert_eq!(mc.caret_count(), 1);
    assert_eq!(mc.primary_caret(), 5);

    // A single caret behaves like an ordinary insertion point.
    mc.insert("Z");
    assert_eq!(mc.text(), "fooX!Z fooX! fooX!");
}

/// Manually-added carets insert simultaneously, and duplicate carets collapse.
#[test]
fn add_caret_and_dedup() {
    let mut mc = MultiCaret::new("a b c");
    mc.set_caret(0);
    assert!(mc.add_caret(2));
    assert!(mc.add_caret(4));
    // Re-adding an existing caret is a no-op.
    assert!(!mc.add_caret(2));
    assert_eq!(mc.carets(), &[0, 2, 4]);

    mc.insert("-");
    assert_eq!(mc.text(), "-a -b -c");
    assert_eq!(mc.carets(), &[1, 4, 7]);
}
