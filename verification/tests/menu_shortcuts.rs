use gdeditor::menu_shortcuts::{KeyShortcut, ShortcutMenu};

#[derive(Debug, Clone, Copy, PartialEq, Eq)]
enum Act {
    Save,
    Open,
    Undo,
}

/// Acceptance (pat-o5w2m): a menu action's shortcut both fires the action
/// when pressed and is shown as accelerator text on the item.
#[test]
fn menus_action_shortcuts_bind_and_display() {
    let mut menu = ShortcutMenu::new();
    menu.bind(Act::Save, "Save", KeyShortcut::ctrl('s'));
    menu.bind(Act::Open, "Open", KeyShortcut::ctrl('o'));
    menu.bind(Act::Undo, "Undo", KeyShortcut::new(true, true, false, 'z'));

    // Pressing a bound shortcut fires its action.
    assert_eq!(menu.fire(KeyShortcut::ctrl('s')), Some(Act::Save));
    assert_eq!(menu.fire(KeyShortcut::ctrl('o')), Some(Act::Open));
    assert_eq!(
        menu.fire(KeyShortcut::new(true, true, false, 'z')),
        Some(Act::Undo)
    );

    // An unbound key press fires nothing.
    assert_eq!(menu.fire(KeyShortcut::ctrl('q')), None);
    // Ctrl+S is distinct from Ctrl+Shift+S — modifiers must match exactly.
    assert_eq!(menu.fire(KeyShortcut::new(true, true, false, 's')), None);

    // The shortcut is shown as accelerator text on the item.
    assert_eq!(menu.accelerator_for(&Act::Save).as_deref(), Some("Ctrl+S"));
    assert_eq!(
        menu.accelerator_for(&Act::Undo).as_deref(),
        Some("Ctrl+Shift+Z")
    );

    // The item label carries the accelerator text alongside the name.
    assert_eq!(menu.item_label(&Act::Save).as_deref(), Some("Save\tCtrl+S"));
}

#[test]
fn shortcut_key_ignores_case() {
    let mut menu = ShortcutMenu::new();
    menu.bind(Act::Save, "Save", KeyShortcut::ctrl('s'));
    assert_eq!(menu.fire(KeyShortcut::ctrl('S')), Some(Act::Save));
    assert_eq!(menu.fire(KeyShortcut::ctrl('s')), Some(Act::Save));
    assert_eq!(menu.fire(KeyShortcut::new(true, true, false, 'S')), None);
    assert_eq!(menu.fire(KeyShortcut::ctrl('q')), None);
}
