use gdeditor::help_menu_commands::{HelpCommand, HelpMenu, HelpMenuAction};

/// Acceptance (pat-pgt0x): Search Help opens the help search, an
/// external-link item resolves its target URL, and About opens the about
/// dialog.
#[test]
fn menus_help_actions_route_targets() {
    let mut menu = HelpMenu::new();

    // The menu exposes all four help items, in order.
    assert_eq!(
        HelpMenu::items(),
        [
            HelpMenuAction::SearchHelp,
            HelpMenuAction::OnlineDocs,
            HelpMenuAction::ReportABug,
            HelpMenuAction::About,
        ]
    );

    // Both dialogs start closed and no link has been opened.
    assert!(!menu.is_help_search_visible());
    assert!(!menu.is_about_visible());
    assert_eq!(menu.last_url(), None);

    // Search Help raises the in-editor help search dialog.
    assert_eq!(
        menu.dispatch(HelpMenuAction::SearchHelp),
        HelpCommand::OpenedHelpSearch
    );
    assert!(
        menu.is_help_search_visible(),
        "Search Help raised the help search dialog"
    );

    // Online Docs resolves and opens its external documentation URL.
    let docs = HelpMenuAction::OnlineDocs.url().unwrap();
    assert_eq!(
        menu.dispatch(HelpMenuAction::OnlineDocs),
        HelpCommand::OpenedUrl(docs.to_string()),
        "Online Docs resolves its target URL"
    );
    assert_eq!(menu.last_url(), Some(docs));

    // Report a Bug opens the issue tracker (a different external link).
    let bug = HelpMenuAction::ReportABug.url().unwrap();
    assert_ne!(docs, bug, "the two external links differ");
    assert_eq!(
        menu.dispatch(HelpMenuAction::ReportABug),
        HelpCommand::OpenedUrl(bug.to_string())
    );
    assert_eq!(menu.last_url(), Some(bug));

    // The in-editor dialog items carry no URL; the link items do.
    assert_eq!(HelpMenuAction::SearchHelp.url(), None);
    assert_eq!(HelpMenuAction::About.url(), None);

    // About raises the About dialog.
    assert_eq!(
        menu.dispatch(HelpMenuAction::About),
        HelpCommand::OpenedAbout
    );
    assert!(menu.is_about_visible(), "About raised the about dialog");
}
