//! Help-menu command dispatch: Search Help and About raise their in-editor
//! dialogs, Online Docs and Report a Bug open external links.

use vstd::prelude::*;
use crate::text::owned;

verus! {

broadcast use vstd::string::group_string_axioms;

/// An item in the Help menu.
#[derive(Debug, Clone, Copy, PartialEq, Eq, Structural)]
pub enum HelpMenuAction {
    /// Open the in-editor help search dialog.
    SearchHelp,
    /// Open the online documentation in a browser.
    OnlineDocs,
    /// Open the issue tracker to report a bug.
    ReportABug,
    /// Open the About dialog.
    About,
}

/// The external link of an item, if it opens one.
pub open spec fn action_url(a: HelpMenuAction) -> Option<Seq<char>> {
    match a {
        HelpMenuAction::OnlineDocs => Some("https://docs.patinaengine.com"@),
        HelpMenuAction::ReportABug => Some("https://github.com/patinaengine/patina/issues/new"@),
        HelpMenuAction::SearchHelp | HelpMenuAction::About => None,
    }
}

impl HelpMenuAction {
    /// The external URL this item opens, or `None` for items that open an
    /// in-editor dialog instead (Search Help, About).
    pub fn url(&self) -> (r: Option<&'static str>)
        ensures
            match (r, action_url(*self)) {
                (Some(s), Some(u)) => s@ == u,
                (None, None) => true,
                _ => false,
            },
    {
        match self {
            HelpMenuAction::OnlineDocs => Some("https://docs.patinaengine.com"),
            HelpMenuAction::ReportABug => Some("https://github.com/patinaengine/patina/issues/new"),
            HelpMenuAction::SearchHelp | HelpMenuAction::About => None,
        }
    }
}

/// The outcome of dispatching a Help-menu action.
#[derive(Debug, Clone, PartialEq, Eq)]
pub enum HelpCommand {
    /// The help search dialog was raised.
    OpenedHelpSearch,
    /// An external link was opened to the given URL.
    OpenedUrl(String),
    /// The About dialog was raised.
    OpenedAbout,
}

/// The Help menu and the dialogs/links it drives: the help-search and about
/// dialog visibility, and the last external URL opened.
#[derive(Debug)]
pub struct HelpMenu {
    help_search_visible: bool,
    about_visible: bool,
    last_url: Option<String>,
}

impl Default for HelpMenu {
    fn default() -> (r: Self)
        ensures
            !r.help_search_shown(),
            !r.about_shown(),
            r.last_link() is None,
    {
        HelpMenu::new()
    }
}

impl HelpMenu {
    /// Whether the help search dialog is shown.
    pub closed spec fn help_search_shown(&self) -> bool {
        self.help_search_visible
    }

    /// Whether the About dialog is shown.
    pub closed spec fn about_shown(&self) -> bool {
        self.about_visible
    }

    /// The last external URL opened, if any.
    pub closed spec fn last_link(&self) -> Option<Seq<char>> {
        match self.last_url {
            Some(u) => Some(u@),
            None => None,
        }
    }

    /// Creates a Help menu with both dialogs closed and no link opened.
    pub fn new() -> (r: Self)
        ensures
            !r.help_search_shown(),
            !r.about_shown(),
            r.last_link() is None,
    {
        HelpMenu { help_search_visible: false, about_visible: false, last_url: None }
    }

    /// The Help-menu items, in display order.
    pub fn items() -> (r: [HelpMenuAction; 4])
        ensures
            r@ == seq![HelpMenuAction::SearchHelp, HelpMenuAction::OnlineDocs, HelpMenuAction::ReportABug, HelpMenuAction::About],
    {
        let r = [
            HelpMenuAction::SearchHelp,
            HelpMenuAction::OnlineDocs,
            HelpMenuAction::ReportABug,
            HelpMenuAction::About,
        ];
        assert(r@ =~= seq![HelpMenuAction::SearchHelp, HelpMenuAction::OnlineDocs, HelpMenuAction::ReportABug, HelpMenuAction::About]);
        r
    }

    /// Whether the help search dialog is currently shown.
    pub fn is_help_search_visible(&self) -> (r: bool)
        ensures
            r == self.help_search_shown(),
    {
        self.help_search_visible
    }

    /// Whether the About dialog is currently shown.
    pub fn is_about_visible(&self) -> (r: bool)
        ensures
            r == self.about_shown(),
    {
        self.about_visible
    }

    /// The last external URL opened via the Help menu, if any.
    pub fn last_url(&self) -> (r: Option<&str>)
        ensures
            match (r, self.last_link()) {
                (Some(s), Some(u)) => s@ == u,
                (None, None) => true,
                _ => false,
            },
    {
        match &self.last_url {
            Some(u) => Some(u.as_str()),
            None => None,
        }
    }

    /// Dispatches a Help-menu action to its target: raising the help search
    /// or about dialog, or opening the item's external link, and returns the
    /// resulting command.
    pub fn dispatch(&mut self, action: HelpMenuAction) -> (cmd: HelpCommand)
        ensures
            match action {
                HelpMenuAction::SearchHelp => cmd == HelpCommand::OpenedHelpSearch
                    && final(self).help_search_shown()
                    && final(self).about_shown() == old(self).about_shown()
                    && final(self).last_link() == old(self).last_link(),
                HelpMenuAction::About => cmd == HelpCommand::OpenedAbout
                    && final(self).about_shown()
                    && final(self).help_search_shown() == old(self).help_search_shown()
                    && final(self).last_link() == old(self).last_link(),
                HelpMenuAction::OnlineDocs | HelpMenuAction::ReportABug => (cmd matches HelpCommand::OpenedUrl(u)
                    && Some(u@) == action_url(action))
                    && final(self).last_link() == action_url(action)
                    && final(self).help_search_shown() == old(self).help_search_shown()
                    && final(self).about_shown() == old(self).about_shown(),
            },
    {
        match action {
            HelpMenuAction::SearchHelp => {
                self.help_search_visible = true;
                HelpCommand::OpenedHelpSearch
            },
            HelpMenuAction::About => {
                self.about_visible = true;
                HelpCommand::OpenedAbout
            },
            HelpMenuAction::OnlineDocs | HelpMenuAction::ReportABug => {
                let link = match action.url() {
                    Some(u) => u,
                    None => "",
                };
                let url = owned(link);
                self.last_url = Some(url.clone());
                HelpCommand::OpenedUrl(url)
            },
        }
    }
}

/// The link items are exactly the items with a URL, and the two links
/// differ.
pub proof fn law_link_items_have_urls(a: HelpMenuAction)
    ensures
        action_url(a) is Some <==> (a == HelpMenuAction::OnlineDocs || a == HelpMenuAction::ReportABug),
        action_url(HelpMenuAction::OnlineDocs) != action_url(HelpMenuAction::ReportABug),
{
    reveal_strlit("https://docs.patinaengine.com");
    reveal_strlit("https://github.com/patinaengine/patina/issues/new");
    assert("https://docs.patinaengine.com"@.len() != "https://github.com/patinaengine/patina/issues/new"@.len());
}

} // verus!
