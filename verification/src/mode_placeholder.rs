//! Placeholder panes for main-screen modes whose view is not implemented
//! yet: the main pane mounts the real component where there is one, and a
//! labelled placeholder otherwise.

use vstd::prelude::*;
use crate::main_screen::{MainPane, MainView, ViewComponent, is_component_of, mode_view};
use crate::text::{owned, push_str};

verus! {

broadcast use vstd::string::group_string_axioms;

/// A placeholder shown for a mode whose view is not implemented.
#[derive(Debug, Clone, PartialEq, Eq)]
pub struct PlaceholderPane {
    /// The view this placeholder stands in for.
    pub view: MainView,
    /// Message saying the view is not available yet.
    pub message: String,
}

/// What the main pane renders for a mode.
#[derive(Debug, Clone, PartialEq, Eq)]
pub enum PaneContent {
    /// The real view component.
    View(ViewComponent),
    /// A placeholder, the view not being implemented.
    Placeholder(PlaceholderPane),
}

impl PaneContent {
    /// Whether this content is a placeholder.
    pub fn is_placeholder(&self) -> (r: bool)
        ensures
            r == (*self is Placeholder),
    {
        match self {
            PaneContent::Placeholder(_) => true,
            PaneContent::View(_) => false,
        }
    }
}

/// The human-readable name of a view.
pub open spec fn view_display_name(v: MainView) -> Seq<char> {
    match v {
        MainView::Canvas2D => "2D viewport"@,
        MainView::Spatial3D => "3D viewport"@,
        MainView::ScriptEditor => "Script editor"@,
        MainView::GamePreview => "Game view"@,
        MainView::AssetLibBrowser => "AssetLib browser"@,
    }
}

/// Whether a view has a real component: the 2D and 3D viewports and the
/// script editor do; the game view and the AssetLib browser do not yet.
pub open spec fn view_implemented(v: MainView) -> bool {
    match v {
        MainView::Canvas2D | MainView::Spatial3D | MainView::ScriptEditor => true,
        MainView::GamePreview | MainView::AssetLibBrowser => false,
    }
}

/// The message of the placeholder for a view.
pub open spec fn placeholder_message(v: MainView) -> Seq<char> {
    view_display_name(v) + " is not available yet"@
}

/// What the main pane renders for view `v`.
pub open spec fn content_matches(c: PaneContent, v: MainView) -> bool {
    match c {
        PaneContent::View(comp) => view_implemented(v) && is_component_of(comp, v),
        PaneContent::Placeholder(p) => !view_implemented(v) && p.view == v && p.message@ == placeholder_message(v),
    }
}

impl MainView {
    /// A short human-readable name for the view.
    pub fn display_name(self) -> (r: &'static str)
        ensures
            r@ == view_display_name(self),
    {
        match self {
            MainView::Canvas2D => "2D viewport",
            MainView::Spatial3D => "3D viewport",
            MainView::ScriptEditor => "Script editor",
            MainView::GamePreview => "Game view",
            MainView::AssetLibBrowser => "AssetLib browser",
        }
    }

    /// Whether the view has a real, implemented component.
    pub fn is_implemented(self) -> (r: bool)
        ensures
            r == view_implemented(self),
    {
        match self {
            MainView::Canvas2D | MainView::Spatial3D | MainView::ScriptEditor => true,
            MainView::GamePreview | MainView::AssetLibBrowser => false,
        }
    }

    /// The content rendered for the view: its component when implemented,
    /// otherwise a placeholder saying it is not available yet.
    pub fn pane_content(self) -> (r: PaneContent)
        ensures
            content_matches(r, self),
    {
        if self.is_implemented() {
            PaneContent::View(self.component())
        } else {
            let mut message = owned(self.display_name());
            push_str(&mut message, " is not available yet");
            PaneContent::Placeholder(PlaceholderPane { view: self, message })
        }
    }
}

impl MainPane {
    /// The content the pane renders for its active mode.
    pub fn pane_content(&self) -> (r: PaneContent)
        ensures
            content_matches(r, mode_view(self.mode())),
    {
        self.switcher().main_view().pane_content()
    }
}

/// A placeholder's message names the view it stands in for and is never
/// empty.
pub proof fn law_placeholder_names_view(v: MainView)
    ensures
        placeholder_message(v).len() > 0,
        placeholder_message(v).take(view_display_name(v).len() as int) == view_display_name(v),
{
    reveal_strlit(" is not available yet");
    assert(placeholder_message(v).take(view_display_name(v).len() as int) =~= view_display_name(v));
}

} // verus!
