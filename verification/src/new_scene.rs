//! The new-scene control: it creates a fresh untitled scene, appends its tab
//! to the scene workspace and focuses it. Each untitled scene gets its own
//! placeholder title.

use vstd::prelude::*;
use crate::text::{decimal, lemma_decimal_injective, lemma_decimal_nonempty, owned, push_decimal, push_str};

verus! {

broadcast use vstd::string::group_string_axioms;

/// A scene tab in the workspace.
#[derive(Debug, Clone, PartialEq, Eq)]
pub struct SceneEntry {
    /// The tab's title.
    pub title: String,
    /// Whether the scene is an unsaved, untitled placeholder.
    pub untitled: bool,
}

/// The placeholder title of the `n`-th untitled scene: `untitled` for the
/// first, `untitled (n)` after it.
pub open spec fn untitled_title(n: nat) -> Seq<char> {
    if n == 1 {
        "untitled"@
    } else {
        "untitled ("@ + decimal(n) + ")"@
    }
}

/// The open scene tabs, the active one, and how many untitled scenes were
/// created.
#[derive(Debug, Clone)]
pub struct SceneWorkspace {
    tabs: Vec<SceneEntry>,
    active: Option<usize>,
    untitled_count: u32,
}

impl SceneWorkspace {
    /// The tabs as (title, untitled) pairs.
    pub closed spec fn tab_views(&self) -> Seq<(Seq<char>, bool)> {
        self.tabs@.map_values(|e: SceneEntry| (e.title@, e.untitled))
    }

    /// The index of the active tab.
    pub closed spec fn active_tab(&self) -> Option<usize> {
        self.active
    }

    /// How many untitled scenes have been created.
    pub closed spec fn created(&self) -> nat {
        self.untitled_count as nat
    }

    /// The active index, if any, names an open tab.
    pub open spec fn wf(&self) -> bool {
        self.active_tab() matches Some(i) ==> i < self.tab_views().len()
    }

    /// An empty workspace: no tabs, nothing active.
    pub fn new() -> (r: Self)
        ensures
            r.wf(),
            r.tab_views() == Seq::<(Seq<char>, bool)>::empty(),
            r.active_tab() is None,
            r.created() == 0,
    {
        let r = SceneWorkspace { tabs: Vec::new(), active: None, untitled_count: 0 };
        assert(r.tab_views() =~= Seq::<(Seq<char>, bool)>::empty());
        r
    }

    /// The number of open tabs.
    pub fn tab_count(&self) -> (r: usize)
        ensures
            r == self.tab_views().len(),
    {
        self.tabs.len()
    }

    /// The index of the active tab, if any.
    pub fn active_index(&self) -> (r: Option<usize>)
        ensures
            r == self.active_tab(),
    {
        self.active
    }

    /// The active tab's title, if any.
    pub fn active_title(&self) -> (r: Option<&str>)
        requires
            self.wf(),
        ensures
            match self.active_tab() {
                Some(i) => r matches Some(t) && t@ == self.tab_views()[i as int].0,
                None => r is None,
            },
    {
        match self.active {
            Some(i) => Some(self.tabs[i].title.as_str()),
            None => None,
        }
    }

    /// The tab at `index`, if any.
    pub fn tab(&self, index: usize) -> (r: Option<&SceneEntry>)
        ensures
            index < self.tab_views().len() ==> (r matches Some(e) && (e.title@, e.untitled) == self.tab_views()[index as int]),
            index >= self.tab_views().len() ==> r is None,
    {
        if index < self.tabs.len() {
            Some(&self.tabs[index])
        } else {
            None
        }
    }

    /// Creates a fresh untitled scene, appends its tab, focuses it and
    /// returns its index.
    pub fn new_scene(&mut self) -> (index: usize)
        requires
            old(self).created() < u32::MAX,
            old(self).tab_views().len() < usize::MAX,
        ensures
            final(self).wf(),
            final(self).created() == old(self).created() + 1,
            final(self).tab_views() == old(self).tab_views().push((untitled_title(final(self).created()), true)),
            index == old(self).tab_views().len(),
            final(self).active_tab() == Some(index),
    {
        self.untitled_count = self.untitled_count + 1;
        let title = if self.untitled_count == 1 {
            owned("untitled")
        } else {
            let mut t = owned("untitled (");
            push_decimal(&mut t, self.untitled_count as u64);
            push_str(&mut t, ")");
            t
        };
        let ghost old_views = self.tab_views();
        self.tabs.push(SceneEntry { title, untitled: true });
        assert(self.tab_views() =~= old_views.push((untitled_title(self.untitled_count as nat), true)));
        let index = self.tabs.len() - 1;
        self.active = Some(index);
        index
    }
}

/// Distinct untitled scenes get distinct placeholder titles.
pub proof fn law_untitled_titles_distinct(n: nat, m: nat)
    requires
        n >= 1,
        m >= 1,
        n != m,
    ensures
        untitled_title(n) != untitled_title(m),
{
    reveal_strlit("untitled");
    reveal_strlit("untitled (");
    reveal_strlit(")");
    lemma_decimal_nonempty(n);
    lemma_decimal_nonempty(m);
    if n != 1 && m != 1 {
        let tn = untitled_title(n);
        let tm = untitled_title(m);
        assert("untitled ("@.len() == 10);
        assert(")"@.len() == 1);
        assert(tn.len() == 11 + decimal(n).len());
        assert(tm.len() == 11 + decimal(m).len());
        if tn == tm {
            assert(decimal(n).len() == decimal(m).len());
            assert(tn.subrange(10, 10 + decimal(n).len() as int) =~= decimal(n));
            assert(tm.subrange(10, 10 + decimal(m).len() as int) =~= decimal(m));
            lemma_decimal_injective(n, m);
        }
    } else {
        assert(untitled_title(n).len() != untitled_title(m).len());
    }
}

} // verus!
