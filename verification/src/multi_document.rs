//! The editor's open documents (scenes and scripts) as tabs, and which one
//! is active. Opening a document whose path is already open focuses that
//! tab; switching changes the active tab; closing removes a tab and keeps a
//! neighbour focused; closing a document with unsaved changes first asks to
//! save, discard or keep it. Each document carries its own selection and
//! viewport framing, restored when it is focused again; the framing's type
//! is a parameter (`V`) that the model stores and hands back unchanged.

use vstd::prelude::*;
use vstd::set_lib::{lemma_int_range, lemma_len_subset, lemma_map_size, set_int_range};
use crate::text::{decimal, lemma_decimal_injective, owned, push_decimal, str_eq};

verus! {

broadcast use vstd::string::group_string_axioms;

/// What kind of document a tab holds.
#[derive(Debug, Clone, Copy, PartialEq, Eq, Structural)]
pub enum DocumentKind {
    /// A scene document (such as `.tscn`).
    Scene,
    /// A script document (such as `.gd`).
    Script,
}

/// The editing state that belongs to one document: its selected node ids
/// and its viewport framing.
#[derive(Debug, Clone, Default, PartialEq)]
pub struct DocumentState<V> {
    /// The selected node ids (empty when nothing is selected).
    pub selection: Vec<u64>,
    /// The document's viewport framing.
    pub viewport: V,
}

/// One open document (one tab).
#[derive(Debug, Clone, PartialEq)]
pub struct OpenDocument<V> {
    /// The tab's title.
    pub title: String,
    /// The path on disk, or `None` for an unsaved document.
    pub path: Option<String>,
    /// What kind of document this is.
    pub kind: DocumentKind,
    /// Whether the document has unsaved changes.
    pub dirty: bool,
    /// The document's own selection and viewport framing.
    pub state: DocumentState<V>,
}

impl<V: Default> OpenDocument<V> {
    /// A clean document with the given title, path and kind, nothing
    /// selected and the default viewport framing.
    pub fn new(title: &str, path: Option<String>, kind: DocumentKind) -> (r: Self)
        ensures
            r.title@ == title@,
            r.path == path,
            r.kind == kind,
            !r.dirty,
            r.state.selection@.len() == 0,
    {
        OpenDocument {
            title: owned(title),
            path,
            kind,
            dirty: false,
            state: DocumentState { selection: Vec::new(), viewport: V::default() },
        }
    }
}

/// The result of asking to close a document.
#[derive(Debug, Clone, Copy, PartialEq, Eq, Structural)]
pub enum CloseOutcome {
    /// The document was clean and is closed.
    Closed,
    /// The document has unsaved changes and stays open until the user
    /// answers the save prompt.
    NeedsSavePrompt,
}

/// The user's answer to the unsaved-changes prompt.
#[derive(Debug, Clone, Copy, PartialEq, Eq, Structural)]
pub enum SavePromptChoice {
    /// Save, then close.
    Save,
    /// Discard the changes and close.
    Discard,
    /// Keep the document open.
    Cancel,
}

/// The characters of an optional path.
pub open spec fn path_view(p: Option<String>) -> Option<Seq<char>> {
    match p {
        Some(s) => Some(s@),
        None => None,
    }
}

/// The titles of the documents, in tab order.
pub open spec fn titles_of<V>(docs: Seq<OpenDocument<V>>) -> Seq<Seq<char>> {
    docs.map_values(|d: OpenDocument<V>| d.title@)
}

/// The `n`-th numbered untitled title, `Untitled n`.
pub open spec fn untitled_n(n: nat) -> Seq<char> {
    "Untitled "@ + decimal(n)
}

/// Whether `n` is the smallest number from 2 on whose untitled title is
/// not taken.
pub open spec fn first_free_number(titles: Seq<Seq<char>>, n: nat) -> bool {
    &&& n >= 2
    &&& !titles.contains(untitled_n(n))
    &&& forall|j: nat| 2 <= j < n ==> titles.contains(#[trigger] untitled_n(j))
}

/// The title a new untitled document gets: `Untitled` when free, otherwise
/// the first free `Untitled n` from 2 on.
pub open spec fn fresh_untitled(titles: Seq<Seq<char>>) -> Seq<char> {
    if !titles.contains("Untitled"@) {
        "Untitled"@
    } else {
        untitled_n(choose|n: nat| first_free_number(titles, n))
    }
}

/// Among `Untitled 2` .. `Untitled (m - 1)` all taken by `titles`, there are
/// at most as many as there are titles.
proof fn lemma_taken_untitled_bound(titles: Seq<Seq<char>>, m: int)
    requires
        m >= 2,
        forall|j: nat| 2 <= j < m ==> titles.contains(#[trigger] untitled_n(j)),
    ensures
        m - 2 <= titles.len(),
{
    reveal_strlit("Untitled ");
    assert("Untitled "@.len() == 9);
    let x = set_int_range(2, m);
    let f = |j: int| untitled_n(j as nat);
    let y = x.map(f);
    lemma_int_range(2, m);
    assert forall|a: int, b: int| x.contains(a) && x.contains(b) && #[trigger] f(a) == #[trigger] f(b) implies a == b by {
        assert(untitled_n(a as nat).subrange(9, untitled_n(a as nat).len() as int) =~= decimal(a as nat));
        assert(untitled_n(b as nat).subrange(9, untitled_n(b as nat).len() as int) =~= decimal(b as nat));
        lemma_decimal_injective(a as nat, b as nat);
    }
    lemma_map_size(x, y, f);
    assert forall|t: Seq<char>| y.contains(t) implies titles.to_set().contains(t) by {
        let j = choose|j: int| x.contains(j) && f(j) == t;
        assert(titles.contains(untitled_n(j as nat)));
    }
    titles.lemma_cardinality_of_set();
    lemma_len_subset(y, titles.to_set());
}

/// The open documents and the active tab.
#[derive(Debug, Clone)]
pub struct MultiDocModel<V> {
    docs: Vec<OpenDocument<V>>,
    active: Option<usize>,
}

/// The active index after closing tab `index`, leaving `new_len` tabs.
pub open spec fn active_after_close(active: Option<usize>, index: usize, new_len: nat) -> Option<usize> {
    if new_len == 0 {
        None
    } else {
        match active {
            Some(a) => if a > index {
                Some((a - 1) as usize)
            } else if a == index {
                Some(if a <= new_len - 1 { a } else { (new_len - 1) as usize })
            } else {
                Some(a)
            },
            None => None,
        }
    }
}

impl<V> MultiDocModel<V> {
    /// The open documents, in tab order.
    pub closed spec fn documents(&self) -> Seq<OpenDocument<V>> {
        self.docs@
    }

    /// The active tab.
    pub closed spec fn active_tab(&self) -> Option<usize> {
        self.active
    }

    /// A tab is active exactly when a document is open, and it names an
    /// open document.
    pub open spec fn wf(&self) -> bool {
        &&& (self.documents().len() == 0 <==> self.active_tab() is None)
        &&& (self.active_tab() matches Some(i) ==> i < self.documents().len())
    }

    /// The position of the first document whose path is `path`.
    pub open spec fn first_with_path(&self, path: Seq<char>, k: int) -> bool {
        &&& 0 <= k < self.documents().len()
        &&& path_view(self.documents()[k].path) == Some(path)
        &&& forall|j: int| 0 <= j < k ==> path_view((#[trigger] self.documents()[j]).path) != Some(path)
    }

    /// No document open.
    pub fn new() -> (r: Self)
        ensures
            r.wf(),
            r.documents() == Seq::<OpenDocument<V>>::empty(),
    {
        let r = MultiDocModel { docs: Vec::new(), active: None };
        assert(r.documents() =~= Seq::<OpenDocument<V>>::empty());
        r
    }

    /// The number of open documents.
    pub fn len(&self) -> (r: usize)
        ensures
            r == self.documents().len(),
    {
        self.docs.len()
    }

    /// Whether no document is open.
    pub fn is_empty(&self) -> (r: bool)
        ensures
            r == (self.documents().len() == 0),
    {
        self.docs.len() == 0
    }

    /// The index of the active document, if any.
    pub fn active_index(&self) -> (r: Option<usize>)
        ensures
            r == self.active_tab(),
    {
        self.active
    }

    /// The active document, if any.
    pub fn active(&self) -> (r: Option<&OpenDocument<V>>)
        requires
            self.wf(),
        ensures
            match self.active_tab() {
                Some(i) => r == Some(&self.documents()[i as int]),
                None => r is None,
            },
    {
        match self.active {
            Some(i) => Some(&self.docs[i]),
            None => None,
        }
    }

    /// The active document's selection and viewport framing, if any.
    pub fn active_state(&self) -> (r: Option<&DocumentState<V>>)
        requires
            self.wf(),
        ensures
            match self.active_tab() {
                Some(i) => r == Some(&self.documents()[i as int].state),
                None => r is None,
            },
    {
        match self.active {
            Some(i) => Some(&self.docs[i].state),
            None => None,
        }
    }

    /// Mutable access to the active document's selection and viewport
    /// framing, if a tab is active: edits stay with that document.
    pub fn active_state_mut(&mut self) -> (r: Option<&mut DocumentState<V>>)
        requires
            old(self).wf(),
        ensures
            final(self).wf(),
            final(self).active_tab() == old(self).active_tab(),
            old(self).active_tab() is None ==> r is None && final(self).documents() == old(self).documents(),
            old(self).active_tab() matches Some(i) ==> (r matches Some(st) && *st == old(self).documents()[i as int].state
                && final(self).documents() == old(self).documents().update(
                i as int,
                OpenDocument { state: *final(st), ..old(self).documents()[i as int] },
            )),
    {
        match self.active {
            Some(i) => Some(&mut self.docs[i].state),
            None => None,
        }
    }

    /// The document at `index`, if any.
    pub fn get(&self, index: usize) -> (r: Option<&OpenDocument<V>>)
        ensures
            index < self.documents().len() ==> r == Some(&self.documents()[index as int]),
            index >= self.documents().len() ==> r is None,
    {
        if index < self.docs.len() {
            Some(&self.docs[index])
        } else {
            None
        }
    }

    /// The index of the first open document with path `path`, if any.
    pub fn index_of_path(&self, path: &str) -> (r: Option<usize>)
        ensures
            match r {
                Some(k) => self.first_with_path(path@, k as int),
                None => forall|k: int| 0 <= k < self.documents().len() ==> path_view(
                    (#[trigger] self.documents()[k]).path,
                ) != Some(path@),
            },
    {
        let mut i: usize = 0;
        while i < self.docs.len()
            invariant
                i <= self.documents().len(),
                forall|j: int| 0 <= j < i ==> path_view((#[trigger] self.documents()[j]).path) != Some(path@),
            decreases self.documents().len() - i,
        {
            let hit = match &self.docs[i].path {
                Some(p) => str_eq(p.as_str(), path),
                None => false,
            };
            if hit {
                return Some(i);
            }
            i += 1;
        }
        None
    }

    /// Opens `doc` and focuses it; a document whose path is already open is
    /// not added again, the open tab is focused instead. Returns the index.
    pub fn open(&mut self, doc: OpenDocument<V>) -> (index: usize)
        requires
            old(self).wf(),
            old(self).documents().len() < usize::MAX,
        ensures
            final(self).wf(),
            final(self).active_tab() == Some(index),
            match path_view(doc.path) {
                Some(p) => if exists|k: int| old(self).first_with_path(p, k) {
                    old(self).first_with_path(p, index as int) && final(self).documents() == old(self).documents()
                } else {
                    index == old(self).documents().len() && final(self).documents() == old(self).documents().push(doc)
                },
                None => index == old(self).documents().len() && final(self).documents() == old(self).documents().push(doc),
            },
    {
        let existing = match &doc.path {
            Some(p) => self.index_of_path(p.as_str()),
            None => None,
        };
        match existing {
            Some(k) => {
                self.active = Some(k);
                k
            },
            None => {
                self.docs.push(doc);
                let index = self.docs.len() - 1;
                self.active = Some(index);
                index
            },
        }
    }

    /// Whether some open document is titled `t`.
    fn title_taken(&self, t: &str) -> (r: bool)
        ensures
            r == titles_of(self.documents()).contains(t@),
    {
        let ghost titles = titles_of(self.documents());
        let mut i: usize = 0;
        while i < self.docs.len()
            invariant
                titles == titles_of(self.documents()),
                i <= self.documents().len(),
                forall|j: int| 0 <= j < i ==> titles[j] != t@,
            decreases self.documents().len() - i,
        {
            if str_eq(self.docs[i].title.as_str(), t) {
                assert(titles[i as int] == t@);
                return true;
            }
            i += 1;
        }
        assert(!titles.contains(t@));
        false
    }

    /// The title for a new untitled document: `Untitled` when no open
    /// document has it, otherwise the first free `Untitled n` from 2 on.
    fn unique_untitled_title(&self) -> (r: String)
        requires
            self.documents().len() + 2 <= usize::MAX,
        ensures
            r@ == fresh_untitled(titles_of(self.documents())),
    {
        let ghost titles = titles_of(self.documents());
        if !self.title_taken("Untitled") {
            return owned("Untitled");
        }
        let n = self.docs.len();
        let mut i: usize = 2;
        loop
            invariant
                titles == titles_of(self.documents()),
                n == titles.len(),
                n + 2 <= usize::MAX,
                2 <= i,
                titles.contains("Untitled"@),
                forall|j: nat| 2 <= j < i ==> titles.contains(#[trigger] untitled_n(j)),
            decreases n + 3 - i,
        {
            proof {
                lemma_taken_untitled_bound(titles, i as int);
            }
            let mut candidate = owned("Untitled ");
            push_decimal(&mut candidate, i as u64);
            if !self.title_taken(candidate.as_str()) {
                proof {
                    assert(first_free_number(titles, i as nat));
                    let c = choose|c: nat| first_free_number(titles, c);
                    if c < i {
                        assert(titles.contains(untitled_n(c)));
                    } else if c > i {
                        assert(titles.contains(untitled_n(i as nat)));
                    }
                }
                return candidate;
            }
            proof {
                lemma_taken_untitled_bound(titles, i + 1);
            }
            i += 1;
        }
    }

    /// Switches to tab `index`; returns `false` (and changes nothing) when
    /// there is no such tab.
    pub fn switch_to(&mut self, index: usize) -> (r: bool)
        requires
            old(self).wf(),
        ensures
            final(self).wf(),
            final(self).documents() == old(self).documents(),
            r == (index < old(self).documents().len()),
            r ==> final(self).active_tab() == Some(index),
            !r ==> final(self).active_tab() == old(self).active_tab(),
    {
        if index < self.docs.len() {
            self.active = Some(index);
            true
        } else {
            false
        }
    }

    /// Closes tab `index` and returns its document (`None`, changing
    /// nothing, when there is no such tab). A tab after the closed one
    /// shifts down; closing the active tab focuses the tab taking its place,
    /// or the new last tab; closing the last tab leaves none active.
    pub fn close(&mut self, index: usize) -> (r: Option<OpenDocument<V>>)
        requires
            old(self).wf(),
        ensures
            final(self).wf(),
            index >= old(self).documents().len() ==> r is None && final(self).documents() == old(self).documents()
                && final(self).active_tab() == old(self).active_tab(),
            index < old(self).documents().len() ==> r == Some(old(self).documents()[index as int]) && final(self).documents() == old(self).documents().remove(index as int) && final(self).active_tab() == active_after_close(
                old(self).active_tab(),
                index,
                final(self).documents().len(),
            ),
    {
        if index >= self.docs.len() {
            return None;
        }
        let removed = self.docs.remove(index);
        let n = self.docs.len();
        self.active = if n == 0 {
            None
        } else {
            match self.active {
                Some(a) => if a > index {
                    Some(a - 1)
                } else if a == index {
                    Some(if a <= n - 1 { a } else { n - 1 })
                } else {
                    Some(a)
                },
                None => None,
            }
        };
        Some(removed)
    }

    /// Sets the unsaved-changes flag of tab `index` (nothing happens when
    /// there is no such tab).
    pub fn set_dirty(&mut self, index: usize, dirty: bool)
        requires
            old(self).wf(),
        ensures
            final(self).wf(),
            final(self).active_tab() == old(self).active_tab(),
            index >= old(self).documents().len() ==> final(self).documents() == old(self).documents(),
            index < old(self).documents().len() ==> final(self).documents() == old(self).documents().update(
                index as int,
                OpenDocument { dirty, ..old(self).documents()[index as int] },
            ),
    {
        if index < self.docs.len() {
            let ghost before = self.docs@;
            let mut d = self.docs.remove(index);
            d.dirty = dirty;
            self.docs.insert(index, d);
            assert(self.docs@ =~= before.update(index as int, OpenDocument { dirty, ..before[index as int] }));
        }
    }

    /// Asks to close tab `index`: a clean document closes at once
    /// (`Closed`); one with unsaved changes stays open and asks for the
    /// save prompt (`NeedsSavePrompt`). No such tab: nothing happens and the
    /// answer is `Closed`.
    pub fn request_close(&mut self, index: usize) -> (r: CloseOutcome)
        requires
            old(self).wf(),
        ensures
            final(self).wf(),
            index >= old(self).documents().len() ==> r == CloseOutcome::Closed && final(self).documents()
                == old(self).documents() && final(self).active_tab() == old(self).active_tab(),
            index < old(self).documents().len() && old(self).documents()[index as int].dirty ==> r
                == CloseOutcome::NeedsSavePrompt && final(self).documents() == old(self).documents() && final(self).active_tab() == old(self).active_tab(),
            index < old(self).documents().len() && !old(self).documents()[index as int].dirty ==> r == CloseOutcome::Closed
                && final(self).documents() == old(self).documents().remove(index as int) && final(self).active_tab()
                == active_after_close(old(self).active_tab(), index, final(self).documents().len()),
    {
        if index >= self.docs.len() {
            return CloseOutcome::Closed;
        }
        if self.docs[index].dirty {
            CloseOutcome::NeedsSavePrompt
        } else {
            self.close(index);
            CloseOutcome::Closed
        }
    }

    /// Answers the save prompt for tab `index`: `Save` clears the
    /// unsaved-changes flag and closes the tab, `Discard` closes it as it
    /// is, `Cancel` keeps it open. Returns whether the tab was closed.
    pub fn resolve_close(&mut self, index: usize, choice: SavePromptChoice) -> (closed: bool)
        requires
            old(self).wf(),
        ensures
            final(self).wf(),
            closed == (choice != SavePromptChoice::Cancel && index < old(self).documents().len()),
            !closed ==> final(self).documents() == old(self).documents() && final(self).active_tab() == old(self).active_tab(),
            closed ==> final(self).documents() == old(self).documents().remove(index as int) && final(self).active_tab()
                == active_after_close(old(self).active_tab(), index, final(self).documents().len()),
    {
        match choice {
            SavePromptChoice::Cancel => false,
            SavePromptChoice::Save => {
                self.set_dirty(index, false);
                let r = self.close(index);
                r.is_some()
            },
            SavePromptChoice::Discard => {
                let r = self.close(index);
                r.is_some()
            },
        }
    }
}

impl<V: Default> MultiDocModel<V> {
    /// Creates a clean, untitled scene document (no path), opens it in a new
    /// tab and focuses it (Scene > New Scene). Its title is one no open
    /// document has. Returns the new tab's index.
    pub fn new_scene(&mut self) -> (index: usize)
        requires
            old(self).wf(),
            old(self).documents().len() + 2 <= usize::MAX,
        ensures
            final(self).wf(),
            index == old(self).documents().len(),
            final(self).active_tab() == Some(index),
            final(self).documents().len() == old(self).documents().len() + 1,
            final(self).documents().take(index as int) == old(self).documents(),
            ({
                let d = final(self).documents()[index as int];
                &&& d.title@ == fresh_untitled(titles_of(old(self).documents()))
                &&& d.path is None
                &&& d.kind == DocumentKind::Scene
                &&& !d.dirty
                &&& d.state.selection@.len() == 0
            }),
    {
        let title = self.unique_untitled_title();
        let doc: OpenDocument<V> = OpenDocument::new(title.as_str(), None, DocumentKind::Scene);
        let index = self.open(doc);
        assert(self.documents().take(index as int) =~= old(self).documents());
        index
    }

    /// Opens the scene loaded from `path` as a clean `Scene` document titled
    /// after the scene's root node (`root_name`, what loading the file gave;
    /// the path when it gave none) and focuses it; a scene whose path is
    /// already open is focused instead of loaded twice. Returns the index.
    pub fn open_loaded_scene(&mut self, path: &str, root_name: Option<&str>) -> (index: usize)
        requires
            old(self).wf(),
            old(self).documents().len() < usize::MAX,
        ensures
            final(self).wf(),
            final(self).active_tab() == Some(index),
            if exists|k: int| old(self).first_with_path(path@, k) {
                old(self).first_with_path(path@, index as int) && final(self).documents() == old(self).documents()
            } else {
                &&& index == old(self).documents().len()
                &&& final(self).documents().len() == old(self).documents().len() + 1
                &&& final(self).documents().take(index as int) == old(self).documents()
                &&& ({
                    let d = final(self).documents()[index as int];
                    &&& d.title@ == match root_name {
                        Some(n) => n@,
                        None => path@,
                    }
                    &&& path_view(d.path) == Some(path@)
                    &&& d.kind == DocumentKind::Scene
                    &&& !d.dirty
                    &&& d.state.selection@.len() == 0
                })
            },
    {
        let title = match root_name {
            Some(n) => n,
            None => path,
        };
        let doc: OpenDocument<V> = OpenDocument::new(title, Some(owned(path)), DocumentKind::Scene);
        assert(path_view(doc.path) == Some(path@));
        let index = self.open(doc);
        proof {
            if !exists|k: int| old(self).first_with_path(path@, k) {
                assert(self.documents().take(index as int) =~= old(self).documents());
            }
        }
        index
    }
}

/// A new untitled document's title is never the title of an open document.
pub proof fn law_fresh_untitled_is_unused(titles: Seq<Seq<char>>)
    ensures
        !titles.contains(fresh_untitled(titles)),
{
    if titles.contains("Untitled"@) {
        let m = titles.len() + 3;
        if forall|j: nat| 2 <= j < m ==> titles.contains(#[trigger] untitled_n(j)) {
            lemma_taken_untitled_bound(titles, m as int);
        }
        let k: nat = choose|k: nat| 2 <= k < m && !titles.contains(#[trigger] untitled_n(k));
        lemma_first_free_exists(titles, k);
    }
}

/// Below any free number there is a smallest one.
proof fn lemma_first_free_exists(titles: Seq<Seq<char>>, k: nat)
    requires
        k >= 2,
        !titles.contains(untitled_n(k)),
    ensures
        exists|n: nat| first_free_number(titles, n),
    decreases k,
{
    if forall|j: nat| 2 <= j < k ==> titles.contains(#[trigger] untitled_n(j)) {
        assert(first_free_number(titles, k));
    } else {
        let j: nat = choose|j: nat| 2 <= j < k && !titles.contains(#[trigger] untitled_n(j));
        lemma_first_free_exists(titles, j);
    }
}

} // verus!
