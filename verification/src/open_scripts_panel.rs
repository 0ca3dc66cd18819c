//! The script editor's open-scripts panel: the open script buffers, in open
//! order, and which one is active. Opening an open script focuses it;
//! closing one removes it and moves the selection to the entry that slid
//! into its place (clamped to the end), or clears it when the panel empties.

use vstd::prelude::*;
use crate::table::{string_find, string_set, string_views};
use crate::text::owned;

verus! {

broadcast use vstd::string::group_string_axioms;

/// The active index after closing entry `index`, leaving `new_len` entries.
pub open spec fn active_after_close(active: Option<usize>, index: usize, new_len: nat) -> Option<usize> {
    if new_len == 0 {
        None
    } else {
        match active {
            Some(a) => if a == index {
                Some(if index <= new_len - 1 { index } else { (new_len - 1) as usize })
            } else if a > index {
                Some((a - 1) as usize)
            } else {
                Some(a)
            },
            None => None,
        }
    }
}

/// The open paths after opening `path`: unchanged when it is already open,
/// otherwise with `path` appended.
pub open spec fn opened_paths(paths: Seq<Seq<char>>, path: Seq<char>) -> Seq<Seq<char>> {
    if paths.contains(path) {
        paths
    } else {
        paths.push(path)
    }
}

/// The open scripts (by path) and the active selection.
#[derive(Debug, Clone)]
pub struct OpenScriptsPanel {
    open: Vec<String>,
    active: Option<usize>,
}

impl Default for OpenScriptsPanel {
    fn default() -> (r: Self)
        ensures
            r.wf(),
            r.paths() == Seq::<Seq<char>>::empty(),
            r.active_entry() is None,
    {
        OpenScriptsPanel::new()
    }
}

impl OpenScriptsPanel {
    /// The open paths, in open order.
    pub closed spec fn paths(&self) -> Seq<Seq<char>> {
        string_views(self.open@)
    }

    /// The active index.
    pub closed spec fn active_entry(&self) -> Option<usize> {
        self.active
    }

    /// No path is open twice, and the active index names an open script.
    pub open spec fn wf(&self) -> bool {
        &&& self.paths().no_duplicates()
        &&& (self.active_entry() matches Some(i) ==> i < self.paths().len())
    }

    /// An empty panel.
    pub fn new() -> (r: Self)
        ensures
            r.wf(),
            r.paths() == Seq::<Seq<char>>::empty(),
            r.active_entry() is None,
    {
        let r = OpenScriptsPanel { open: Vec::new(), active: None };
        assert(r.paths() =~= Seq::<Seq<char>>::empty());
        r
    }

    /// The open scripts' paths, in open order.
    pub fn scripts(&self) -> (r: &[String])
        ensures
            string_views(r@) == self.paths(),
    {
        self.open.as_slice()
    }

    /// The number of open scripts.
    pub fn len(&self) -> (r: usize)
        ensures
            r == self.paths().len(),
    {
        self.open.len()
    }

    /// Whether no script is open.
    pub fn is_empty(&self) -> (r: bool)
        ensures
            r == (self.paths().len() == 0),
    {
        self.open.len() == 0
    }

    /// Whether `path` is open.
    pub fn is_open(&self, path: &str) -> (r: bool)
        ensures
            r == self.paths().contains(path@),
    {
        let r = string_find(&self.open, path);
        proof {
            if self.paths().contains(path@) {
                let k = choose|k: int| 0 <= k < self.paths().len() && self.paths()[k] == path@;
                assert(self.open@[k]@ == path@);
                assert(string_set(self.open@).contains(path@));
            }
            if let Some(i) = r {
                assert(self.paths()[i as int] == path@);
            }
        }
        r.is_some()
    }

    /// The active script's index, if any.
    pub fn active_index(&self) -> (r: Option<usize>)
        ensures
            r == self.active_entry(),
    {
        self.active
    }

    /// The active script's path, if any.
    pub fn active_path(&self) -> (r: Option<&str>)
        requires
            self.wf(),
        ensures
            match self.active_entry() {
                Some(i) => (r matches Some(p) && p@ == self.paths()[i as int]),
                None => r is None,
            },
    {
        match self.active {
            Some(i) => Some(self.open[i].as_str()),
            None => None,
        }
    }

    /// Opens `path` and makes it active; an open path is focused rather than
    /// added again. Returns the entry's index.
    pub fn open(&mut self, path: &str) -> (idx: usize)
        requires
            old(self).wf(),
            old(self).paths().len() < usize::MAX,
        ensures
            final(self).wf(),
            final(self).active_entry() == Some(idx),
            final(self).paths() == opened_paths(old(self).paths(), path@),
            final(self).paths()[idx as int] == path@,
    {
        let idx = match string_find(&self.open, path) {
            Some(i) => {
                assert(self.paths()[i as int] == path@);
                i
            },
            None => {
                let ghost before = self.paths();
                proof {
                    if before.contains(path@) {
                        let k = choose|k: int| 0 <= k < before.len() && before[k] == path@;
                        assert(self.open@[k]@ == path@);
                        assert(string_set(self.open@).contains(path@));
                    }
                }
                self.open.push(owned(path));
                assert(self.paths() =~= before.push(path@));
                proof {
                    let p = self.paths();
                    assert forall|a: int, b: int| 0 <= a < p.len() && 0 <= b < p.len() && a != b implies p[a] != p[b] by {
                        if a < before.len() && b < before.len() {
                        } else if a == before.len() {
                            assert(p[b] == before[b]);
                        } else {
                            assert(p[a] == before[a]);
                        }
                    }
                }
                self.open.len() - 1
            },
        };
        self.active = Some(idx);
        idx
    }

    /// Makes entry `index` active; returns `false` (and changes nothing) if
    /// it is out of range.
    pub fn select(&mut self, index: usize) -> (r: bool)
        requires
            old(self).wf(),
        ensures
            final(self).wf(),
            final(self).paths() == old(self).paths(),
            r == (index < old(self).paths().len()),
            r ==> final(self).active_entry() == Some(index),
            !r ==> final(self).active_entry() == old(self).active_entry(),
    {
        if index < self.open.len() {
            self.active = Some(index);
            true
        } else {
            false
        }
    }

    /// Closes entry `index` and adjusts the selection; returns `false` (and
    /// changes nothing) if it is out of range.
    pub fn close(&mut self, index: usize) -> (r: bool)
        requires
            old(self).wf(),
        ensures
            final(self).wf(),
            r == (index < old(self).paths().len()),
            r ==> final(self).paths() == old(self).paths().remove(index as int),
            r ==> final(self).active_entry() == active_after_close(old(self).active_entry(), index, final(self).paths().len()),
            !r ==> final(self).paths() == old(self).paths() && final(self).active_entry() == old(self).active_entry(),
    {
        if index >= self.open.len() {
            return false;
        }
        let ghost before = self.paths();
        self.open.remove(index);
        assert(self.paths() =~= before.remove(index as int));
        let n = self.open.len();
        self.active = if n == 0 {
            None
        } else {
            match self.active {
                Some(a) => if a == index {
                    Some(if index <= n - 1 { index } else { n - 1 })
                } else if a > index {
                    Some(a - 1)
                } else {
                    Some(a)
                },
                None => None,
            }
        };
        proof {
            let p = self.paths();
            assert forall|a: int, b: int| 0 <= a < p.len() && 0 <= b < p.len() && a != b implies p[a] != p[b] by {
                let sa = if a < index { a } else { a + 1 };
                let sb = if b < index { b } else { b + 1 };
                assert(p[a] == before[sa]);
                assert(p[b] == before[sb]);
            }
        }
        true
    }
}

/// Opening a path that is already open leaves the open list as it is, so
/// opening the same path twice gives the list of opening it once; either
/// way the path ends up open, at most one entry longer than before.
pub proof fn law_open_is_idempotent(paths: Seq<Seq<char>>, path: Seq<char>)
    ensures
        opened_paths(opened_paths(paths, path), path) == opened_paths(paths, path),
        opened_paths(paths, path).contains(path),
        opened_paths(paths, path).len() <= paths.len() + 1,
{
    if !paths.contains(path) {
        assert(paths.push(path)[paths.len() as int] == path);
    }
}

} // verus!
