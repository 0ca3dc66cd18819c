//! Scene > Open Recent: a bounded, de-duplicated, most-recent-first list of
//! opened scene paths. Opening a scene records it at the front; selecting an
//! entry opens it and moves it back to the front.

use vstd::prelude::*;
use crate::table::string_views;
use crate::text::{owned, str_eq};

verus! {

broadcast use vstd::string::group_string_axioms;

/// Keeps the paths other than `path`.
pub open spec fn differs(path: Seq<char>) -> spec_fn(Seq<char>) -> bool {
    |p: Seq<char>| p != path
}

/// The list after opening `path`: `path` in front, then the other entries
/// in their order, cut to at most `max` entries (the oldest dropped).
pub open spec fn after_open(entries: Seq<Seq<char>>, path: Seq<char>, max: nat) -> Seq<Seq<char>> {
    let l = seq![path] + entries.filter(differs(path));
    if l.len() > max {
        l.take(max as int)
    } else {
        l
    }
}

/// A filter that every element passes leaves the sequence unchanged.
proof fn lemma_filter_keeps_all(s: Seq<Seq<char>>, pred: spec_fn(Seq<char>) -> bool)
    requires
        forall|i: int| 0 <= i < s.len() ==> pred(#[trigger] s[i]),
    ensures
        s.filter(pred) == s,
    decreases s.len(),
{
    reveal(Seq::filter);
    if s.len() > 0 {
        lemma_filter_keeps_all(s.drop_last(), pred);
        assert(s.drop_last().push(s.last()) =~= s);
    }
}

/// Filtering keeps a sequence free of duplicates.
proof fn lemma_filter_no_duplicates(s: Seq<Seq<char>>, pred: spec_fn(Seq<char>) -> bool)
    requires
        s.no_duplicates(),
    ensures
        s.filter(pred).no_duplicates(),
    decreases s.len(),
{
    reveal(Seq::filter);
    if s.len() > 0 {
        let rest = s.drop_last();
        assert(rest.no_duplicates());
        lemma_filter_no_duplicates(rest, pred);
        if pred(s.last()) {
            let f = rest.filter(pred);
            if f.contains(s.last()) {
                rest.lemma_filter_contains_rev(pred, s.last());
                let k = choose|k: int| 0 <= k < rest.len() && rest[k] == s.last();
                assert(s[k] == s[s.len() - 1]);
            }
            let g = f.push(s.last());
            assert forall|a: int, b: int| 0 <= a < g.len() && 0 <= b < g.len() && a != b implies g[a] != g[b] by {
                if a < f.len() && b < f.len() {
                } else if a == f.len() {
                    assert(g[b] == f[b]);
                } else {
                    assert(g[a] == f[a]);
                }
            }
        }
    }
}

/// Every entry kept by `differs(path)` differs from `path`.
proof fn lemma_filtered_differs(s: Seq<Seq<char>>, path: Seq<char>)
    ensures
        forall|i: int| 0 <= i < s.filter(differs(path)).len() ==> #[trigger] s.filter(differs(path))[i] != path,
{
    assert forall|i: int| 0 <= i < s.filter(differs(path)).len() implies #[trigger] s.filter(differs(path))[i] != path by {
        s.lemma_filter_pred(differs(path), i);
    }
}

/// The Open Recent list and its bound.
#[derive(Debug, Clone, PartialEq, Eq)]
pub struct OpenRecent {
    entries: Vec<String>,
    max_entries: usize,
}

impl Default for OpenRecent {
    fn default() -> (r: Self)
        ensures
            r.wf(),
            r.recent() == Seq::<Seq<char>>::empty(),
            r.cap() == 20,
    {
        let r = OpenRecent { entries: Vec::new(), max_entries: 20 };
        assert(r.recent() =~= Seq::<Seq<char>>::empty());
        r
    }
}

impl OpenRecent {
    /// The remembered paths, most recent first.
    pub closed spec fn recent(&self) -> Seq<Seq<char>> {
        string_views(self.entries@)
    }

    /// The maximum number of remembered paths.
    pub closed spec fn cap(&self) -> nat {
        self.max_entries as nat
    }

    /// No path twice, at most `cap` paths, and room for at least one.
    pub open spec fn wf(&self) -> bool {
        &&& self.recent().no_duplicates()
        &&& self.recent().len() <= self.cap()
        &&& self.cap() >= 1
    }

    /// An empty list bounded to `max_entries` paths (at least one).
    pub fn new(max_entries: usize) -> (r: Self)
        ensures
            r.wf(),
            r.recent() == Seq::<Seq<char>>::empty(),
            r.cap() == if max_entries >= 1 { max_entries as nat } else { 1 },
    {
        let r = OpenRecent { entries: Vec::new(), max_entries: if max_entries >= 1 { max_entries } else { 1 } };
        assert(r.recent() =~= Seq::<Seq<char>>::empty());
        r
    }

    /// A list holding exactly `entries` (most recent first) and the bound
    /// `max_entries`, as restored from a saved session.
    pub fn from_parts(entries: Vec<String>, max_entries: usize) -> (r: Self)
        ensures
            r.recent() == string_views(entries@),
            r.cap() == max_entries,
    {
        OpenRecent { entries, max_entries }
    }

    /// Records that `path` was opened: it moves to the front without
    /// duplicating, and the oldest paths beyond the bound are dropped.
    pub fn record_open(&mut self, path: &str)
        ensures
            final(self).recent() == after_open(old(self).recent(), path@, old(self).cap()),
            final(self).cap() == old(self).cap(),
    {
        let ghost old_views = self.recent();
        let ghost pred = differs(path@);
        let mut kept: Vec<String> = Vec::new();
        kept.push(owned(path));
        assert(string_views(kept@) =~= seq![path@] + old_views.take(0).filter(pred)) by {
            reveal(Seq::filter);
        }
        let n = self.entries.len();
        let mut i: usize = 0;
        while i < n
            invariant
                n == self.entries@.len(),
                old_views == string_views(self.entries@),
                pred == differs(path@),
                i <= n,
                string_views(kept@) == seq![path@] + old_views.take(i as int).filter(pred),
            decreases n - i,
        {
            let ghost before = string_views(kept@);
            let keep = !str_eq(self.entries[i].as_str(), path);
            if keep {
                let e = self.entries[i].clone();
                kept.push(e);
            }
            proof {
                assert(old_views.take(i + 1) =~= old_views.take(i as int).push(old_views[i as int]));
                old_views.take(i as int).lemma_filter_push(old_views[i as int], pred);
                if keep {
                    assert(string_views(kept@) =~= before.push(old_views[i as int]));
                } else {
                    assert(string_views(kept@) =~= before);
                }
            }
            i += 1;
        }
        assert(old_views.take(n as int) =~= old_views);
        if kept.len() > self.max_entries {
            let ghost full = string_views(kept@);
            kept.truncate(self.max_entries);
            assert(string_views(kept@) =~= full.take(self.max_entries as int));
        }
        self.entries = kept;
    }

    /// The remembered paths, most recent first.
    pub fn entries(&self) -> (r: &[String])
        ensures
            string_views(r@) == self.recent(),
    {
        self.entries.as_slice()
    }

    /// The number of remembered paths.
    pub fn len(&self) -> (r: usize)
        ensures
            r == self.recent().len(),
    {
        self.entries.len()
    }

    /// Whether the list is empty.
    pub fn is_empty(&self) -> (r: bool)
        ensures
            r == (self.recent().len() == 0),
    {
        self.entries.len() == 0
    }

    /// The maximum number of remembered paths.
    pub fn max_entries(&self) -> (r: usize)
        ensures
            r == self.cap(),
    {
        self.max_entries
    }

    /// Selects entry `index`, opening it: returns its path and moves it to
    /// the front; `None` (and no change) if out of range.
    pub fn select(&mut self, index: usize) -> (r: Option<String>)
        ensures
            final(self).cap() == old(self).cap(),
            index < old(self).recent().len() ==> (r matches Some(p) && p@ == old(self).recent()[index as int]
                && final(self).recent() == after_open(old(self).recent(), p@, old(self).cap())),
            index >= old(self).recent().len() ==> r is None && final(self).recent() == old(self).recent(),
    {
        if index >= self.entries.len() {
            return None;
        }
        let path = self.entries[index].clone();
        self.record_open(path.as_str());
        Some(path)
    }

    /// Empties the list.
    pub fn clear(&mut self)
        ensures
            final(self).recent() == Seq::<Seq<char>>::empty(),
            final(self).cap() == old(self).cap(),
    {
        self.entries.clear();
        assert(self.recent() =~= Seq::<Seq<char>>::empty());
    }
}

/// Opening a path puts it first, keeps the list free of duplicates and
/// within its bound, and opening the same path again changes nothing.
pub proof fn law_record_open(entries: Seq<Seq<char>>, path: Seq<char>, max: nat)
    requires
        entries.no_duplicates(),
        max >= 1,
    ensures
        after_open(entries, path, max).len() >= 1,
        after_open(entries, path, max)[0] == path,
        after_open(entries, path, max).no_duplicates(),
        after_open(entries, path, max).len() <= max,
        after_open(after_open(entries, path, max), path, max) == after_open(entries, path, max),
{
    let d = differs(path);
    let f = entries.filter(d);
    let l = seq![path] + f;
    let r = after_open(entries, path, max);
    lemma_filter_no_duplicates(entries, d);
    lemma_filtered_differs(entries, path);
    assert(l[0] == path);
    assert(l.no_duplicates()) by {
        assert forall|a: int, b: int| 0 <= a < l.len() && 0 <= b < l.len() && a != b implies l[a] != l[b] by {
            if a == 0 {
                assert(l[b] == f[b - 1]);
            } else if b == 0 {
                assert(l[a] == f[a - 1]);
            } else {
                assert(l[a] == f[a - 1] && l[b] == f[b - 1]);
            }
        }
    }
    let k: int = if l.len() > max { max - 1 } else { f.len() as int };
    assert(r =~= seq![path] + f.take(k));
    assert(r.no_duplicates()) by {
        assert forall|a: int, b: int| 0 <= a < r.len() && 0 <= b < r.len() && a != b implies r[a] != r[b] by {
            assert(r[a] == l[a] && r[b] == l[b]);
        }
    }
    let t = f.take(k);
    assert forall|i: int| 0 <= i < t.len() implies d(#[trigger] t[i]) by {
        assert(t[i] == f[i]);
    }
    lemma_filter_keeps_all(t, d);
    t.lemma_filter_prepend(path, d);
    assert(r.filter(d) == t);
}

} // verus!
