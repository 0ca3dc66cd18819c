//! FileSystem dock file operations over a virtual project filesystem:
//! create a folder, rename/move a resource, duplicate, and delete. Renaming
//! or moving a resource rewrites every reference to its old path in the
//! other files so their links keep resolving.

use vstd::prelude::*;
use crate::table::{has_key, keys_unique, lemma_table_lookup, lemma_table_push, lemma_table_remove, lemma_table_set, table_find, table_view, strings_unique, string_set, string_find, lemma_string_set_push, lemma_string_set_remove};
use crate::text::{chars_of, find_from, first_match, lemma_first_match, owned, str_eq, string_from_chars};

verus! {

broadcast use vstd::string::group_string_axioms;

/// `hay` with every occurrence of a non-empty `from` at or after `p`
/// replaced by `to`, left to right without overlap.
pub open spec fn replace_from(hay: Seq<char>, from: Seq<char>, to: Seq<char>, p: int) -> Seq<char>
    decreases hay.len() - p,
{
    if from.len() == 0 || p < 0 || p > hay.len() {
        seq![]
    } else {
        match first_match(hay, from, p) {
            Some(q) => {
                proof { lemma_first_match(hay, from, p); }
                hay.subrange(p, q) + to + replace_from(hay, from, to, q + from.len())
            },
            None => hay.subrange(p, hay.len() as int),
        }
    }
}

/// `to` inserted before every character of `hay` and at its end (what
/// replacing the empty string does).
pub open spec fn interleave(hay: Seq<char>, to: Seq<char>) -> Seq<char>
    decreases hay.len(),
{
    if hay.len() == 0 {
        to
    } else {
        to + seq![hay[0]] + interleave(hay.drop_first(), to)
    }
}

/// `str::replace(hay, from, to)`: every non-overlapping occurrence of
/// `from`, left to right, replaced by `to`.
pub open spec fn str_replace(hay: Seq<char>, from: Seq<char>, to: Seq<char>) -> Seq<char> {
    if from.len() == 0 {
        interleave(hay, to)
    } else {
        replace_from(hay, from, to, 0)
    }
}

fn push_all(out: &mut Vec<char>, s: &[char])
    ensures
        final(out)@ == old(out)@ + s@,
{
    let mut i: usize = 0;
    while i < s.len()
        invariant
            i <= s@.len(),
            out@ == old(out)@ + s@.take(i as int),
        decreases s@.len() - i,
    {
        out.push(s[i]);
        i += 1;
        assert(out@ =~= old(out)@ + s@.take(i as int));
    }
    assert(s@.take(s@.len() as int) =~= s@);
}

fn push_range(out: &mut Vec<char>, s: &[char], lo: usize, hi: usize)
    requires
        lo <= hi <= s@.len(),
    ensures
        final(out)@ == old(out)@ + s@.subrange(lo as int, hi as int),
{
    let mut i = lo;
    while i < hi
        invariant
            lo <= i <= hi <= s@.len(),
            out@ == old(out)@ + s@.subrange(lo as int, i as int),
        decreases hi - i,
    {
        out.push(s[i]);
        i += 1;
        assert(out@ =~= old(out)@ + s@.subrange(lo as int, i as int));
    }
}

/// Replaces every occurrence of `from` in `hay` by `to`.
pub fn replace_str(hay: &str, from: &str, to: &str) -> (r: String)
    ensures
        r@ == str_replace(hay@, from@, to@),
{
    let h = chars_of(hay);
    let f = chars_of(from);
    let t = chars_of(to);
    let mut out: Vec<char> = Vec::new();
    if f.len() == 0 {
        let mut i: usize = 0;
        assert(h@.subrange(0, h@.len() as int) =~= h@);
        assert(out@ + interleave(h@, t@) =~= interleave(h@, t@));
        while i < h.len()
            invariant
                i <= h@.len(),
                out@ + interleave(h@.subrange(i as int, h@.len() as int), t@) == interleave(h@, t@),
            decreases h@.len() - i,
        {
            let ghost rest = h@.subrange(i as int, h@.len() as int);
            assert(rest.drop_first() =~= h@.subrange(i + 1, h@.len() as int));
            assert(interleave(rest, t@) == t@ + seq![rest[0]] + interleave(rest.drop_first(), t@));
            let ghost before = out@;
            push_all(&mut out, t.as_slice());
            out.push(h[i]);
            assert(out@ + interleave(h@.subrange(i + 1, h@.len() as int), t@) =~= before + interleave(rest, t@));
            i += 1;
        }
        let ghost before = out@;
        push_all(&mut out, t.as_slice());
        assert(interleave(h@.subrange(i as int, h@.len() as int), t@) == t@);
        assert(out@ =~= interleave(h@, t@));
        return string_from_chars(out.as_slice());
    }
    let mut p: usize = 0;
    let mut more = true;
    let hl = h.len();
    assert(out@ + replace_from(h@, f@, t@, 0) =~= str_replace(h@, f@, t@));
    while more
        invariant
            hl == h@.len(),
            f@.len() > 0,
            p <= h@.len(),
            more ==> out@ + replace_from(h@, f@, t@, p as int) == str_replace(h@, f@, t@),
            !more ==> out@ == str_replace(h@, f@, t@),
        decreases (h@.len() - p) * 2 + (if more { 1int } else { 0int }),
    {
        match find_from(h.as_slice(), f.as_slice(), p) {
            Some(q) => {
                proof { lemma_first_match(h@, f@, p as int); }
                let ghost before = out@;
                push_range(&mut out, h.as_slice(), p, q);
                push_all(&mut out, t.as_slice());
                assert(replace_from(h@, f@, t@, p as int) == h@.subrange(p as int, q as int) + t@ + replace_from(h@, f@, t@, q + f@.len()));
                assert(out@ + replace_from(h@, f@, t@, q + f@.len()) =~= before + replace_from(h@, f@, t@, p as int));
                p = q + f.len();
            },
            None => {
                assert(replace_from(h@, f@, t@, p as int) == h@.subrange(p as int, h@.len() as int));
                push_range(&mut out, h.as_slice(), p, h.len());
                more = false;
            },
        }
    }
    string_from_chars(out.as_slice())
}

/// A virtual project filesystem of files (path to content) and folders.
#[derive(Debug, Clone)]
pub struct VirtualFs {
    files: Vec<(String, String)>,
    folders: Vec<String>,
}

/// The files after renaming `src` to `dst`: `dst` holds `src`'s old
/// content, `src` is gone, and every other file has `src` replaced by `dst`.
pub open spec fn renamed(files: Map<Seq<char>, Seq<char>>, src: Seq<char>, dst: Seq<char>) -> Map<Seq<char>, Seq<char>> {
    Map::new(
        |k: Seq<char>| (files.contains_key(k) && k != src) || k == dst,
        |k: Seq<char>| if k == dst { files[src] } else { str_replace(files[k], src, dst) },
    )
}

impl VirtualFs {
    /// The files: path to content.
    pub closed spec fn files(&self) -> Map<Seq<char>, Seq<char>> {
        table_view(self.files@).map_values(|c: String| c@)
    }

    /// The folders.
    pub closed spec fn folders(&self) -> Set<Seq<char>> {
        string_set(self.folders@)
    }

    /// Paths are distinct.
    pub closed spec fn wf(&self) -> bool {
        keys_unique(self.files@) && strings_unique(self.folders@)
    }

    /// Creates an empty filesystem.
    pub fn new() -> (r: Self)
        ensures
            r.wf(),
            r.files() == Map::<Seq<char>, Seq<char>>::empty(),
            r.folders() == Set::<Seq<char>>::empty(),
    {
        let r = VirtualFs { files: Vec::new(), folders: Vec::new() };
        assert(r.files() =~= Map::<Seq<char>, Seq<char>>::empty());
        assert(r.folders() =~= Set::<Seq<char>>::empty());
        r
    }

    /// Adds (or overwrites) a file with `content`.
    pub fn add_file(&mut self, path: &str, content: &str)
        requires
            old(self).wf(),
        ensures
            final(self).wf(),
            final(self).files() == old(self).files().insert(path@, content@),
            final(self).folders() == old(self).folders(),
    {
        let c = owned(content);
        match table_find(&self.files, path) {
            Some(i) => {
                let key = self.files[i].0.clone();
                proof { lemma_table_set(self.files@, i as int, c); }
                self.files.set(i, (key, c));
            },
            None => {
                let key = owned(path);
                proof { lemma_table_push(self.files@, key, c); }
                self.files.push((key, c));
            },
        }
        assert(self.files() =~= old(self).files().insert(path@, content@));
    }

    /// Whether a file or folder exists at `path`.
    pub fn path_exists(&self, path: &str) -> (r: bool)
        ensures
            r == (self.files().contains_key(path@) || self.folders().contains(path@)),
    {
        table_find(&self.files, path).is_some() || string_find(&self.folders, path).is_some()
    }

    /// Reads a file's content.
    pub fn read(&self, path: &str) -> (r: Option<&str>)
        requires
            self.wf(),
        ensures
            match r {
                Some(c) => self.files().contains_key(path@) && c@ == self.files()[path@],
                None => !self.files().contains_key(path@),
            },
    {
        match table_find(&self.files, path) {
            Some(i) => {
                proof { lemma_table_lookup(self.files@, i as int); }
                Some(self.files[i].1.as_str())
            },
            None => None,
        }
    }

    /// The number of files tracked.
    pub fn file_count(&self) -> (n: usize)
        requires
            self.wf(),
        ensures
            n == self.files().len(),
    {
        proof { crate::fs_thumbnails::lemma_table_len(self.files@); }
        assert(self.files().dom() =~= table_view(self.files@).dom());
        self.files.len()
    }

    /// Creates a new folder at `path`. Returns whether it was created (false
    /// if something already exists there).
    pub fn new_folder(&mut self, path: &str) -> (created: bool)
        requires
            old(self).wf(),
        ensures
            final(self).wf(),
            created == !(old(self).files().contains_key(path@) || old(self).folders().contains(path@)),
            final(self).files() == old(self).files(),
            final(self).folders() == if created { old(self).folders().insert(path@) } else { old(self).folders() },
    {
        if self.path_exists(path) {
            return false;
        }
        let p = owned(path);
        proof { lemma_string_set_push(self.folders@, p); }
        self.folders.push(p);
        true
    }

    /// Renames or moves the file at `src` to `dst`, remapping every
    /// reference to `src` in the other files to `dst`. Returns whether the
    /// move happened (false if `src == dst`, `src` is missing or a file or
    /// folder already exists at `dst`; nothing changes then).
    pub fn rename(&mut self, src: &str, dst: &str) -> (moved: bool)
        requires
            old(self).wf(),
        ensures
            final(self).wf(),
            moved == (src@ != dst@ && !(old(self).files().contains_key(dst@) || old(self).folders().contains(dst@))
                && old(self).files().contains_key(src@)),
            final(self).files() == if moved { renamed(old(self).files(), src@, dst@) } else { old(self).files() },
            final(self).folders() == old(self).folders(),
    {
        if str_eq(src, dst) {
            return false;
        }
        if self.path_exists(dst) {
            return false;
        }
        let i = match table_find(&self.files, src) {
            Some(i) => i,
            None => return false,
        };
        let ghost old_files = self.files@;
        proof {
            lemma_table_lookup(old_files, i as int);
            lemma_table_remove(old_files, i as int);
        }
        let (_, content) = self.files.remove(i);
        let key = owned(dst);
        proof {
            assert(!has_key(self.files@, key@)) by {
                if has_key(self.files@, key@) {
                    assert(table_view(self.files@).contains_key(key@));
                }
            }
            lemma_table_push(self.files@, key, content);
        }
        self.files.push((key, content));
        let ghost mid = self.files@;
        assert(table_view(mid) == table_view(old_files).remove(src@).insert(dst@, content));
        let mut j: usize = 0;
        while j < self.files.len()
            invariant
                keys_unique(mid),
                table_view(mid) == table_view(old_files).remove(src@).insert(dst@, content),
                self.files@.len() == mid.len(),
                j <= mid.len(),
                forall|t: int| 0 <= t < mid.len() ==> #[trigger] self.files@[t].0 == mid[t].0,
                forall|t: int| 0 <= t < j ==> #[trigger] self.files@[t].1@
                    == if mid[t].0@ == dst@ { mid[t].1@ } else { str_replace(mid[t].1@, src@, dst@) },
                forall|t: int| j <= t < mid.len() ==> #[trigger] self.files@[t] == mid[t],
                self.folders@ == old(self).folders@,
            decreases mid.len() - j,
        {
            if !str_eq(self.files[j].0.as_str(), dst) {
                let body = replace_str(self.files[j].1.as_str(), src, dst);
                let k = self.files[j].0.clone();
                self.files.set(j, (k, body));
            }
            j += 1;
        }
        proof {
            assert(keys_unique(self.files@)) by {
                assert forall|a: int, b: int| 0 <= a < self.files@.len() && 0 <= b < self.files@.len() && a != b implies self.files@[a].0@ != self.files@[b].0@ by {
                    assert(self.files@[a].0 == mid[a].0 && self.files@[b].0 == mid[b].0);
                }
            }
            let fin = self.files@;
            let want = renamed(old(self).files(), src@, dst@);
            assert forall|k: Seq<char>| #[trigger] has_key(fin, k) == has_key(mid, k) by {
                if has_key(fin, k) {
                    let t = choose|t: int| 0 <= t < fin.len() && #[trigger] fin[t].0@ == k;
                    assert(fin[t].0 == mid[t].0);
                }
                if has_key(mid, k) {
                    let t = choose|t: int| 0 <= t < mid.len() && #[trigger] mid[t].0@ == k;
                    assert(fin[t].0 == mid[t].0);
                }
            }
            assert forall|k: Seq<char>| #[trigger] self.files().contains_key(k) == want.contains_key(k) by {
                assert(table_view(mid).contains_key(k) == has_key(mid, k));
            }
            assert forall|k: Seq<char>| #[trigger] self.files().contains_key(k) implies self.files()[k] == want[k] by {
                let t = choose|t: int| 0 <= t < fin.len() && #[trigger] fin[t].0@ == k;
                assert(fin[t].0 == mid[t].0);
                lemma_table_lookup(fin, t);
                lemma_table_lookup(mid, t);
                if k == dst@ {
                    assert(table_view(mid)[k] == content);
                } else {
                    assert(table_view(mid)[k] == table_view(old_files)[k]);
                }
            }
            assert(self.files() =~= want);
        }
        true
    }

    /// Moves `src` to `dst`; the same as `rename`, remapping every dependent
    /// reference.
    pub fn move_file(&mut self, src: &str, dst: &str) -> (moved: bool)
        requires
            old(self).wf(),
        ensures
            final(self).wf(),
            moved == (src@ != dst@ && !(old(self).files().contains_key(dst@) || old(self).folders().contains(dst@))
                && old(self).files().contains_key(src@)),
            final(self).files() == if moved { renamed(old(self).files(), src@, dst@) } else { old(self).files() },
            final(self).folders() == old(self).folders(),
    {
        self.rename(src, dst)
    }

    /// Duplicates the file at `src` to `dst`. Returns whether it was
    /// duplicated (false if a file or folder already exists at `dst`, or
    /// `src` is missing).
    pub fn duplicate(&mut self, src: &str, dst: &str) -> (copied: bool)
        requires
            old(self).wf(),
        ensures
            final(self).wf(),
            copied == (!(old(self).files().contains_key(dst@) || old(self).folders().contains(dst@))
                && old(self).files().contains_key(src@)),
            final(self).files() == if copied {
                old(self).files().insert(dst@, old(self).files()[src@])
            } else {
                old(self).files()
            },
            final(self).folders() == old(self).folders(),
    {
        if self.path_exists(dst) {
            return false;
        }
        match table_find(&self.files, src) {
            Some(i) => {
                proof { lemma_table_lookup(self.files@, i as int); }
                let copy = self.files[i].1.clone();
                let key = owned(dst);
                proof { lemma_table_push(self.files@, key, copy); }
                self.files.push((key, copy));
                assert(self.files() =~= old(self).files().insert(dst@, old(self).files()[src@]));
                true
            },
            None => false,
        }
    }

    /// Deletes the file at `path`, or else the folder there. Returns whether
    /// something was removed.
    pub fn delete(&mut self, path: &str) -> (removed: bool)
        requires
            old(self).wf(),
        ensures
            final(self).wf(),
            removed == (old(self).files().contains_key(path@) || old(self).folders().contains(path@)),
            old(self).files().contains_key(path@) ==> final(self).files() == old(self).files().remove(path@)
                && final(self).folders() == old(self).folders(),
            !old(self).files().contains_key(path@) ==> final(self).files() == old(self).files()
                && final(self).folders() == old(self).folders().remove(path@),
    {
        match table_find(&self.files, path) {
            Some(i) => {
                proof {
                    lemma_table_lookup(self.files@, i as int);
                    lemma_table_remove(self.files@, i as int);
                }
                self.files.remove(i);
                assert(self.files() =~= old(self).files().remove(path@));
                true
            },
            None => {
                match string_find(&self.folders, path) {
                    Some(i) => {
                        proof { lemma_string_set_remove(self.folders@, i as int); }
                        self.folders.remove(i);
                        true
                    },
                    None => {
                        assert(old(self).folders().remove(path@) =~= old(self).folders());
                        false
                    },
                }
            },
        }
    }
}

/// `needle` occurs somewhere in `hay`.
pub open spec fn occurs_in(needle: Seq<char>, hay: Seq<char>) -> bool {
    exists|q: int| 0 <= q && q + needle.len() <= hay.len() && #[trigger] hay.subrange(q, q + needle.len()) == needle
}

/// An occurrence at or after `p` is found by the search from `p`.
proof fn lemma_first_match_finds(hay: Seq<char>, needle: Seq<char>, p: int, q: int)
    requires
        0 <= p <= q,
        q + needle.len() <= hay.len(),
        hay.subrange(q, q + needle.len()) == needle,
    ensures
        first_match(hay, needle, p) is Some,
    decreases q - p,
{
    if hay.subrange(p, p + needle.len()) != needle {
        lemma_first_match_finds(hay, needle, p + 1, q);
    }
}

/// Replacing a non-empty `from` that occurs in `hay` leaves `to` in it.
proof fn lemma_replace_leaves_target(hay: Seq<char>, from: Seq<char>, to: Seq<char>)
    requires
        from.len() > 0,
        occurs_in(from, hay),
    ensures
        occurs_in(to, str_replace(hay, from, to)),
{
    let q0 = choose|q: int| 0 <= q && q + from.len() <= hay.len() && #[trigger] hay.subrange(q, q + from.len()) == from;
    lemma_first_match_finds(hay, from, 0, q0);
    lemma_first_match(hay, from, 0);
    let q = first_match(hay, from, 0)->0;
    let r = str_replace(hay, from, to);
    let a = hay.subrange(0, q);
    let rest = replace_from(hay, from, to, q + from.len());
    assert(r == a + to + rest);
    assert(r.subrange(q, q + to.len()) =~= to);
}

/// Renaming keeps links resolving: the moved file keeps its content under
/// the new path, the old path is gone, and every other file that referred
/// to the old path now refers to the new one.
pub proof fn law_rename_keeps_links_resolving(files: Map<Seq<char>, Seq<char>>, src: Seq<char>, dst: Seq<char>)
    requires
        src.len() > 0,
        src != dst,
        files.contains_key(src),
        !files.contains_key(dst),
    ensures
        renamed(files, src, dst).contains_key(dst),
        renamed(files, src, dst)[dst] == files[src],
        !renamed(files, src, dst).contains_key(src),
        forall|k: Seq<char>| k != src && #[trigger] files.contains_key(k) && occurs_in(src, files[k])
            ==> renamed(files, src, dst).contains_key(k) && occurs_in(dst, renamed(files, src, dst)[k]),
{
    assert forall|k: Seq<char>| k != src && #[trigger] files.contains_key(k) && occurs_in(src, files[k])
        implies renamed(files, src, dst).contains_key(k) && occurs_in(dst, renamed(files, src, dst)[k]) by {
        lemma_replace_leaves_target(files[k], src, dst);
    }
}

} // verus!
