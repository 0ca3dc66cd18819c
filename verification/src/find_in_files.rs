//! Project-wide "find in files" for the script editor: scans `(path,
//! content)` pairs for a query and groups the matches per file, each with
//! its 1-based line, 1-based character column and the full line as context.
//! Files without a match are omitted.

use vstd::prelude::*;
use crate::text::{chars_of, find_from, first_match, lemma_first_match, owned, string_from_chars, to_lowercase, unicode_lowercase};

verus! {

broadcast use vstd::string::group_string_axioms;

/// A single match within a file.
#[derive(Debug, Clone, PartialEq, Eq)]
pub struct Match {
    /// 1-based line number.
    pub line: usize,
    /// 1-based column (character offset) where the match begins.
    pub column: usize,
    /// The full text of the matched line, for display context.
    pub context: String,
}

/// All matches found within a single file.
#[derive(Debug, Clone, PartialEq, Eq)]
pub struct FileMatches {
    /// The file's path.
    pub path: String,
    /// Matches in the file, ordered by line then column.
    pub matches: Vec<Match>,
}

/// Search options.
#[derive(Debug, Clone, Copy, PartialEq, Eq, Structural)]
pub struct SearchOptions {
    /// Match case exactly when true; case-insensitive when false.
    pub case_sensitive: bool,
}

/// A navigation target produced by activating a search result.
#[derive(Debug, Clone, PartialEq, Eq)]
pub struct OpenLocation {
    /// The file to open.
    pub path: String,
    /// 1-based line to place the caret on.
    pub line: usize,
    /// 1-based column to place the caret on.
    pub column: usize,
}

/// A match as plain values: (line, column, context).
pub type MatchView = (usize, usize, Seq<char>);

impl View for Match {
    type V = MatchView;

    open spec fn view(&self) -> MatchView {
        (self.line, self.column, self.context@)
    }
}

impl View for FileMatches {
    type V = (Seq<char>, Seq<MatchView>);

    open spec fn view(&self) -> (Seq<char>, Seq<MatchView>) {
        (self.path@, self.matches@.map_values(|m: Match| m@))
    }
}

impl View for OpenLocation {
    type V = (Seq<char>, usize, usize);

    open spec fn view(&self) -> (Seq<char>, usize, usize) {
        (self.path@, self.line, self.column)
    }
}

/// Index of the first `'\n'` at or after `j`, or `s.len()` if none.
pub open spec fn newline_at(s: Seq<char>, j: int) -> int
    decreases s.len() - j,
{
    if j >= s.len() || s[j] == '\n' {
        j
    } else {
        newline_at(s, j + 1)
    }
}

pub proof fn lemma_newline_at(s: Seq<char>, j: int)
    requires
        0 <= j <= s.len(),
    ensures
        j <= newline_at(s, j) <= s.len(),
        newline_at(s, j) < s.len() ==> s[newline_at(s, j)] == '\n',
        forall|t: int| j <= t < newline_at(s, j) ==> s[t] != '\n',
    decreases s.len() - j,
{
    if !(j >= s.len() || s[j] == '\n') {
        lemma_newline_at(s, j + 1);
    }
}

/// A line terminated by `"\r\n"` loses its `'\r'`.
pub open spec fn strip_cr(line: Seq<char>) -> Seq<char> {
    if line.len() > 0 && line.last() == '\r' {
        line.drop_last()
    } else {
        line
    }
}

/// The lines of `s` from index `j`, as `str::lines` yields them: split at
/// `'\n'`, a `'\r'` before the `'\n'` dropped, and no empty line after a
/// final `'\n'`.
pub open spec fn lines_from(s: Seq<char>, j: int) -> Seq<Seq<char>>
    decreases s.len() - j,
{
    if j < 0 || j >= s.len() {
        seq![]
    } else {
        let k = newline_at(s, j);
        proof { lemma_newline_at(s, j); }
        if k >= s.len() {
            seq![s.subrange(j, s.len() as int)]
        } else {
            seq![strip_cr(s.subrange(j, k))] + lines_from(s, k + 1)
        }
    }
}

/// The lines of `s`.
pub open spec fn lines_of(s: Seq<char>) -> Seq<Seq<char>> {
    lines_from(s, 0)
}

/// The successive non-overlapping occurrences of a non-empty `needle` in
/// `hay`, searching from `p`, each search resuming just past the previous
/// occurrence.
pub open spec fn occurrences(hay: Seq<char>, needle: Seq<char>, p: int) -> Seq<int>
    decreases hay.len() - p,
{
    if needle.len() == 0 || p < 0 {
        seq![]
    } else {
        match first_match(hay, needle, p) {
            Some(q) => {
                proof { lemma_first_match(hay, needle, p); }
                seq![q] + occurrences(hay, needle, q + needle.len())
            },
            None => seq![],
        }
    }
}

/// The text searched for a line or query under the given case option.
pub open spec fn fold_case(s: Seq<char>, case_sensitive: bool) -> Seq<char> {
    if case_sensitive {
        s
    } else {
        unicode_lowercase(s)
    }
}

/// The matches of `needle` on `line` (0-based index `idx`).
pub open spec fn line_matches(line: Seq<char>, idx: int, needle: Seq<char>, cs: bool) -> Seq<MatchView> {
    occurrences(fold_case(line, cs), needle, 0).map_values(
        |q: int| ((idx + 1) as usize, (q + 1) as usize, line),
    )
}

/// The matches on the first `n` lines.
pub open spec fn lines_matches(lines: Seq<Seq<char>>, n: int, needle: Seq<char>, cs: bool) -> Seq<MatchView>
    decreases n,
{
    if n <= 0 {
        seq![]
    } else {
        lines_matches(lines, n - 1, needle, cs) + line_matches(lines[n - 1], n - 1, needle, cs)
    }
}

/// The matches of `needle` in `content`, line by line.
pub open spec fn content_matches(content: Seq<char>, needle: Seq<char>, cs: bool) -> Seq<MatchView> {
    lines_matches(lines_of(content), lines_of(content).len() as int, needle, cs)
}

/// The per-file groups for the first `n` files; files without a match are
/// left out.
pub open spec fn results_upto(files: Seq<(Seq<char>, Seq<char>)>, n: int, needle: Seq<char>, cs: bool) -> Seq<(Seq<char>, Seq<MatchView>)>
    decreases n,
{
    if n <= 0 {
        seq![]
    } else {
        let m = content_matches(files[n - 1].1, needle, cs);
        if m.len() > 0 {
            results_upto(files, n - 1, needle, cs).push((files[n - 1].0, m))
        } else {
            results_upto(files, n - 1, needle, cs)
        }
    }
}

/// The files as plain values.
pub open spec fn files_view(files: Seq<(&str, &str)>) -> Seq<(Seq<char>, Seq<char>)> {
    files.map_values(|f: (&str, &str)| (f.0@, f.1@))
}

/// The result of searching `files` for `query`.
pub open spec fn search_results(files: Seq<(&str, &str)>, query: Seq<char>, cs: bool) -> Seq<(Seq<char>, Seq<MatchView>)> {
    if query.len() == 0 {
        seq![]
    } else {
        results_upto(files_view(files), files.len() as int, fold_case(query, cs), cs)
    }
}


/// Copies `s[lo..hi]`.
pub fn copy_range(s: &[char], lo: usize, hi: usize) -> (r: Vec<char>)
    requires
        lo <= hi <= s@.len(),
    ensures
        r@ == s@.subrange(lo as int, hi as int),
{
    let mut r: Vec<char> = Vec::new();
    let mut t = lo;
    while t < hi
        invariant
            lo <= t <= hi <= s@.len(),
            r@ == s@.subrange(lo as int, t as int),
        decreases hi - t,
    {
        r.push(s[t]);
        t += 1;
        assert(r@ =~= s@.subrange(lo as int, t as int));
    }
    r
}

/// The lines of `s`, as `str::lines` yields them.
pub fn split_lines(s: &[char]) -> (v: Vec<Vec<char>>)
    ensures
        v@.len() == lines_of(s@).len(),
        forall|i: int| 0 <= i < v@.len() ==> #[trigger] v@[i]@ == lines_of(s@)[i],
{
    let mut v: Vec<Vec<char>> = Vec::new();
    let ghost mut done: Seq<Seq<char>> = seq![];
    let n = s.len();
    let mut j: usize = 0;
    while j < n
        invariant
            n == s@.len(),
            j <= n,
            lines_of(s@) == done + lines_from(s@, j as int),
            v@.len() == done.len(),
            forall|i: int| 0 <= i < v@.len() ==> #[trigger] v@[i]@ == done[i],
        decreases n - j,
    {
        let ghost j0 = j as int;
        let mut k = j;
        while k < n && s[k] != '\n'
            invariant
                n == s@.len(),
                j <= k <= n,
                newline_at(s@, j as int) == newline_at(s@, k as int),
            decreases n - k,
        {
            k += 1;
        }
        proof { lemma_newline_at(s@, k as int); }
        if k >= n {
            let line = copy_range(s, j, n);
            proof {
                assert(lines_from(s@, j0) == seq![s@.subrange(j0, n as int)]);
                done = done.push(line@);
                assert(lines_from(s@, n as int) == Seq::<Seq<char>>::empty());
            }
            v.push(line);
            j = n;
            proof {
                assert(lines_of(s@) =~= done + lines_from(s@, j as int));
            }
        } else {
            let mut hi = k;
            if hi > j && s[hi - 1] == '\r' {
                hi = hi - 1;
            }
            let line = copy_range(s, j, hi);
            proof {
                let full = s@.subrange(j0, k as int);
                assert(strip_cr(full) =~= line@);
                assert(lines_from(s@, j0) == seq![strip_cr(full)] + lines_from(s@, k + 1));
                done = done.push(line@);
            }
            v.push(line);
            j = k + 1;
            proof {
                assert(lines_of(s@) =~= done + lines_from(s@, j as int));
            }
        }
    }
    assert(lines_from(s@, j as int) == Seq::<Seq<char>>::empty());
    assert(done + lines_from(s@, j as int) =~= done);
    v
}

/// The matches of a non-empty `needle` on one line.
fn match_line(line: &Vec<char>, idx: usize, needle: &[char], cs: bool) -> (r: Vec<Match>)
    requires
        needle@.len() > 0,
        idx < usize::MAX,
    ensures
        r@.map_values(|m: Match| m@) == line_matches(line@, idx as int, needle@, cs),
{
    let line_str = string_from_chars(line.as_slice());
    let hay: Vec<char> = if cs {
        chars_of(line_str.as_str())
    } else {
        let lower = to_lowercase(line_str.as_str());
        chars_of(lower.as_str())
    };
    assert(hay@ == fold_case(line@, cs));
    let ghost occ = occurrences(hay@, needle@, 0);
    let hay_len = hay.len();
    let mut out: Vec<Match> = Vec::new();
    let ghost mut found: Seq<int> = seq![];
    let mut start: usize = 0;
    let mut more = true;
    while more
        invariant
            needle@.len() > 0,
            idx < usize::MAX,
            hay@ == fold_case(line@, cs),
            hay_len == hay@.len(),
            occ == occurrences(hay@, needle@, 0),
            more ==> occ == found + occurrences(hay@, needle@, start as int),
            !more ==> occ == found,
            start <= hay@.len() + needle@.len(),
            forall|t: int| 0 <= t < found.len() ==> 0 <= #[trigger] found[t] < hay@.len(),
            out@.len() == found.len(),
            forall|t: int| 0 <= t < out@.len() ==> #[trigger] out@[t]@ == ((idx + 1) as usize, (found[t] + 1) as usize, line@),
        decreases (hay@.len() + needle@.len() - start) * 2 + (if more { 1int } else { 0int }),
    {
        match find_from(hay.as_slice(), needle, start) {
            Some(pos) => {
                proof {
                    lemma_first_match(hay@, needle@, start as int);
                    assert(first_match(hay@, needle@, start as int) == Some(pos as int));
                    assert(pos < hay@.len());
                }
                let ctx = string_from_chars(line.as_slice());
                out.push(Match { line: idx + 1, column: pos + 1, context: ctx });
                proof {
                    found = found.push(pos as int);
                    assert(occurrences(hay@, needle@, start as int) == seq![pos as int] + occurrences(hay@, needle@, pos + needle@.len()));
                    assert(occ =~= found + occurrences(hay@, needle@, pos + needle@.len()));
                }
                start = pos + needle.len();
            },
            None => {
                proof {
                    assert(occurrences(hay@, needle@, start as int) == Seq::<int>::empty());
                    assert(occ =~= found);
                }
                more = false;
            },
        }
    }
    assert(out@.map_values(|m: Match| m@) =~= line_matches(line@, idx as int, needle@, cs));
    out
}


/// Searches every `(path, content)` pair for `query`, returning per-file
/// match groups in input order (files with no match omitted). An empty query
/// yields no results. Multiple matches on one line are all reported.
pub fn find_in_files(files: &[(&str, &str)], query: &str, opts: SearchOptions) -> (out: Vec<FileMatches>)
    ensures
        out@.map_values(|f: FileMatches| f@) == search_results(files@, query@, opts.case_sensitive),
{
    let mut out: Vec<FileMatches> = Vec::new();
    if query.is_empty() {
        assert(out@.map_values(|f: FileMatches| f@) =~= search_results(files@, query@, opts.case_sensitive));
        return out;
    }
    let cs = opts.case_sensitive;
    let needle: Vec<char> = if cs {
        chars_of(query)
    } else {
        let lower = to_lowercase(query);
        chars_of(lower.as_str())
    };
    let ghost fv = files_view(files@);
    let mut k: usize = 0;
    while k < files.len()
        invariant
            query@.len() > 0,
            needle@ == fold_case(query@, cs),
            needle@.len() > 0,
            fv == files_view(files@),
            k <= files@.len(),
            out@.map_values(|f: FileMatches| f@) == results_upto(fv, k as int, needle@, cs),
        decreases files@.len() - k,
    {
        let (path, content) = files[k];
        let cchars = chars_of(content);
        let lines = split_lines(cchars.as_slice());
        let ghost ls = lines_of(content@);
        let mut fm: Vec<Match> = Vec::new();
        let mut i: usize = 0;
        while i < lines.len()
            invariant
                needle@.len() > 0,
                cchars@ == content@,
                ls == lines_of(content@),
                lines@.len() == ls.len(),
                forall|t: int| 0 <= t < lines@.len() ==> #[trigger] lines@[t]@ == ls[t],
                i <= lines@.len(),
                fm@.map_values(|m: Match| m@) == lines_matches(ls, i as int, needle@, cs),
            decreases lines@.len() - i,
        {
            let mut ms = match_line(&lines[i], i, needle.as_slice(), cs);
            let ghost before = fm@;
            let ghost added = ms@;
            fm.append(&mut ms);
            assert(fm@.map_values(|m: Match| m@) =~= before.map_values(|m: Match| m@) + added.map_values(|m: Match| m@));
            i += 1;
        }
        assert(fv[k as int] == (path@, content@));
        if fm.len() > 0 {
            let ghost before = out@;
            out.push(FileMatches { path: owned(path), matches: fm });
            assert(out@.map_values(|f: FileMatches| f@) =~= results_upto(fv, k + 1, needle@, cs));
        } else {
            assert(out@.map_values(|f: FileMatches| f@) =~= results_upto(fv, k + 1, needle@, cs));
        }
        k += 1;
    }
    out
}

/// Resolves the navigation target for the `m`-th match of the `file`-th
/// result group. Returns `None` if either index is out of range.
pub fn open_location(results: &[FileMatches], file: usize, m: usize) -> (r: Option<OpenLocation>)
    ensures
        match r {
            Some(loc) => file < results@.len() && m < results@[file as int].matches@.len()
                && loc@ == (results@[file as int].path@,
                    results@[file as int].matches@[m as int].line,
                    results@[file as int].matches@[m as int].column),
            None => file >= results@.len() || m >= results@[file as int].matches@.len(),
        },
{
    if file >= results.len() {
        return None;
    }
    let f = &results[file];
    if m >= f.matches.len() {
        return None;
    }
    let mm = &f.matches[m];
    Some(OpenLocation { path: f.path.clone(), line: mm.line, column: mm.column })
}

/// Without case sensitivity the search depends on the query only up to
/// case: two queries with the same lowercase (both empty or both not) find
/// exactly the same matches.
pub proof fn law_case_insensitive_search_ignores_query_case(files: Seq<(&str, &str)>, q1: Seq<char>, q2: Seq<char>)
    requires
        unicode_lowercase(q1) == unicode_lowercase(q2),
        (q1.len() == 0) == (q2.len() == 0),
    ensures
        search_results(files, q1, false) == search_results(files, q2, false),
{
}

/// A text that holds `needle` at `p0` has a first occurrence at or after
/// any `p <= p0`.
proof fn lemma_first_match_found<T>(hay: Seq<T>, needle: Seq<T>, p: int, p0: int)
    requires
        0 <= p <= p0,
        p0 + needle.len() <= hay.len(),
        hay.subrange(p0, p0 + needle.len()) == needle,
    ensures
        first_match(hay, needle, p) is Some,
    decreases p0 - p,
{
    if p < p0 && hay.subrange(p, p + needle.len()) != needle {
        lemma_first_match_found(hay, needle, p + 1, p0);
    }
}

/// The matches of the first `n` lines include those of each line before
/// `n`.
proof fn lemma_lines_matches_keeps_line(lines: Seq<Seq<char>>, n: int, idx: int, needle: Seq<char>, cs: bool)
    requires
        0 <= idx < n <= lines.len(),
        line_matches(lines[idx], idx, needle, cs).len() > 0,
    ensures
        exists|t: int| 0 <= t < lines_matches(lines, n, needle, cs).len()
            && (#[trigger] lines_matches(lines, n, needle, cs)[t]).0 == (idx + 1) as usize,
    decreases n,
{
    let lm = line_matches(lines[idx], idx, needle, cs);
    if n == idx + 1 {
        let prev = lines_matches(lines, n - 1, needle, cs);
        let all = lines_matches(lines, n, needle, cs);
        assert(all[prev.len() as int] == lm[0]);
    } else {
        lemma_lines_matches_keeps_line(lines, n - 1, idx, needle, cs);
        let prev = lines_matches(lines, n - 1, needle, cs);
        let all = lines_matches(lines, n, needle, cs);
        let t = choose|t: int| 0 <= t < prev.len() && (#[trigger] prev[t]).0 == (idx + 1) as usize;
        assert(all[t] == prev[t]);
    }
}

/// The groups for the first `n` files include that of each file before `n`
/// that has a match.
proof fn lemma_results_keep_file(files: Seq<(Seq<char>, Seq<char>)>, n: int, k: int, needle: Seq<char>, cs: bool)
    requires
        0 <= k < n <= files.len(),
        content_matches(files[k].1, needle, cs).len() > 0,
    ensures
        exists|g: int| 0 <= g < results_upto(files, n, needle, cs).len()
            && #[trigger] results_upto(files, n, needle, cs)[g] == (files[k].0, content_matches(files[k].1, needle, cs)),
    decreases n,
{
    if n == k + 1 {
        let prev = results_upto(files, n - 1, needle, cs);
        assert(results_upto(files, n, needle, cs)[prev.len() as int] == (files[k].0, content_matches(files[k].1, needle, cs)));
    } else {
        lemma_results_keep_file(files, n - 1, k, needle, cs);
        let prev = results_upto(files, n - 1, needle, cs);
        let g = choose|g: int| 0 <= g < prev.len()
            && #[trigger] prev[g] == (files[k].0, content_matches(files[k].1, needle, cs));
        let m = content_matches(files[n - 1].1, needle, cs);
        if m.len() > 0 {
            assert(results_upto(files, n, needle, cs)[g] == prev[g]);
        } else {
            assert(results_upto(files, n, needle, cs) == prev);
            assert(results_upto(files, n, needle, cs)[g] == prev[g]);
        }
    }
}

/// Without case sensitivity, a line whose lowercase holds the query's
/// lowercase is found: the file's group lists a match on that line.
pub proof fn law_line_holding_query_up_to_case_is_found(
    files: Seq<(&str, &str)>,
    k: int,
    query: Seq<char>,
    idx: int,
    p: int,
)
    requires
        0 <= k < files.len(),
        query.len() > 0,
        unicode_lowercase(query).len() > 0,
        0 <= idx < lines_of(files[k].1@).len(),
        0 <= p,
        p + unicode_lowercase(query).len() <= unicode_lowercase(lines_of(files[k].1@)[idx]).len(),
        unicode_lowercase(lines_of(files[k].1@)[idx]).subrange(p, p + unicode_lowercase(query).len())
            == unicode_lowercase(query),
    ensures
        exists|g: int| 0 <= g < search_results(files, query, false).len()
            && (#[trigger] search_results(files, query, false)[g]).0 == files[k].0@
            && exists|t: int| 0 <= t < search_results(files, query, false)[g].1.len()
                && (#[trigger] search_results(files, query, false)[g].1[t]).0 == (idx + 1) as usize,
{
    let fv = files_view(files);
    let needle = unicode_lowercase(query);
    let content = files[k].1@;
    let lines = lines_of(content);
    let hay = unicode_lowercase(lines[idx]);
    lemma_first_match_found(hay, needle, 0, p);
    assert(occurrences(hay, needle, 0).len() > 0);
    assert(line_matches(lines[idx], idx, needle, false).len() > 0);
    lemma_lines_matches_keeps_line(lines, lines.len() as int, idx, needle, false);
    assert(fv[k] == (files[k].0@, files[k].1@));
    let cm = content_matches(fv[k].1, needle, false);
    assert(cm.len() > 0);
    lemma_results_keep_file(fv, files.len() as int, k, needle, false);
    let res = search_results(files, query, false);
    let g = choose|g: int| 0 <= g < results_upto(fv, files.len() as int, needle, false).len()
        && #[trigger] results_upto(fv, files.len() as int, needle, false)[g] == (fv[k].0, cm);
    assert(res[g] == (fv[k].0, cm));
    let t = choose|t: int| 0 <= t < cm.len() && (#[trigger] cm[t]).0 == (idx + 1) as usize;
    assert(res[g].1[t].0 == (idx + 1) as usize);
}

} // verus!
