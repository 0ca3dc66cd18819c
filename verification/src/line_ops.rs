//! Line operations for the script editor: duplicate, move up/down, and
//! delete a block `start..=end` of 0-based lines. Each returns the new
//! buffer and the line the caret lands on. Out-of-range indices are clamped;
//! an empty buffer, or deleting every line, leaves one empty line.

use vstd::prelude::*;

verus! {

broadcast use vstd::string::group_string_axioms;

/// The outcome of a line operation: the rewritten buffer and the caret's
/// line.
#[derive(Debug, Clone, PartialEq, Eq)]
pub struct LineOpResult {
    /// The lines after the operation.
    pub lines: Vec<String>,
    /// The 0-based line the caret should occupy afterwards.
    pub caret_line: usize,
}

/// The block clamped to the buffer: `start` and `end` pulled into range and
/// `end` raised to at least `start`.
pub open spec fn clamped(len: int, start: int, end: int) -> (int, int) {
    let s = if start < len - 1 { start } else { len - 1 };
    let e0 = if end < len - 1 { end } else { len - 1 };
    let e = if e0 > s { e0 } else { s };
    (s, e)
}

/// Clamps a `start..=end` block to the valid line range, returning
/// `(start, end)` with `start <= end < len`, or `None` for an empty buffer.
pub fn clamp_block(len: usize, start: usize, end: usize) -> (r: Option<(usize, usize)>)
    ensures
        len == 0 ==> r is None,
        len > 0 ==> (r matches Some(b) && b.0 as int == clamped(len as int, start as int, end as int).0
            && b.1 as int == clamped(len as int, start as int, end as int).1),
{
    if len == 0 {
        return None;
    }
    let s = if start < len - 1 { start } else { len - 1 };
    let e0 = if end < len - 1 { end } else { len - 1 };
    let e = if e0 > s { e0 } else { s };
    Some((s, e))
}

/// The block `s..=e` duplicated right below itself.
pub open spec fn duplicated<T>(x: Seq<T>, s: int, e: int) -> Seq<T> {
    x.subrange(0, e + 1) + x.subrange(s, e + 1) + x.subrange(e + 1, x.len() as int)
}

/// The block `s..=e` moved up past the line above it.
pub open spec fn moved_up<T>(x: Seq<T>, s: int, e: int) -> Seq<T> {
    x.subrange(0, s - 1) + x.subrange(s, e + 1) + seq![x[s - 1]] + x.subrange(e + 1, x.len() as int)
}

/// The block `s..=e` moved down past the line below it.
pub open spec fn moved_down<T>(x: Seq<T>, s: int, e: int) -> Seq<T> {
    x.subrange(0, s) + seq![x[e + 1]] + x.subrange(s, e + 1) + x.subrange(e + 2, x.len() as int)
}

/// The block `s..=e` removed.
pub open spec fn deleted<T>(x: Seq<T>, s: int, e: int) -> Seq<T> {
    x.subrange(0, s) + x.subrange(e + 1, x.len() as int)
}

/// The buffer holding a single empty line.
pub open spec fn one_empty_line(x: Seq<String>) -> bool {
    x.len() == 1 && x[0]@ == Seq::<char>::empty()
}

fn extend_clone(out: &mut Vec<String>, lines: &[String], lo: usize, hi: usize)
    requires
        lo <= hi <= lines@.len(),
    ensures
        final(out)@ == old(out)@ + lines@.subrange(lo as int, hi as int),
{
    let mut i = lo;
    while i < hi
        invariant
            lo <= i <= hi <= lines@.len(),
            out@ == old(out)@ + lines@.subrange(lo as int, i as int),
        decreases hi - i,
    {
        out.push(lines[i].clone());
        i += 1;
        assert(out@ =~= old(out)@ + lines@.subrange(lo as int, i as int));
    }
}

fn single_empty_line() -> (r: LineOpResult)
    ensures
        one_empty_line(r.lines@),
        r.caret_line == 0,
{
    let mut v: Vec<String> = Vec::new();
    v.push(String::new());
    LineOpResult { lines: v, caret_line: 0 }
}

/// Duplicates the `start..=end` block, inserting the copy directly below
/// it. The caret lands on the first line of the inserted copy.
pub fn duplicate_lines(lines: &[String], start: usize, end: usize) -> (r: LineOpResult)
    ensures
        lines@.len() == 0 ==> one_empty_line(r.lines@) && r.caret_line == 0,
        lines@.len() > 0 ==> {
            let (s, e) = clamped(lines@.len() as int, start as int, end as int);
            r.lines@ == duplicated(lines@, s, e) && r.caret_line == e + 1
        },
{
    let (s, e) = match clamp_block(lines.len(), start, end) {
        Some(b) => b,
        None => return single_empty_line(),
    };
    let mut out: Vec<String> = Vec::new();
    extend_clone(&mut out, lines, 0, e + 1);
    extend_clone(&mut out, lines, s, e + 1);
    extend_clone(&mut out, lines, e + 1, lines.len());
    LineOpResult { lines: out, caret_line: e + 1 }
}

/// Moves the `start..=end` block up one line. No-op when the block is
/// already at the top. The caret follows the block to its new first line.
pub fn move_lines_up(lines: &[String], start: usize, end: usize) -> (r: LineOpResult)
    ensures
        lines@.len() == 0 ==> one_empty_line(r.lines@) && r.caret_line == 0,
        lines@.len() > 0 ==> {
            let (s, e) = clamped(lines@.len() as int, start as int, end as int);
            if s == 0 {
                r.lines@ == lines@ && r.caret_line == 0
            } else {
                r.lines@ == moved_up(lines@, s, e) && r.caret_line == s - 1
            }
        },
{
    let (s, e) = match clamp_block(lines.len(), start, end) {
        Some(b) => b,
        None => return single_empty_line(),
    };
    let mut out: Vec<String> = Vec::new();
    if s == 0 {
        extend_clone(&mut out, lines, 0, lines.len());
        assert(out@ =~= lines@);
        return LineOpResult { lines: out, caret_line: s };
    }
    extend_clone(&mut out, lines, 0, s - 1);
    extend_clone(&mut out, lines, s, e + 1);
    out.push(lines[s - 1].clone());
    extend_clone(&mut out, lines, e + 1, lines.len());
    assert(out@ =~= moved_up(lines@, s as int, e as int));
    LineOpResult { lines: out, caret_line: s - 1 }
}

/// Moves the `start..=end` block down one line. No-op when the block is
/// already at the bottom. The caret follows the block to its new first
/// line.
pub fn move_lines_down(lines: &[String], start: usize, end: usize) -> (r: LineOpResult)
    ensures
        lines@.len() == 0 ==> one_empty_line(r.lines@) && r.caret_line == 0,
        lines@.len() > 0 ==> {
            let (s, e) = clamped(lines@.len() as int, start as int, end as int);
            if e + 1 >= lines@.len() {
                r.lines@ == lines@ && r.caret_line == s
            } else {
                r.lines@ == moved_down(lines@, s, e) && r.caret_line == s + 1
            }
        },
{
    let (s, e) = match clamp_block(lines.len(), start, end) {
        Some(b) => b,
        None => return single_empty_line(),
    };
    let mut out: Vec<String> = Vec::new();
    if e + 1 >= lines.len() {
        extend_clone(&mut out, lines, 0, lines.len());
        assert(out@ =~= lines@);
        return LineOpResult { lines: out, caret_line: s };
    }
    extend_clone(&mut out, lines, 0, s);
    out.push(lines[e + 1].clone());
    extend_clone(&mut out, lines, s, e + 1);
    extend_clone(&mut out, lines, e + 2, lines.len());
    assert(out@ =~= moved_down(lines@, s as int, e as int));
    LineOpResult { lines: out, caret_line: s + 1 }
}

/// Deletes the `start..=end` block. The caret stays at `start`, clamped to
/// the new last line. Deleting every line leaves a single empty line, caret
/// at 0.
pub fn delete_lines(lines: &[String], start: usize, end: usize) -> (r: LineOpResult)
    ensures
        lines@.len() == 0 ==> one_empty_line(r.lines@) && r.caret_line == 0,
        lines@.len() > 0 ==> {
            let (s, e) = clamped(lines@.len() as int, start as int, end as int);
            let rest = deleted(lines@, s, e);
            if rest.len() == 0 {
                one_empty_line(r.lines@) && r.caret_line == 0
            } else {
                r.lines@ == rest && r.caret_line == (if s < rest.len() - 1 { s } else { rest.len() - 1 })
            }
        },
{
    let (s, e) = match clamp_block(lines.len(), start, end) {
        Some(b) => b,
        None => return single_empty_line(),
    };
    let mut out: Vec<String> = Vec::new();
    extend_clone(&mut out, lines, 0, s);
    extend_clone(&mut out, lines, e + 1, lines.len());
    if out.len() == 0 {
        return single_empty_line();
    }
    let last = out.len() - 1;
    let caret_line = if s < last { s } else { last };
    LineOpResult { lines: out, caret_line }
}

/// Moving a block up and then back down restores the buffer.
pub proof fn law_move_up_then_down<T>(x: Seq<T>, s: int, e: int)
    requires
        0 < s <= e < x.len(),
    ensures
        moved_down(moved_up(x, s, e), s - 1, e - 1) == x,
{
    let y = moved_up(x, s, e);
    assert(y.len() == x.len());
    assert(y[e] == x[s - 1]);
    assert(moved_down(y, s - 1, e - 1) =~= x);
}

/// Moving a block down and then back up restores the buffer.
pub proof fn law_move_down_then_up<T>(x: Seq<T>, s: int, e: int)
    requires
        0 <= s <= e && e + 1 < x.len(),
    ensures
        moved_up(moved_down(x, s, e), s + 1, e + 1) == x,
{
    let y = moved_down(x, s, e);
    assert(y.len() == x.len());
    assert(y[s] == x[e + 1]);
    assert(moved_up(y, s + 1, e + 1) =~= x);
}

/// Moving and duplicating keep or grow the buffer as expected: a move keeps
/// the line count, a duplicate adds the block's length.
pub proof fn law_line_counts<T>(x: Seq<T>, s: int, e: int)
    requires
        0 <= s <= e < x.len(),
    ensures
        s > 0 ==> moved_up(x, s, e).len() == x.len(),
        e + 1 < x.len() ==> moved_down(x, s, e).len() == x.len(),
        duplicated(x, s, e).len() == x.len() + (e - s + 1),
        deleted(x, s, e).len() == x.len() - (e - s + 1),
{
}

} // verus!
