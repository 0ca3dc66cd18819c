//! Goto-definition for the script editor: resolves the identifier under the
//! caret to the 1-based line where the script declares it with `func`,
//! `static func`, `var`, `const`, `signal`, `class` or `enum`. It is a no-op
//! (`None`) when the caret is not on an identifier or the symbol has no
//! definition in the script.

use vstd::prelude::*;
use crate::find_in_files::{copy_range, lines_of, split_lines};
use crate::text::{chars_eq, chars_of, string_from_chars};

verus! {

broadcast use vstd::string::group_string_axioms;

/// ASCII letter or digit.
pub open spec fn is_ascii_alnum(c: char) -> bool {
    ('a' <= c <= 'z') || ('A' <= c <= 'Z') || ('0' <= c <= '9')
}

/// Whether `c` can appear in an identifier.
pub open spec fn is_ident_char(c: char) -> bool {
    is_ascii_alnum(c) || c == '_'
}

fn ident_char(c: char) -> (r: bool)
    ensures
        r == is_ident_char(c),
{
    ('a' <= c && c <= 'z') || ('A' <= c && c <= 'Z') || ('0' <= c && c <= '9') || c == '_'
}

/// A character with the Unicode `White_Space` property (what
/// `char::is_whitespace` tests).
pub open spec fn is_unicode_whitespace(c: char) -> bool {
    ('\u{9}' <= c <= '\u{d}') || c == ' ' || c == '\u{85}' || c == '\u{a0}' || c == '\u{1680}'
        || ('\u{2000}' <= c <= '\u{200a}') || c == '\u{2028}' || c == '\u{2029}' || c == '\u{202f}'
        || c == '\u{205f}' || c == '\u{3000}'
}

/// Whether `c` has the Unicode `White_Space` property.
pub fn whitespace(c: char) -> (r: bool)
    ensures
        r == is_unicode_whitespace(c),
{
    ('\u{9}' <= c && c <= '\u{d}') || c == ' ' || c == '\u{85}' || c == '\u{a0}' || c == '\u{1680}'
        || ('\u{2000}' <= c && c <= '\u{200a}') || c == '\u{2028}' || c == '\u{2029}' || c == '\u{202f}'
        || c == '\u{205f}' || c == '\u{3000}'
}

/// The number of leading whitespace characters of `s`.
pub open spec fn leading_ws(s: Seq<char>) -> int
    decreases s.len(),
{
    if s.len() == 0 || !is_unicode_whitespace(s[0]) {
        0
    } else {
        1 + leading_ws(s.drop_first())
    }
}

/// `s` without its leading whitespace (`str::trim_start`).
pub open spec fn trim_start(s: Seq<char>) -> Seq<char> {
    s.skip(leading_ws(s))
}

/// The number of leading identifier characters of `s`.
pub open spec fn ident_len(s: Seq<char>) -> int
    decreases s.len(),
{
    if s.len() == 0 || !is_ident_char(s[0]) {
        0
    } else {
        1 + ident_len(s.drop_first())
    }
}

/// The declaration keywords that introduce a definition, longest first so
/// that `static func` is tried before `func`.
pub open spec fn def_keywords() -> Seq<Seq<char>> {
    seq!["static func "@, "func "@, "var "@, "const "@, "signal "@, "class "@, "enum "@]
}

fn def_keyword_strs() -> (v: Vec<&'static str>)
    ensures
        v@.len() == def_keywords().len(),
        forall|k: int| 0 <= k < v@.len() ==> v@[k]@ == #[trigger] def_keywords()[k],
{
    vec!["static func ", "func ", "var ", "const ", "signal ", "class ", "enum "]
}

/// The name defined by a (trimmed) line, trying keywords from index `k` on:
/// the first keyword the line starts with that is followed by a non-empty
/// identifier.
pub open spec fn def_name_from(t: Seq<char>, k: int) -> Option<Seq<char>>
    decreases def_keywords().len() - k,
{
    if k < 0 || k >= def_keywords().len() {
        None
    } else {
        let kw = def_keywords()[k];
        if kw.len() <= t.len() && t.subrange(0, kw.len() as int) == kw
            && ident_len(t.skip(kw.len() as int)) > 0 {
            let rest = t.skip(kw.len() as int);
            Some(rest.take(ident_len(rest)))
        } else {
            def_name_from(t, k + 1)
        }
    }
}

/// If `line` is a definition, the defined symbol name.
pub open spec fn def_name_of(line: Seq<char>) -> Option<Seq<char>> {
    def_name_from(trim_start(line), 0)
}

proof fn lemma_leading_ws(s: Seq<char>)
    ensures
        0 <= leading_ws(s) <= s.len(),
    decreases s.len(),
{
    if !(s.len() == 0 || !is_unicode_whitespace(s[0])) {
        lemma_leading_ws(s.drop_first());
    }
}

proof fn lemma_ident_len(s: Seq<char>)
    ensures
        0 <= ident_len(s) <= s.len(),
        forall|i: int| 0 <= i < ident_len(s) ==> is_ident_char(#[trigger] s[i]),
        ident_len(s) < s.len() ==> !is_ident_char(s[ident_len(s)]),
    decreases s.len(),
{
    if !(s.len() == 0 || !is_ident_char(s[0])) {
        lemma_ident_len(s.drop_first());
        assert forall|i: int| 0 <= i < ident_len(s) implies is_ident_char(#[trigger] s[i]) by {
            if i > 0 {
                assert(s[i] == s.drop_first()[i - 1]);
            }
        }
    }
}

/// The number of leading identifier characters of `s[from..]`.
fn ident_run(s: &[char], from: usize) -> (n: usize)
    requires
        from <= s@.len(),
    ensures
        n == ident_len(s@.skip(from as int)),
        from + n <= s@.len(),
{
    let mut i = from;
    assert(s@.skip(from as int) =~= s@.skip(i as int));
    while i < s.len() && ident_char(s[i])
        invariant
            from <= i <= s@.len(),
            ident_len(s@.skip(from as int)) == (i - from) + ident_len(s@.skip(i as int)),
        decreases s@.len() - i,
    {
        assert(s@.skip(i as int).drop_first() =~= s@.skip(i + 1));
        i += 1;
    }
    i - from
}

/// If `line` is a definition, returns the defined symbol name.
fn def_name(line: &str) -> (r: Option<Vec<char>>)
    ensures
        match (r, def_name_of(line@)) {
            (Some(n), Some(m)) => n@ == m,
            (None, None) => true,
            _ => false,
        },
{
    let cs = chars_of(line);
    let mut start: usize = 0;
    assert(cs@.skip(0) =~= cs@);
    while start < cs.len() && whitespace(cs[start])
        invariant
            cs@ == line@,
            start <= cs@.len(),
            leading_ws(cs@) == start + leading_ws(cs@.skip(start as int)),
        decreases cs@.len() - start,
    {
        assert(cs@.skip(start as int).drop_first() =~= cs@.skip(start + 1));
        start += 1;
    }
    let ghost t = trim_start(line@);
    assert(t =~= cs@.skip(start as int));
    let kws = def_keyword_strs();
    let mut k: usize = 0;
    while k < kws.len()
        invariant
            cs@ == line@,
            start <= cs@.len(),
            t == cs@.skip(start as int),
            kws@.len() == def_keywords().len(),
            forall|j: int| 0 <= j < kws@.len() ==> kws@[j]@ == #[trigger] def_keywords()[j],
            k <= kws@.len(),
            def_name_of(line@) == def_name_from(t, k as int),
        decreases kws@.len() - k,
    {
        let kw = chars_of(kws[k]);
        assert(kw@ == def_keywords()[k as int]);
        if kw.len() <= cs.len() - start {
            let head = copy_range(cs.as_slice(), start, start + kw.len());
            assert(head@ =~= t.subrange(0, kw@.len() as int));
            if chars_eq(head.as_slice(), kw.as_slice()) {
                let after = start + kw.len();
                let n = ident_run(cs.as_slice(), after);
                assert(cs@.skip(after as int) =~= t.skip(kw@.len() as int));
                if n > 0 {
                    let name = copy_range(cs.as_slice(), after, after + n);
                    assert(name@ =~= t.skip(kw@.len() as int).take(n as int));
                    return Some(name);
                }
            }
        }
        k += 1;
    }
    None
}

/// The first line, from index `i` on, that defines `symbol`, as a 1-based
/// line number.
pub open spec fn first_definition(lines: Seq<Seq<char>>, symbol: Seq<char>, i: int) -> Option<int>
    decreases lines.len() - i,
{
    if i < 0 || i >= lines.len() {
        None
    } else if def_name_of(lines[i]) == Some(symbol) {
        Some(i + 1)
    } else {
        first_definition(lines, symbol, i + 1)
    }
}

/// The 1-based line where `symbol` is defined in `source`, or `None` if it
/// has no definition. Returns the first matching definition in document
/// order.
pub fn find_definition(source: &str, symbol: &str) -> (r: Option<usize>)
    ensures
        match first_definition(lines_of(source@), symbol@, 0) {
            Some(n) => r == Some(n as usize),
            None => r is None,
        },
{
    let cs = chars_of(source);
    let lines = split_lines(cs.as_slice());
    let sym = chars_of(symbol);
    let ghost ls = lines_of(source@);
    let mut i: usize = 0;
    while i < lines.len()
        invariant
            cs@ == source@,
            ls == lines_of(source@),
            lines@.len() == ls.len(),
            forall|t: int| 0 <= t < lines@.len() ==> #[trigger] lines@[t]@ == ls[t],
            sym@ == symbol@,
            i <= lines@.len(),
            first_definition(ls, symbol@, 0) == first_definition(ls, symbol@, i as int),
        decreases lines@.len() - i,
    {
        let line_str = string_from_chars(lines[i].as_slice());
        match def_name(line_str.as_str()) {
            Some(name) => {
                if chars_eq(name.as_slice(), sym.as_slice()) {
                    return Some(i + 1);
                }
            },
            None => {},
        }
        i += 1;
    }
    None
}

/// The start of the identifier run around `col` (walking left).
pub open spec fn run_start(cs: Seq<char>, col: int) -> int
    decreases col,
{
    if col <= 0 || !is_ident_char(cs[col - 1]) {
        col
    } else {
        run_start(cs, col - 1)
    }
}

/// The end of the identifier run from `col` (walking right).
pub open spec fn run_end(cs: Seq<char>, col: int) -> int
    decreases cs.len() - col,
{
    if col >= cs.len() || !is_ident_char(cs[col]) {
        col
    } else {
        run_end(cs, col + 1)
    }
}

/// The identifier covering character column `col` of `line`, if that
/// column is on an identifier character.
pub open spec fn symbol_at_spec(line: Seq<char>, col: int) -> Option<Seq<char>> {
    if col < 0 || col >= line.len() || !is_ident_char(line[col]) {
        None
    } else {
        Some(line.subrange(run_start(line, col), run_end(line, col)))
    }
}

proof fn lemma_run_start(cs: Seq<char>, col: int)
    requires
        0 <= col <= cs.len(),
    ensures
        0 <= run_start(cs, col) <= col,
    decreases col,
{
    if !(col <= 0 || !is_ident_char(cs[col - 1])) {
        lemma_run_start(cs, col - 1);
    }
}

proof fn lemma_run_end(cs: Seq<char>, col: int)
    requires
        0 <= col <= cs.len(),
    ensures
        col <= run_end(cs, col) <= cs.len(),
    decreases cs.len() - col,
{
    if !(col >= cs.len() || !is_ident_char(cs[col])) {
        lemma_run_end(cs, col + 1);
    }
}

/// The identifier covering character column `col` (0-based) in `line`, or
/// `None` if that position is not on an identifier character.
pub fn symbol_at(line: &str, col: usize) -> (r: Option<String>)
    ensures
        match (r, symbol_at_spec(line@, col as int)) {
            (Some(s), Some(t)) => s@ == t,
            (None, None) => true,
            _ => false,
        },
{
    let chars = chars_of(line);
    if col >= chars.len() || !ident_char(chars[col]) {
        return None;
    }
    let mut start = col;
    while start > 0 && ident_char(chars[start - 1])
        invariant
            chars@ == line@,
            start <= col < chars@.len(),
            run_start(chars@, col as int) == run_start(chars@, start as int),
        decreases start,
    {
        start -= 1;
    }
    let mut end = col;
    while end < chars.len() && ident_char(chars[end])
        invariant
            chars@ == line@,
            col <= end <= chars@.len(),
            run_end(chars@, col as int) == run_end(chars@, end as int),
        decreases chars@.len() - end,
    {
        end += 1;
    }
    let piece = copy_range(chars.as_slice(), start, end);
    Some(string_from_chars(piece.as_slice()))
}

/// Resolves the identifier at column `col` of `caret_line` to its
/// definition line (1-based) in `source`. Returns `None` when the caret is
/// not on an identifier or the symbol is unresolved.
pub fn goto_definition(source: &str, caret_line: &str, col: usize) -> (r: Option<usize>)
    ensures
        match symbol_at_spec(caret_line@, col as int) {
            None => r is None,
            Some(sym) => match first_definition(lines_of(source@), sym, 0) {
                Some(n) => r == Some(n as usize),
                None => r is None,
            },
        },
{
    let symbol = match symbol_at(caret_line, col) {
        Some(s) => s,
        None => return None,
    };
    find_definition(source, symbol.as_str())
}


/// An ASCII letter, an ASCII digit or `_`, written out character class by
/// character class.
pub open spec fn letter_digit_or_underscore(c: char) -> bool {
    ||| ('a' <= c && c <= 'z')
    ||| ('A' <= c && c <= 'Z')
    ||| ('0' <= c && c <= '9')
    ||| c == '_'
}

/// The identifier run of `name + tail` is all of `name` when `name` is made
/// of identifier characters and `tail` does not continue it.
proof fn lemma_ident_len_of_word(name: Seq<char>, tail: Seq<char>)
    requires
        forall|i: int| 0 <= i < name.len() ==> letter_digit_or_underscore(#[trigger] name[i]),
        tail.len() == 0 || !letter_digit_or_underscore(tail[0]),
    ensures
        ident_len(name + tail) == name.len(),
    decreases name.len(),
{
    if name.len() == 0 {
        assert(name + tail =~= tail);
    } else {
        assert((name + tail).drop_first() =~= name.drop_first() + tail);
        assert(letter_digit_or_underscore(name[0]));
        lemma_ident_len_of_word(name.drop_first(), tail);
    }
}

/// A line `var <name>` defines the whole `name`, digits included, whatever
/// non-identifier text follows it; a script whose first line is such a line
/// has `name` defined on line 1.
pub proof fn law_var_line_defines_whole_name(lines: Seq<Seq<char>>, name: Seq<char>, tail: Seq<char>)
    requires
        name.len() > 0,
        forall|i: int| 0 <= i < name.len() ==> letter_digit_or_underscore(#[trigger] name[i]),
        tail.len() == 0 || !letter_digit_or_underscore(tail[0]),
        lines.len() > 0,
        lines[0] == "var "@ + name + tail,
    ensures
        def_name_of("var "@ + name + tail) == Some(name),
        first_definition(lines, name, 0) == Some(1int),
{
    reveal_strlit("var ");
    reveal_strlit("static func ");
    reveal_strlit("func ");
    let line = "var "@ + name + tail;
    assert(line[0] == 'v');
    assert(leading_ws(line) == 0);
    assert(trim_start(line) =~= line);
    let kws = def_keywords();
    if kws[0].len() <= line.len() {
        assert(line.subrange(0, kws[0].len() as int)[0] != kws[0][0]);
    }
    if kws[1].len() <= line.len() {
        assert(line.subrange(0, kws[1].len() as int)[0] != kws[1][0]);
    }
    assert(line.subrange(0, 4) =~= "var "@);
    assert(line.skip(4) =~= name + tail);
    lemma_ident_len_of_word(name, tail);
    assert((name + tail).take(name.len() as int) =~= name);
    assert(def_name_from(line, 2) == Some(name));
    assert(def_name_from(line, 1) == Some(name));
    assert(def_name_from(line, 0) == Some(name));
}

/// Walking left from inside an identifier run stops at its first character.
proof fn lemma_run_start_of_word(line: Seq<char>, s: int, e: int, c: int)
    requires
        0 <= s <= c <= e <= line.len(),
        forall|i: int| s <= i < e ==> letter_digit_or_underscore(#[trigger] line[i]),
        s == 0 || !letter_digit_or_underscore(line[s - 1]),
    ensures
        run_start(line, c) == s,
    decreases c,
{
    if c > s {
        assert(letter_digit_or_underscore(line[c - 1]));
        lemma_run_start_of_word(line, s, e, c - 1);
    }
}

/// Walking right from inside an identifier run stops just past its last
/// character.
proof fn lemma_run_end_of_word(line: Seq<char>, s: int, e: int, c: int)
    requires
        0 <= s <= c <= e <= line.len(),
        forall|i: int| s <= i < e ==> letter_digit_or_underscore(#[trigger] line[i]),
        e == line.len() || !letter_digit_or_underscore(line[e]),
    ensures
        run_end(line, c) == e,
    decreases e - c,
{
    if c < e {
        assert(letter_digit_or_underscore(line[c]));
        lemma_run_end_of_word(line, s, e, c + 1);
    }
}

/// The symbol under the caret is the whole maximal run of ASCII letters,
/// digits and `_` around the caret's column, digits included; a column on
/// any other character has no symbol.
pub proof fn law_symbol_is_whole_identifier(line: Seq<char>, s: int, e: int, col: int)
    requires
        0 <= s <= col < e <= line.len(),
        forall|i: int| s <= i < e ==> letter_digit_or_underscore(#[trigger] line[i]),
        s == 0 || !letter_digit_or_underscore(line[s - 1]),
        e == line.len() || !letter_digit_or_underscore(line[e]),
    ensures
        symbol_at_spec(line, col) == Some(line.subrange(s, e)),
{
    assert(letter_digit_or_underscore(line[col]));
    lemma_run_start_of_word(line, s, e, col);
    lemma_run_end_of_word(line, s, e, col);
}

/// A caret on a character has a symbol exactly when that character is an
/// ASCII letter, an ASCII digit or `_`.
pub proof fn law_symbol_characters(line: Seq<char>, col: int)
    requires
        0 <= col < line.len(),
    ensures
        symbol_at_spec(line, col) is Some <==> letter_digit_or_underscore(line[col]),
{
}

} // verus!
