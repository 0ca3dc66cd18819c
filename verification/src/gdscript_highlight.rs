//! GDScript syntax highlighting: a single lexical pass over the source bytes
//! that emits a span per keyword, built-in type, string literal, number
//! literal and `#` comment. Plain identifiers and operators get no span.

use vstd::prelude::*;
use vstd::utf8::*;
use crate::text::{lemma_ascii_is_boundary, lemma_after_ascii_boundary, lemma_chars_of_bytes, owned, substring};

verus! {

broadcast use vstd::string::group_string_axioms;

/// The kind of token a highlight span covers.
#[derive(Debug, Clone, Copy, PartialEq, Eq, Structural)]
pub enum TokenKind {
    /// A language keyword (`func`, `var`, `if`, ...).
    Keyword,
    /// A built-in type name (`int`, `Vector2`, `String`, ...).
    Type,
    /// A string literal, including its quotes.
    StringLiteral,
    /// A numeric literal.
    Number,
    /// A `#` line comment, including the `#`.
    Comment,
}

/// A highlighted range of the source, as byte offsets `[start, end)`.
#[derive(Debug, Clone, Copy, PartialEq, Eq, Structural)]
pub struct HighlightSpan {
    /// Byte offset where the span starts.
    pub start: usize,
    /// Byte offset just past the span.
    pub end: usize,
    /// What the span represents.
    pub kind: TokenKind,
}

/// GDScript keywords.
pub open spec fn keyword_list() -> Seq<Seq<char>> {
    seq![
        "if"@, "elif"@, "else"@, "for"@, "while"@, "match"@, "break"@, "continue"@, "pass"@,
        "return"@, "class"@, "class_name"@, "extends"@, "is"@, "as"@, "self"@, "tool"@,
        "signal"@, "func"@, "static"@, "const"@, "enum"@, "var"@, "onready"@, "export"@,
        "breakpoint"@, "preload"@, "yield"@, "await"@, "assert"@, "void"@, "and"@, "or"@,
        "not"@, "in"@, "true"@, "false"@, "null"@,
    ]
}

/// Built-in GDScript type names.
pub open spec fn type_list() -> Seq<Seq<char>> {
    seq![
        "bool"@, "int"@, "float"@, "String"@, "StringName"@, "NodePath"@, "Vector2"@,
        "Vector2i"@, "Vector3"@, "Vector3i"@, "Rect2"@, "Transform2D"@, "Transform3D"@,
        "Color"@, "Array"@, "Dictionary"@, "Callable"@, "Signal"@, "Object"@, "Node"@,
        "Node2D"@, "Node3D"@, "Resource"@, "PackedScene"@, "Variant"@, "RID"@, "Basis"@,
        "Quaternion"@,
    ]
}

fn keyword_strs() -> (v: Vec<&'static str>)
    ensures
        v@.len() == keyword_list().len(),
        forall|k: int| 0 <= k < v@.len() ==> v@[k]@ == #[trigger] keyword_list()[k],
{
    let v = vec![
        "if", "elif", "else", "for", "while", "match", "break", "continue", "pass",
        "return", "class", "class_name", "extends", "is", "as", "self", "tool",
        "signal", "func", "static", "const", "enum", "var", "onready", "export",
        "breakpoint", "preload", "yield", "await", "assert", "void", "and", "or",
        "not", "in", "true", "false", "null",
    ];
    v
}

fn type_strs() -> (v: Vec<&'static str>)
    ensures
        v@.len() == type_list().len(),
        forall|k: int| 0 <= k < v@.len() ==> v@[k]@ == #[trigger] type_list()[k],
{
    let v = vec![
        "bool", "int", "float", "String", "StringName", "NodePath", "Vector2",
        "Vector2i", "Vector3", "Vector3i", "Rect2", "Transform2D", "Transform3D",
        "Color", "Array", "Dictionary", "Callable", "Signal", "Object", "Node",
        "Node2D", "Node3D", "Resource", "PackedScene", "Variant", "RID", "Basis",
        "Quaternion",
    ];
    v
}


/// The UTF-8 encodings of the keywords.
pub open spec fn keyword_bytes() -> Seq<Seq<u8>> {
    keyword_list().map_values(|k: Seq<char>| encode_utf8(k))
}

/// The UTF-8 encodings of the built-in type names.
pub open spec fn type_bytes() -> Seq<Seq<u8>> {
    type_list().map_values(|k: Seq<char>| encode_utf8(k))
}

/// How a scanned word is highlighted: keywords first, then types.
pub open spec fn classify(word: Seq<u8>) -> Option<TokenKind> {
    if keyword_bytes().contains(word) {
        Some(TokenKind::Keyword)
    } else if type_bytes().contains(word) {
        Some(TokenKind::Type)
    } else {
        None
    }
}

/// ASCII decimal digit.
pub open spec fn is_digit(b: u8) -> bool {
    48 <= b <= 57
}

/// ASCII letter.
pub open spec fn is_alpha(b: u8) -> bool {
    (65 <= b <= 90) || (97 <= b <= 122)
}

/// A byte that may start a word.
pub open spec fn is_word_start(b: u8) -> bool {
    is_alpha(b) || b == 95
}

/// A byte that may continue a word.
pub open spec fn is_word_byte(b: u8) -> bool {
    is_alpha(b) || is_digit(b) || b == 95
}

/// A byte that may continue a number literal (digits, `.`, `_`).
pub open spec fn is_number_byte(b: u8) -> bool {
    is_digit(b) || b == 46 || b == 95
}

/// End of a comment: the first newline at or after `j`, or the end of input.
pub open spec fn comment_end(b: Seq<u8>, j: int) -> int
    decreases b.len() - j,
{
    if j >= b.len() || b[j] == 10 {
        j
    } else {
        comment_end(b, j + 1)
    }
}

/// End of a string literal whose body starts at `j` and whose quote byte is
/// `q`: just past the closing quote, honouring backslash escapes, or the end
/// of input when unterminated.
pub open spec fn string_end(b: Seq<u8>, j: int, q: u8) -> int
    decreases b.len() - j,
{
    if j >= b.len() {
        j
    } else if b[j] == 92 && j + 1 < b.len() {
        string_end(b, j + 2, q)
    } else if b[j] == q {
        j + 1
    } else {
        string_end(b, j + 1, q)
    }
}

/// End of a number literal continuing at `j`.
pub open spec fn number_end(b: Seq<u8>, j: int) -> int
    decreases b.len() - j,
{
    if j >= b.len() || !is_number_byte(b[j]) {
        j
    } else {
        number_end(b, j + 1)
    }
}

/// End of a word continuing at `j`.
pub open spec fn word_end(b: Seq<u8>, j: int) -> int
    decreases b.len() - j,
{
    if j >= b.len() || !is_word_byte(b[j]) {
        j
    } else {
        word_end(b, j + 1)
    }
}

pub proof fn lemma_comment_end(b: Seq<u8>, j: int)
    requires
        j <= b.len(),
    ensures
        j <= comment_end(b, j) <= b.len(),
        comment_end(b, j) == b.len() || b[comment_end(b, j)] == 10,
        forall|t: int| j <= t < comment_end(b, j) ==> b[t] != 10,
    decreases b.len() - j,
{
    if !(j >= b.len() || b[j] == 10) {
        lemma_comment_end(b, j + 1);
    }
}

pub proof fn lemma_string_end(b: Seq<u8>, j: int, q: u8)
    requires
        1 <= j <= b.len(),
    ensures
        j <= string_end(b, j, q) <= b.len(),
        string_end(b, j, q) == b.len() || b[string_end(b, j, q) - 1] == q,
    decreases b.len() - j,
{
    if j >= b.len() {
    } else if b[j] == 92 && j + 1 < b.len() {
        lemma_string_end(b, j + 2, q);
    } else if b[j] == q {
    } else {
        lemma_string_end(b, j + 1, q);
    }
}

pub proof fn lemma_number_end(b: Seq<u8>, j: int)
    requires
        1 <= j <= b.len(),
        is_number_byte(b[j - 1]),
    ensures
        j <= number_end(b, j) <= b.len(),
        is_number_byte(b[number_end(b, j) - 1]),
    decreases b.len() - j,
{
    if !(j >= b.len() || !is_number_byte(b[j])) {
        lemma_number_end(b, j + 1);
    }
}

pub proof fn lemma_word_end(b: Seq<u8>, j: int)
    requires
        1 <= j <= b.len(),
        is_word_byte(b[j - 1]),
    ensures
        j <= word_end(b, j) <= b.len(),
        is_word_byte(b[word_end(b, j) - 1]),
    decreases b.len() - j,
{
    if !(j >= b.len() || !is_word_byte(b[j])) {
        lemma_word_end(b, j + 1);
    }
}

/// The span with the given bounds and kind.
pub open spec fn mk_span(start: int, end: int, kind: TokenKind) -> HighlightSpan {
    HighlightSpan { start: start as usize, end: end as usize, kind }
}

/// The highlight spans of `b` from byte `i` on, in source order: a `#`
/// comment runs to the end of its line; a `"` or `'` string runs to its
/// closing quote; a digit starts a number; a letter or `_` starts a word,
/// which gets a span only if it is a keyword or a type; any other byte is
/// skipped.
pub open spec fn lex(b: Seq<u8>, i: int) -> Seq<HighlightSpan>
    decreases b.len() - i,
{
    if i < 0 || i >= b.len() {
        seq![]
    } else if b[i] == 35 {
        let e = comment_end(b, i + 1);
        proof { lemma_comment_end(b, i + 1); }
        seq![mk_span(i, e, TokenKind::Comment)] + lex(b, e)
    } else if b[i] == 34 || b[i] == 39 {
        let e = string_end(b, i + 1, b[i]);
        proof { lemma_string_end(b, i + 1, b[i]); }
        seq![mk_span(i, e, TokenKind::StringLiteral)] + lex(b, e)
    } else if is_digit(b[i]) {
        let e = number_end(b, i + 1);
        proof { lemma_number_end(b, i + 1); }
        seq![mk_span(i, e, TokenKind::Number)] + lex(b, e)
    } else if is_word_start(b[i]) {
        let e = word_end(b, i + 1);
        proof { lemma_word_end(b, i + 1); }
        match classify(b.subrange(i, e)) {
            Some(kind) => seq![mk_span(i, e, kind)] + lex(b, e),
            None => lex(b, e),
        }
    } else {
        lex(b, i + 1)
    }
}


/// Whether `b[start..end]` equals `k`.
fn range_eq(b: &[u8], start: usize, end: usize, k: &[u8]) -> (r: bool)
    requires
        start <= end <= b@.len(),
    ensures
        r == (b@.subrange(start as int, end as int) == k@),
{
    if end - start != k.len() {
        return false;
    }
    let mut j: usize = 0;
    while j < k.len()
        invariant
            start <= end <= b@.len(),
            end - start == k@.len(),
            j <= k@.len(),
            forall|t: int| 0 <= t < j ==> b@[start + t] == k@[t],
        decreases k@.len() - j,
    {
        if b[start + j] != k[j] {
            assert(b@.subrange(start as int, end as int)[j as int] != k@[j as int]);
            return false;
        }
        j += 1;
    }
    assert(b@.subrange(start as int, end as int) =~= k@);
    true
}

/// Whether `b[start..end]` is one of `words`' encodings.
fn range_in(b: &[u8], start: usize, end: usize, words: &Vec<&'static str>) -> (r: bool)
    requires
        start <= end <= b@.len(),
    ensures
        r == words@.map_values(|w: &str| encode_utf8(w@)).contains(b@.subrange(start as int, end as int)),
{
    let ghost enc = words@.map_values(|w: &str| encode_utf8(w@));
    let ghost word = b@.subrange(start as int, end as int);
    let mut k: usize = 0;
    while k < words.len()
        invariant
            start <= end <= b@.len(),
            enc == words@.map_values(|w: &str| encode_utf8(w@)),
            word == b@.subrange(start as int, end as int),
            k <= words@.len(),
            forall|t: int| 0 <= t < k ==> enc[t] != word,
        decreases words@.len() - k,
    {
        let w = words[k];
        if range_eq(b, start, end, w.as_bytes()) {
            assert(enc[k as int] == word);
            return true;
        }
        k += 1;
    }
    assert(!enc.contains(word));
    false
}

fn classify_range(b: &[u8], start: usize, end: usize) -> (r: Option<TokenKind>)
    requires
        start <= end <= b@.len(),
    ensures
        r == classify(b@.subrange(start as int, end as int)),
{
    let kw = keyword_strs();
    let ty = type_strs();
    assert(kw@.map_values(|w: &str| encode_utf8(w@)) =~= keyword_bytes());
    assert(ty@.map_values(|w: &str| encode_utf8(w@)) =~= type_bytes());
    if range_in(b, start, end, &kw) {
        Some(TokenKind::Keyword)
    } else if range_in(b, start, end, &ty) {
        Some(TokenKind::Type)
    } else {
        None
    }
}

/// A span end that falls on a character boundary of valid UTF-8: the end of
/// input, just before an ASCII byte, or just after one.
pub open spec fn ends_cleanly(b: Seq<u8>, e: int) -> bool {
    e == b.len() || b[e] < 128 || b[e - 1] < 128
}

/// Every span of `lex(b, i)` lies in `[i, b.len()]`, is non-empty, starts
/// on an ASCII byte and ends cleanly, and the spans are in order without
/// overlap.
pub open spec fn spans_well_formed(b: Seq<u8>, spans: Seq<HighlightSpan>, lo: int) -> bool {
    &&& forall|k: int| 0 <= k < spans.len() ==> lo <= #[trigger] spans[k].start < spans[k].end <= b.len()
    &&& forall|k: int| 0 <= k < spans.len() ==> #[trigger] b[spans[k].start as int] < 128
    &&& forall|k: int| 0 <= k < spans.len() ==> ends_cleanly(b, #[trigger] spans[k].end as int)
    &&& forall|k: int| 0 <= k < spans.len() - 1 ==> #[trigger] spans[k].end <= spans[k + 1].start
}

proof fn lemma_prepend_well_formed(b: Seq<u8>, sp: HighlightSpan, tail: Seq<HighlightSpan>, i: int)
    requires
        i <= sp.start < sp.end <= b.len(),
        b[sp.start as int] < 128,
        ends_cleanly(b, sp.end as int),
        spans_well_formed(b, tail, sp.end as int),
    ensures
        spans_well_formed(b, seq![sp] + tail, i),
{
    let all = seq![sp] + tail;
    assert forall|k: int| 0 <= k < all.len() - 1 implies #[trigger] all[k].end <= all[k + 1].start by {
        if k == 0 {
            assert(all[1] == tail[0]);
        } else {
            assert(all[k] == tail[k - 1]);
            assert(all[k + 1] == tail[k]);
        }
    }
    assert forall|k: int| 0 <= k < all.len() implies i <= #[trigger] all[k].start < all[k].end <= b.len() by {
        if k > 0 { assert(all[k] == tail[k - 1]); }
    }
    assert forall|k: int| 0 <= k < all.len() implies #[trigger] b[all[k].start as int] < 128 by {
        if k > 0 { assert(all[k] == tail[k - 1]); }
    }
    assert forall|k: int| 0 <= k < all.len() implies ends_cleanly(b, #[trigger] all[k].end as int) by {
        if k > 0 { assert(all[k] == tail[k - 1]); }
    }
}

proof fn lemma_weaken_well_formed(b: Seq<u8>, spans: Seq<HighlightSpan>, lo: int, lo2: int)
    requires
        spans_well_formed(b, spans, lo),
        lo2 <= lo,
    ensures
        spans_well_formed(b, spans, lo2),
{
}

/// Well-formedness of the lexer's output.
pub proof fn lemma_lex_well_formed(b: Seq<u8>, i: int)
    requires
        0 <= i,
        b.len() <= usize::MAX,
    ensures
        spans_well_formed(b, lex(b, i), i),
    decreases b.len() - i,
{
    if i >= b.len() {
    } else if b[i] == 35 {
        let e = comment_end(b, i + 1);
        lemma_comment_end(b, i + 1);
        lemma_lex_well_formed(b, e);
        lemma_prepend_well_formed(b, mk_span(i, e, TokenKind::Comment), lex(b, e), i);
    } else if b[i] == 34 || b[i] == 39 {
        let e = string_end(b, i + 1, b[i]);
        lemma_string_end(b, i + 1, b[i]);
        lemma_lex_well_formed(b, e);
        lemma_prepend_well_formed(b, mk_span(i, e, TokenKind::StringLiteral), lex(b, e), i);
    } else if is_digit(b[i]) {
        let e = number_end(b, i + 1);
        lemma_number_end(b, i + 1);
        lemma_lex_well_formed(b, e);
        lemma_prepend_well_formed(b, mk_span(i, e, TokenKind::Number), lex(b, e), i);
    } else if is_word_start(b[i]) {
        let e = word_end(b, i + 1);
        lemma_word_end(b, i + 1);
        lemma_lex_well_formed(b, e);
        match classify(b.subrange(i, e)) {
            Some(kind) => {
                lemma_prepend_well_formed(b, mk_span(i, e, kind), lex(b, e), i);
            },
            None => {
                lemma_weaken_well_formed(b, lex(b, e), e, i);
            },
        }
    } else {
        lemma_lex_well_formed(b, i + 1);
        lemma_weaken_well_formed(b, lex(b, i + 1), i + 1, i);
    }
}

/// Both ends of a well-formed span fall on character boundaries.
pub proof fn lemma_span_boundaries(b: Seq<u8>, sp: HighlightSpan)
    requires
        valid_utf8(b),
        sp.start < sp.end <= b.len(),
        b[sp.start as int] < 128,
        ends_cleanly(b, sp.end as int),
    ensures
        is_char_boundary(b, sp.start as int),
        is_char_boundary(b, sp.end as int),
{
    lemma_ascii_is_boundary(b, sp.start as int);
    if sp.end == b.len() {
        is_char_boundary_start_end_of_seq(b);
    } else if b[sp.end as int] < 128 {
        lemma_ascii_is_boundary(b, sp.end as int);
    } else {
        lemma_after_ascii_boundary(b, sp.end - 1);
    }
}


fn byte_is_digit(c: u8) -> (r: bool)
    ensures
        r == is_digit(c),
{
    48 <= c && c <= 57
}

fn byte_is_alpha(c: u8) -> (r: bool)
    ensures
        r == is_alpha(c),
{
    (65 <= c && c <= 90) || (97 <= c && c <= 122)
}

/// Scans `source` and returns highlight spans in source order. Each span's
/// text fits its kind (so an identifier that is neither a keyword nor a type
/// gets no span), and no two spans overlap (so a `#` inside a string starts
/// no comment).
pub fn highlight(source: &str) -> (spans: Vec<HighlightSpan>)
    ensures
        spans@ == lex(encode_utf8(source@), 0),
        spans_well_formed(encode_utf8(source@), spans@, 0),
        forall|k: int| 0 <= k < spans@.len() ==> kind_fits(encode_utf8(source@), #[trigger] spans@[k]),
        forall|k: int, j: int| 0 <= k < j < spans@.len() ==> #[trigger] spans@[k].end <= #[trigger] spans@[j].start,
{
    let bytes = source.as_bytes();
    let n = bytes.len();
    let ghost b = bytes@;
    let mut spans: Vec<HighlightSpan> = Vec::new();
    let mut i: usize = 0;
    while i < n
        invariant
            b == bytes@,
            n == b.len(),
            i <= n,
            lex(b, 0) == spans@ + lex(b, i as int),
        decreases n - i,
    {
        let c = bytes[i];
        let start = i;
        if c == 35 {
            i += 1;
            while i < n && bytes[i] != 10
                invariant
                    b == bytes@,
                    n == b.len(),
                    start < i <= n,
                    comment_end(b, start + 1) == comment_end(b, i as int),
                decreases n - i,
            {
                i += 1;
            }
            let sp = HighlightSpan { start, end: i, kind: TokenKind::Comment };
            assert(lex(b, start as int) == seq![sp] + lex(b, i as int));
            assert(spans@.push(sp) + lex(b, i as int) =~= spans@ + (seq![sp] + lex(b, i as int)));
            spans.push(sp);
        } else if c == 34 || c == 39 {
            let quote = c;
            i += 1;
            let mut done = false;
            while i < n && !done
                invariant
                    b == bytes@,
                    n == b.len(),
                    start < i <= n,
                    !done ==> string_end(b, start + 1, quote) == string_end(b, i as int, quote),
                    done ==> string_end(b, start + 1, quote) == i,
                decreases n - i,
            {
                if bytes[i] == 92 && i + 1 < n {
                    i += 2;
                } else if bytes[i] == quote {
                    i += 1;
                    done = true;
                } else {
                    i += 1;
                }
            }
            let sp = HighlightSpan { start, end: i, kind: TokenKind::StringLiteral };
            assert(lex(b, start as int) == seq![sp] + lex(b, i as int));
            assert(spans@.push(sp) + lex(b, i as int) =~= spans@ + (seq![sp] + lex(b, i as int)));
            spans.push(sp);
        } else if byte_is_digit(c) {
            i += 1;
            while i < n && (byte_is_digit(bytes[i]) || bytes[i] == 46 || bytes[i] == 95)
                invariant
                    b == bytes@,
                    n == b.len(),
                    start < i <= n,
                    number_end(b, start + 1) == number_end(b, i as int),
                decreases n - i,
            {
                i += 1;
            }
            let sp = HighlightSpan { start, end: i, kind: TokenKind::Number };
            assert(lex(b, start as int) == seq![sp] + lex(b, i as int));
            assert(spans@.push(sp) + lex(b, i as int) =~= spans@ + (seq![sp] + lex(b, i as int)));
            spans.push(sp);
        } else if byte_is_alpha(c) || c == 95 {
            i += 1;
            while i < n && (byte_is_alpha(bytes[i]) || byte_is_digit(bytes[i]) || bytes[i] == 95)
                invariant
                    b == bytes@,
                    n == b.len(),
                    start < i <= n,
                    word_end(b, start + 1) == word_end(b, i as int),
                decreases n - i,
            {
                i += 1;
            }
            match classify_range(bytes, start, i) {
                Some(kind) => {
                    let sp = HighlightSpan { start, end: i, kind };
                    assert(lex(b, start as int) == seq![sp] + lex(b, i as int));
                    assert(spans@.push(sp) + lex(b, i as int) =~= spans@ + (seq![sp] + lex(b, i as int)));
                    spans.push(sp);
                },
                None => {
                    assert(lex(b, start as int) == lex(b, i as int));
                },
            }
        } else {
            i += 1;
        }
    }
    assert(spans@ + lex(b, n as int) =~= spans@);
    proof {
        lemma_lex_well_formed(b, 0);
        law_span_kinds(b, 0);
        law_spans_disjoint(b, 0);
    }
    spans
}


/// Holds a GDScript buffer and its current highlight spans, recomputing on
/// edit.
#[derive(Debug, Clone)]
pub struct GdScriptHighlighter {
    source: String,
    spans: Vec<HighlightSpan>,
}

impl GdScriptHighlighter {
    /// The spans always describe the current source.
    pub open spec fn wf(&self) -> bool {
        self.spans_view() == lex(encode_utf8(self.source_view()), 0)
    }

    /// The current source characters.
    pub closed spec fn source_view(&self) -> Seq<char> {
        self.source@
    }

    /// The current spans.
    pub closed spec fn spans_view(&self) -> Seq<HighlightSpan> {
        self.spans@
    }

    /// Creates an empty highlighter.
    pub fn new() -> (h: Self)
        ensures
            h.source_view() == Seq::<char>::empty(),
            h.spans_view() == Seq::<HighlightSpan>::empty(),
            h.wf(),
    {
        GdScriptHighlighter { source: String::new(), spans: Vec::new() }
    }

    /// Replaces the source text and recomputes the highlight spans.
    pub fn set_source(&mut self, source: &str)
        ensures
            final(self).source_view() == source@,
            final(self).spans_view() == lex(encode_utf8(source@), 0),
            spans_well_formed(encode_utf8(source@), final(self).spans_view(), 0),
            final(self).wf(),
    {
        let spans = highlight(source);
        self.source = owned(source);
        self.spans = spans;
    }

    /// The current source text.
    pub fn source(&self) -> (r: &str)
        ensures
            r@ == self.source_view(),
    {
        self.source.as_str()
    }

    /// The current highlight spans, in source order.
    pub fn spans(&self) -> (r: &[HighlightSpan])
        ensures
            r@ == self.spans_view(),
    {
        self.spans.as_slice()
    }

    /// The source text covered by a span. The span must lie on character
    /// boundaries of the source (every span this highlighter produced does).
    pub fn span_text(&self, span: HighlightSpan) -> (r: &str)
        requires
            span.start <= span.end <= encode_utf8(self.source_view()).len(),
            is_char_boundary(encode_utf8(self.source_view()), span.start as int),
            is_char_boundary(encode_utf8(self.source_view()), span.end as int),
        ensures
            encode_utf8(r@) == encode_utf8(self.source_view()).subrange(span.start as int, span.end as int),
    {
        substring(self.source.as_str(), span.start, span.end)
    }
}

/// Every span the highlighter produced can be passed to `span_text`.
pub proof fn law_produced_spans_have_text(source: Seq<char>, spans: Seq<HighlightSpan>, k: int)
    requires
        spans == lex(encode_utf8(source), 0),
        encode_utf8(source).len() <= usize::MAX,
        0 <= k < spans.len(),
    ensures
        spans[k].start < spans[k].end <= encode_utf8(source).len(),
        is_char_boundary(encode_utf8(source), spans[k].start as int),
        is_char_boundary(encode_utf8(source), spans[k].end as int),
{
    let b = encode_utf8(source);
    lemma_chars_of_bytes(source);
    lemma_lex_well_formed(b, 0);
    lemma_span_boundaries(b, spans[k]);
}

/// The number of backslash bytes right before position `j` of `b`.
pub open spec fn backslash_run(b: Seq<u8>, j: int) -> nat
    decreases j,
{
    if j <= 0 || j > b.len() || b[j - 1] != 92 {
        0
    } else {
        1 + backslash_run(b, j - 1)
    }
}

/// A quote byte at `j` is escaped when an odd number of backslashes stands
/// right before it.
pub open spec fn escaped(b: Seq<u8>, j: int) -> bool {
    backslash_run(b, j) % 2 == 1
}

/// The string literal opened by the quote at `s` ends at `e` as a string
/// must: if `e` is before the end of the input, the byte before `e` is an
/// unescaped quote of the same kind (past the opening one); and no
/// unescaped quote of that kind stands in between, other than that closing
/// one. So a backslash-escaped quote never ends the literal.
pub open spec fn string_ends_at_unescaped_quote(b: Seq<u8>, s: int, e: int) -> bool {
    let closes = e - 1 > s && b[e - 1] == b[s] && !escaped(b, e - 1);
    &&& e < b.len() ==> closes
    &&& forall|j: int| s < j < e && #[trigger] b[j] == b[s] && !(j == e - 1 && closes) ==> escaped(b, j)
}

/// Scanning a string body from `j`: when `j` is where the scan stands (an
/// even run of backslashes before it) and every quote passed so far was
/// escaped, the literal ends at an unescaped quote or at the end of input.
proof fn lemma_string_scan(b: Seq<u8>, s: int, j: int)
    requires
        0 <= s < j <= b.len(),
        b[s] == 34 || b[s] == 39,
        j < b.len() ==> !escaped(b, j),
        forall|p: int| s < p < j && #[trigger] b[p] == b[s] ==> escaped(b, p),
    ensures
        string_ends_at_unescaped_quote(b, s, string_end(b, j, b[s])),
    decreases b.len() - j,
{
    let q = b[s];
    if j >= b.len() {
    } else if b[j] == 92 && j + 1 < b.len() {
        assert(backslash_run(b, j + 1) == 1 + backslash_run(b, j));
        if b[j + 1] == 92 {
            assert(backslash_run(b, j + 2) == 1 + backslash_run(b, j + 1));
        } else {
            assert(backslash_run(b, j + 2) == 0);
        }
        lemma_string_scan(b, s, j + 2);
    } else if b[j] == q {
    } else {
        if j + 1 < b.len() {
            assert(backslash_run(b, j + 1) == 0);
        }
        lemma_string_scan(b, s, j + 1);
    }
}

/// What a span's kind promises of its text `b[start..end]`: a keyword or a
/// type is one of the listed words, a comment starts with `#` and holds no
/// newline, a number starts with a digit, a string starts with a quote and
/// ends at the first unescaped quote of that kind (or at the end of input).
pub open spec fn kind_fits(b: Seq<u8>, sp: HighlightSpan) -> bool {
    let text = b.subrange(sp.start as int, sp.end as int);
    match sp.kind {
        TokenKind::Keyword => keyword_bytes().contains(text),
        TokenKind::Type => type_bytes().contains(text),
        TokenKind::Comment => b[sp.start as int] == 35 && forall|t: int|
            sp.start <= t < sp.end ==> #[trigger] b[t] != 10,
        TokenKind::Number => is_digit(b[sp.start as int]),
        TokenKind::StringLiteral => (b[sp.start as int] == 34 || b[sp.start as int] == 39)
            && string_ends_at_unescaped_quote(b, sp.start as int, sp.end as int),
    }
}

/// Every span the highlighter produces fits its kind: keyword and type
/// spans hold exactly a listed word (so other identifiers get no span), a
/// comment runs from `#` up to the end of its line, a number starts with a
/// digit and a string literal with its quote, running to its first quote
/// not escaped by a backslash.
pub proof fn law_span_kinds(b: Seq<u8>, i: int)
    requires
        0 <= i,
        b.len() <= usize::MAX,
    ensures
        forall|k: int| 0 <= k < lex(b, i).len() ==> kind_fits(b, #[trigger] lex(b, i)[k]),
    decreases b.len() - i,
{
    if i >= b.len() {
    } else {
        let rest_start = if b[i] == 35 {
            comment_end(b, i + 1)
        } else if b[i] == 34 || b[i] == 39 {
            string_end(b, i + 1, b[i])
        } else if is_digit(b[i]) {
            number_end(b, i + 1)
        } else if is_word_start(b[i]) {
            word_end(b, i + 1)
        } else {
            i + 1
        };
        if b[i] == 35 {
            lemma_comment_end(b, i + 1);
        } else if b[i] == 34 || b[i] == 39 {
            lemma_string_end(b, i + 1, b[i]);
            if i + 1 < b.len() {
                assert(backslash_run(b, i + 1) == 0);
            }
            lemma_string_scan(b, i, i + 1);
        } else if is_digit(b[i]) {
            lemma_number_end(b, i + 1);
        } else if is_word_start(b[i]) {
            lemma_word_end(b, i + 1);
        }
        law_span_kinds(b, rest_start);
        let all = lex(b, i);
        let tail = lex(b, rest_start);
        assert forall|k: int| 0 <= k < all.len() implies kind_fits(b, #[trigger] all[k]) by {
            if all.len() == tail.len() + 1 {
                if k > 0 {
                    assert(all[k] == tail[k - 1]);
                } else {
                    let sp = all[0];
                    if b[i] == 35 {
                        assert(sp == mk_span(i, rest_start, TokenKind::Comment));
                        assert forall|t: int| sp.start <= t < sp.end implies #[trigger] b[t] != 10 by {
                            if t > i {
                            }
                        }
                    }
                }
            } else {
                assert(all == tail);
            }
        }
    }
}

/// Of two spans in the order produced, the earlier ends before the later
/// starts.
proof fn lemma_spans_ordered(b: Seq<u8>, sp: Seq<HighlightSpan>, lo: int, k: int, j: int)
    requires
        spans_well_formed(b, sp, lo),
        0 <= k < j < sp.len(),
    ensures
        sp[k].end <= sp[j].start,
    decreases j - k,
{
    if j > k + 1 {
        lemma_spans_ordered(b, sp, lo, k, j - 1);
        assert(sp[j - 1].start < sp[j - 1].end);
        assert(sp[j - 1].end <= sp[j].start);
    }
}

/// Spans never overlap: of any two, the earlier ends before the later one
/// starts. So nothing inside a string literal or a comment (such as a `#`
/// inside a string) starts a span of its own.
pub proof fn law_spans_disjoint(b: Seq<u8>, i: int)
    requires
        0 <= i,
        b.len() <= usize::MAX,
    ensures
        forall|k: int, j: int| 0 <= k < j < lex(b, i).len() ==> #[trigger] lex(b, i)[k].end <= #[trigger] lex(b, i)[j].start,
{
    lemma_lex_well_formed(b, i);
    assert forall|k: int, j: int| 0 <= k < j < lex(b, i).len() implies #[trigger] lex(b, i)[k].end <= #[trigger] lex(b, i)[j].start by {
        lemma_spans_ordered(b, lex(b, i), i, k, j);
    }
}

/// A span that starts at an identifier (a letter or `_`) is a keyword or a
/// type span holding exactly a listed word: an identifier that is neither
/// gets no span.
pub proof fn law_identifiers_only_as_listed_words(b: Seq<u8>, i: int)
    requires
        0 <= i,
        b.len() <= usize::MAX,
    ensures
        forall|k: int| 0 <= k < lex(b, i).len() && is_word_start(b[(#[trigger] lex(b, i)[k]).start as int]) ==> {
            let sp = lex(b, i)[k];
            let text = b.subrange(sp.start as int, sp.end as int);
            ||| sp.kind == TokenKind::Keyword && keyword_bytes().contains(text)
            ||| sp.kind == TokenKind::Type && type_bytes().contains(text)
        },
{
    law_span_kinds(b, i);
    assert forall|k: int| 0 <= k < lex(b, i).len() && is_word_start(b[(#[trigger] lex(b, i)[k]).start as int]) implies {
        let sp = lex(b, i)[k];
        let text = b.subrange(sp.start as int, sp.end as int);
        ||| sp.kind == TokenKind::Keyword && keyword_bytes().contains(text)
        ||| sp.kind == TokenKind::Type && type_bytes().contains(text)
    } by {
        assert(kind_fits(b, lex(b, i)[k]));
    }
}

} // verus!
