//! Script-editor find and replace over a text buffer, with plain-text or
//! regular-expression patterns, case sensitivity, whole-word matching,
//! wrap-around search and single or batch replacement. Offsets are byte
//! offsets into the UTF-8 text.

use vstd::prelude::*;
use vstd::utf8::*;
use vstd::string::StringExecFns;
use crate::text::{byte_len, decimal, lemma_chars_of_bytes, lemma_encode_utf8_concat, owned, push_char, push_decimal, substring};

verus! {

broadcast use vstd::string::group_string_axioms;

// ---------------------------------------------------------------------------
// Line bookkeeping
// ---------------------------------------------------------------------------

/// The number of newline bytes among the first `off` bytes of `b`: the
/// 0-based line of byte offset `off`.
pub open spec fn line_of(b: Seq<u8>, off: int) -> int
    decreases off,
{
    if off <= 0 {
        0
    } else {
        line_of(b, off - 1) + (if b[off - 1] == 10 { 1int } else { 0int })
    }
}

/// The byte offset where the line holding offset `off` starts: just past the
/// last newline before `off`, or 0.
pub open spec fn line_start_of(b: Seq<u8>, off: int) -> int
    decreases off,
{
    if off <= 0 {
        0
    } else if b[off - 1] == 10 {
        off
    } else {
        line_start_of(b, off - 1)
    }
}

/// The line starts among the first `n` bytes: 0, then one past each newline.
pub open spec fn starts_upto(b: Seq<u8>, n: int) -> Seq<int>
    decreases n,
{
    if n <= 0 {
        seq![0]
    } else if b[n - 1] == 10 {
        starts_upto(b, n - 1).push(n)
    } else {
        starts_upto(b, n - 1)
    }
}

/// The byte offset of each line start of `b`.
pub open spec fn line_starts(b: Seq<u8>) -> Seq<int> {
    starts_upto(b, b.len() as int)
}

/// Strictly increasing.
pub open spec fn strictly_increasing(s: Seq<int>) -> bool {
    forall|i: int, j: int| 0 <= i < j < s.len() ==> s[i] < s[j]
}

pub proof fn lemma_starts_upto(b: Seq<u8>, n: int)
    requires
        0 <= n <= b.len(),
    ensures
        line_of(b, n) >= 0,
        starts_upto(b, n).len() == line_of(b, n) + 1,
        starts_upto(b, n).last() == line_start_of(b, n),
        starts_upto(b, n)[0] == 0,
        strictly_increasing(starts_upto(b, n)),
        forall|i: int| 0 <= i < starts_upto(b, n).len() ==> #[trigger] starts_upto(b, n)[i] <= n,
    decreases n,
{
    if n > 0 {
        lemma_starts_upto(b, n - 1);
        let prev = starts_upto(b, n - 1);
        if b[n - 1] == 10 {
            assert(starts_upto(b, n) == prev.push(n));
            assert(prev.push(n)[0] == prev[0]);
        }
    }
}

pub proof fn lemma_starts_prefix(b: Seq<u8>, m: int, n: int)
    requires
        0 <= m <= n <= b.len(),
    ensures
        starts_upto(b, m).len() <= starts_upto(b, n).len(),
        forall|i: int| 0 <= i < starts_upto(b, m).len() ==> #[trigger] starts_upto(b, n)[i] == starts_upto(b, m)[i],
        forall|i: int| starts_upto(b, m).len() <= i < starts_upto(b, n).len() ==> #[trigger] starts_upto(b, n)[i] > m,
    decreases n - m,
{
    if m < n {
        lemma_starts_prefix(b, m, n - 1);
        lemma_starts_upto(b, n - 1);
    }
}

/// Computes the byte offset of each line start.
pub fn compute_line_starts(text: &str) -> (starts: Vec<usize>)
    ensures
        starts@.map_values(|s: usize| s as int) == line_starts(encode_utf8(text@)),
{
    let bytes = text.as_bytes();
    let ghost b = bytes@;
    let mut starts: Vec<usize> = Vec::new();
    starts.push(0);
    let mut i: usize = 0;
    while i < bytes.len()
        invariant
            b == bytes@,
            b == encode_utf8(text@),
            i <= b.len(),
            starts@.map_values(|s: usize| s as int) == starts_upto(b, i as int),
        decreases b.len() - i,
    {
        if bytes[i] == 10 {
            starts.push(i + 1);
        }
        i += 1;
        assert(starts@.map_values(|s: usize| s as int) =~= starts_upto(b, i as int));
    }
    starts
}

/// Converts a byte offset to (line, column) using line starts: the line is
/// the last one starting at or before `offset`, and the column is the offset
/// from that start.
pub fn offset_to_line_col(line_starts: &[usize], offset: usize) -> (r: (usize, usize))
    requires
        line_starts@.len() > 0,
        line_starts@[0] <= offset,
        forall|i: int, j: int| 0 <= i < j < line_starts@.len() ==> line_starts@[i] < line_starts@[j],
    ensures
        r.0 < line_starts@.len(),
        line_starts@[r.0 as int] <= offset,
        r.0 + 1 < line_starts@.len() ==> line_starts@[r.0 + 1] > offset,
        r.1 == offset - line_starts@[r.0 as int],
{
    let mut lo: usize = 0;
    let mut hi: usize = line_starts.len();
    while lo + 1 < hi
        invariant
            0 <= lo < hi <= line_starts@.len(),
            line_starts@[lo as int] <= offset,
            hi < line_starts@.len() ==> line_starts@[hi as int] > offset,
            forall|i: int, j: int| 0 <= i < j < line_starts@.len() ==> line_starts@[i] < line_starts@[j],
        decreases hi - lo,
    {
        let mid = lo + (hi - lo) / 2;
        if line_starts[mid] <= offset {
            lo = mid;
        } else {
            hi = mid;
        }
    }
    (lo, offset - line_starts[lo])
}

/// The (line, column) of an offset in `b`, past-the-end offsets counting as
/// the end.
pub open spec fn line_col(b: Seq<u8>, off: int) -> (int, int) {
    let o = if off < b.len() { off } else { b.len() as int };
    (line_of(b, o), off - line_start_of(b, o))
}

/// Looking an offset up in the line starts of `b` gives its line and column.
pub proof fn lemma_line_col_lookup(b: Seq<u8>, starts: Seq<int>, off: int, line: int, col: int)
    requires
        starts == line_starts(b),
        0 <= off,
        0 <= line < starts.len(),
        starts[line] <= off,
        line + 1 < starts.len() ==> starts[line + 1] > off,
        col == off - starts[line],
    ensures
        (line, col) == line_col(b, off),
{
    let n = b.len() as int;
    let o = if off < n { off } else { n };
    lemma_starts_upto(b, n);
    lemma_starts_upto(b, o);
    lemma_starts_prefix(b, o, n);
    let so = starts_upto(b, o);
    let k = so.len() - 1;
    assert(starts[k] == so[k]);
    assert(starts[k] <= off);
    if line < k {
        assert(starts[line + 1] <= starts[k]);
    } else if line > k {
        assert(starts[k + 1] > o);
        if off < n {
            assert(starts[line] > off);
        } else {
            assert(starts[line] <= n);
            assert(false);
        }
    }
}


// ---------------------------------------------------------------------------
// The regex crate
// ---------------------------------------------------------------------------

/// A regex meta character: the characters `regex::escape` prefixes with a
/// backslash.
pub open spec fn is_meta_character(c: char) -> bool {
    c == '\\' || c == '.' || c == '+' || c == '*' || c == '?' || c == '(' || c == ')'
        || c == '|' || c == '[' || c == ']' || c == '{' || c == '}' || c == '^' || c == '$'
        || c == '#' || c == '&' || c == '-' || c == '~'
}

/// `s` with every meta character escaped by a backslash.
pub open spec fn escaped(s: Seq<char>) -> Seq<char>
    decreases s.len(),
{
    if s.len() == 0 {
        seq![]
    } else {
        (if is_meta_character(s[0]) { seq!['\\', s[0]] } else { seq![s[0]] }) + escaped(s.drop_first())
    }
}

/// `regex::escape`: every meta character of `s` prefixed with `\`, all other
/// characters copied.
#[verifier::external_body]
fn regex_escape(s: &str) -> (r: String)
    ensures
        r@ == escaped(s@),
{
    regex::escape(s)
}

/// What `RegexBuilder::build` reports for `pattern` (with the given case
/// insensitivity): `None` when it compiles, else the error's message.
pub uninterp spec fn regex_build_error(pattern: Seq<char>, case_insensitive: bool) -> Option<Seq<char>>;

/// The `(start, end)` byte ranges that `Regex::find_iter` yields for the
/// compiled `pattern` over `text`.
pub uninterp spec fn regex_all_matches(pattern: Seq<char>, case_insensitive: bool, text: Seq<char>) -> Seq<(usize, usize)>;

/// The `(start, end)` byte range that `Regex::find` returns for the compiled
/// `pattern` over `text`, if any.
pub uninterp spec fn regex_first_match(pattern: Seq<char>, case_insensitive: bool, text: Seq<char>) -> Option<(usize, usize)>;

/// A match range that can slice `text`: ordered bounds on character
/// boundaries.
pub open spec fn valid_range(text: Seq<char>, r: (usize, usize)) -> bool {
    &&& r.0 <= r.1 <= encode_utf8(text).len()
    &&& is_char_boundary(encode_utf8(text), r.0 as int)
    &&& is_char_boundary(encode_utf8(text), r.1 as int)
}

/// `RegexBuilder::new(pattern).case_insensitive(ci).build()`, keeping only
/// whether it failed and the failure's message. Claims only that the outcome
/// is a function of the pattern and the flag.
#[verifier::external_body]
fn regex_check(pattern: &str, case_insensitive: bool) -> (r: Result<(), String>)
    ensures
        r is Ok <==> regex_build_error(pattern@, case_insensitive) is None,
        r matches Err(m) ==> regex_build_error(pattern@, case_insensitive) == Some(m@),
{
    match regex::RegexBuilder::new(pattern).case_insensitive(case_insensitive).build() {
        Ok(_) => Ok(()),
        Err(e) => Err(e.to_string()),
    }
}

/// `Regex::find_iter` over `text` for a pattern that compiles, as byte
/// ranges. Claims what the regex crate documents: each range is ordered and
/// falls on character boundaries of `text`, and successive matches do not
/// overlap.
#[verifier::external_body]
fn regex_find_iter(pattern: &str, case_insensitive: bool, text: &str) -> (r: Vec<(usize, usize)>)
    requires
        regex_build_error(pattern@, case_insensitive) is None,
    ensures
        r@ == regex_all_matches(pattern@, case_insensitive, text@),
        forall|k: int| 0 <= k < r@.len() ==> valid_range(text@, #[trigger] r@[k]),
        forall|k: int| 0 <= k < r@.len() - 1 ==> #[trigger] r@[k].1 <= r@[k + 1].0,
{
    let re = regex::RegexBuilder::new(pattern).case_insensitive(case_insensitive).build().unwrap();
    re.find_iter(text).map(|m| (m.start(), m.end())).collect()
}

/// `Regex::replace_all` over `text` for a pattern that compiles, with
/// `replacement` taken literally (`regex::NoExpand`). Claims what the regex
/// crate's source shows for a literal replacement: each range that
/// `find_iter` yields is replaced by the replacement and the text between
/// them is copied unchanged.
#[verifier::external_body]
fn regex_replace_all(pattern: &str, case_insensitive: bool, text: &str, replacement: &str) -> (r: String)
    requires
        regex_build_error(pattern@, case_insensitive) is None,
    ensures
        encode_utf8(r@) == replaced(
            encode_utf8(text@),
            regex_all_matches(pattern@, case_insensitive, text@),
            encode_utf8(replacement@),
        ),
{
    let re = regex::RegexBuilder::new(pattern).case_insensitive(case_insensitive).build().unwrap();
    re.replace_all(text, regex::NoExpand(replacement)).into_owned()
}

/// `Regex::find` over `text` for a pattern that compiles, as a byte range.
/// Claims what the regex crate documents: the range is ordered and falls on
/// character boundaries of `text`.
#[verifier::external_body]
fn regex_find(pattern: &str, case_insensitive: bool, text: &str) -> (r: Option<(usize, usize)>)
    requires
        regex_build_error(pattern@, case_insensitive) is None,
    ensures
        r == regex_first_match(pattern@, case_insensitive, text@),
        r matches Some(m) ==> valid_range(text@, m),
{
    let re = regex::RegexBuilder::new(pattern).case_insensitive(case_insensitive).build().unwrap();
    re.find(text).map(|m| (m.start(), m.end()))
}


// ---------------------------------------------------------------------------
// Matches, results and errors
// ---------------------------------------------------------------------------

/// A single match found in the text.
#[derive(Debug, Clone, PartialEq, Eq)]
pub struct SearchMatch {
    /// Byte offset of the match start.
    pub start: usize,
    /// Byte offset of the match end (exclusive).
    pub end: usize,
    /// The line number (0-based) where the match starts.
    pub line: usize,
    /// The column (0-based, in bytes) where the match starts within the line.
    pub column: usize,
    /// The matched text.
    pub text: String,
}

impl View for SearchMatch {
    type V = (usize, usize, usize, usize, Seq<char>);

    open spec fn view(&self) -> (usize, usize, usize, usize, Seq<char>) {
        (self.start, self.end, self.line, self.column, self.text@)
    }
}

/// Result of a replace operation.
#[derive(Debug, Clone, PartialEq, Eq)]
pub struct ReplaceResult {
    /// The new text after replacement.
    pub text: String,
    /// Number of replacements made.
    pub count: usize,
}

/// Errors from find/replace operations.
#[derive(Debug, Clone, PartialEq, Eq)]
pub enum FindReplaceError {
    /// The regex pattern is invalid.
    InvalidRegex(String),
    /// The search pattern is empty.
    EmptyPattern,
    /// Match index out of bounds.
    MatchIndexOutOfBounds(usize),
}

/// The message of an error, as it is displayed.
pub open spec fn error_message(e: FindReplaceError) -> Seq<char> {
    match e {
        FindReplaceError::InvalidRegex(msg) => "invalid regex: "@ + msg@,
        FindReplaceError::EmptyPattern => "search pattern is empty"@,
        FindReplaceError::MatchIndexOutOfBounds(idx) => "match index "@ + decimal(idx as nat) + " out of bounds"@,
    }
}

impl FindReplaceError {
    /// The human-readable message for this error.
    pub fn to_string(&self) -> (r: String)
        ensures
            r@ == error_message(*self),
    {
        match self {
            FindReplaceError::InvalidRegex(msg) => {
                let mut s = owned("invalid regex: ");
                s.append(msg.as_str());
                s
            },
            FindReplaceError::EmptyPattern => owned("search pattern is empty"),
            FindReplaceError::MatchIndexOutOfBounds(idx) => {
                let mut s = owned("match index ");
                push_decimal(&mut s, *idx as u64);
                s.append(" out of bounds");
                s
            },
        }
    }
}

/// How to interpret the search pattern.
#[derive(Debug, Clone, Copy, PartialEq, Eq, Structural)]
pub enum SearchMode {
    /// Plain text (literal) matching.
    PlainText,
    /// Regular expression matching.
    Regex,
}

impl Default for SearchMode {
    fn default() -> (r: Self)
        ensures
            r == SearchMode::PlainText,
    {
        SearchMode::PlainText
    }
}

/// Configuration for a find/replace operation.
#[derive(Debug, Clone)]
pub struct FindReplaceConfig {
    /// The search pattern.
    pub pattern: String,
    /// The replacement string (used for replace operations).
    pub replacement: String,
    /// Search mode (plain text or regex).
    pub mode: SearchMode,
    /// Whether the search is case-sensitive.
    pub case_sensitive: bool,
    /// Whether to match whole words only (plain text mode).
    pub whole_word: bool,
    /// Whether to wrap around the document.
    pub wrap_around: bool,
}

impl Default for FindReplaceConfig {
    fn default() -> (r: Self)
        ensures
            r.pattern@ == Seq::<char>::empty(),
            r.replacement@ == Seq::<char>::empty(),
            r.mode == SearchMode::PlainText,
            !r.case_sensitive,
            !r.whole_word,
            r.wrap_around,
    {
        FindReplaceConfig {
            pattern: String::new(),
            replacement: String::new(),
            mode: SearchMode::PlainText,
            case_sensitive: false,
            whole_word: false,
            wrap_around: true,
        }
    }
}

impl FindReplaceConfig {
    /// Creates a new config with the given search pattern and default
    /// options.
    pub fn new(pattern: &str) -> (r: Self)
        ensures
            r.pattern@ == pattern@,
            r.replacement@ == Seq::<char>::empty(),
            r.mode == SearchMode::PlainText,
            !r.case_sensitive,
            !r.whole_word,
            r.wrap_around,
    {
        FindReplaceConfig {
            pattern: owned(pattern),
            replacement: String::new(),
            mode: SearchMode::PlainText,
            case_sensitive: false,
            whole_word: false,
            wrap_around: true,
        }
    }

    /// Sets the replacement string.
    pub fn with_replacement(self, replacement: &str) -> (r: Self)
        ensures
            r.replacement@ == replacement@,
            r.pattern == self.pattern,
            r.mode == self.mode,
            r.case_sensitive == self.case_sensitive,
            r.whole_word == self.whole_word,
            r.wrap_around == self.wrap_around,
    {
        let mut c = self;
        c.replacement = owned(replacement);
        c
    }

    /// Sets regex mode.
    pub fn with_regex(self) -> (r: Self)
        ensures
            r.mode == SearchMode::Regex,
            r.pattern == self.pattern,
            r.replacement == self.replacement,
            r.case_sensitive == self.case_sensitive,
            r.whole_word == self.whole_word,
            r.wrap_around == self.wrap_around,
    {
        let mut c = self;
        c.mode = SearchMode::Regex;
        c
    }

    /// Sets case sensitivity.
    pub fn case_sensitive(self, yes: bool) -> (r: Self)
        ensures
            r.case_sensitive == yes,
            r.pattern == self.pattern,
            r.replacement == self.replacement,
            r.mode == self.mode,
            r.whole_word == self.whole_word,
            r.wrap_around == self.wrap_around,
    {
        let mut c = self;
        c.case_sensitive = yes;
        c
    }

    /// Sets whole-word matching.
    pub fn whole_word(self, yes: bool) -> (r: Self)
        ensures
            r.whole_word == yes,
            r.pattern == self.pattern,
            r.replacement == self.replacement,
            r.mode == self.mode,
            r.case_sensitive == self.case_sensitive,
            r.wrap_around == self.wrap_around,
    {
        let mut c = self;
        c.whole_word = yes;
        c
    }
}


// ---------------------------------------------------------------------------
// The engine
// ---------------------------------------------------------------------------

/// An error as plain values.
pub enum FindReplaceErrorView {
    InvalidRegex(Seq<char>),
    EmptyPattern,
    MatchIndexOutOfBounds(usize),
}

impl View for FindReplaceError {
    type V = FindReplaceErrorView;

    open spec fn view(&self) -> FindReplaceErrorView {
        match self {
            FindReplaceError::InvalidRegex(m) => FindReplaceErrorView::InvalidRegex(m@),
            FindReplaceError::EmptyPattern => FindReplaceErrorView::EmptyPattern,
            FindReplaceError::MatchIndexOutOfBounds(i) => FindReplaceErrorView::MatchIndexOutOfBounds(*i),
        }
    }
}

/// The regex searched for: the escaped literal (between `\b` word
/// boundaries for whole-word search) in plain-text mode, the pattern itself
/// in regex mode.
pub open spec fn search_pattern(cfg: FindReplaceConfig) -> Seq<char> {
    match cfg.mode {
        SearchMode::PlainText => if cfg.whole_word {
            seq!['\\', 'b'] + escaped(cfg.pattern@) + seq!['\\', 'b']
        } else {
            escaped(cfg.pattern@)
        },
        SearchMode::Regex => cfg.pattern@,
    }
}

/// Whether matching ignores case.
pub open spec fn ignores_case(cfg: FindReplaceConfig) -> bool {
    !cfg.case_sensitive
}

/// Why a configuration cannot search, if it cannot: an empty pattern, or a
/// regex that does not compile.
pub open spec fn config_error(cfg: FindReplaceConfig) -> Option<FindReplaceErrorView> {
    if cfg.pattern@.len() == 0 {
        Some(FindReplaceErrorView::EmptyPattern)
    } else {
        match regex_build_error(search_pattern(cfg), ignores_case(cfg)) {
            Some(m) => Some(FindReplaceErrorView::InvalidRegex(m)),
            None => None,
        }
    }
}

/// The match ranges of a configuration that can search.
pub open spec fn all_matches(cfg: FindReplaceConfig, text: Seq<char>) -> Seq<(usize, usize)> {
    regex_all_matches(search_pattern(cfg), ignores_case(cfg), text)
}

/// A match as plain values: a range `r` of the searched bytes `sb`, which
/// start at byte `base` of the whole text `b`.
pub open spec fn match_view(b: Seq<u8>, base: int, sb: Seq<u8>, r: (usize, usize)) -> (usize, usize, usize, usize, Seq<char>) {
    let start = base + r.0;
    (
        start as usize,
        (base + r.1) as usize,
        line_col(b, start).0 as usize,
        line_col(b, start).1 as usize,
        decode_utf8(sb.subrange(r.0 as int, r.1 as int)),
    )
}

/// The bytes searched from offset `from`: the rest of the text, or nothing
/// when `from` is at or past the end.
pub open spec fn search_bytes(b: Seq<u8>, from: int) -> Seq<u8> {
    if from < b.len() {
        b.subrange(from, b.len() as int)
    } else {
        seq![]
    }
}

/// The next match at or after `from`; when there is none and wrap-around is
/// on (and `from > 0`), the first match of the text if it starts before
/// `from`.
pub open spec fn next_match(cfg: FindReplaceConfig, text: Seq<char>, from: int) -> Option<(usize, usize, usize, usize, Seq<char>)> {
    let b = encode_utf8(text);
    let sb = search_bytes(b, from);
    match regex_first_match(search_pattern(cfg), ignores_case(cfg), decode_utf8(sb)) {
        Some(r) => Some(match_view(b, from, sb, r)),
        None => if cfg.wrap_around && from > 0 {
            match regex_first_match(search_pattern(cfg), ignores_case(cfg), text) {
                Some(r) => if r.0 < from { Some(match_view(b, 0, b, r)) } else { None },
                None => None,
            }
        } else {
            None
        },
    }
}

/// The bytes up to the end of the `k`-th replaced match: the unmatched
/// stretches in between kept, each match replaced by `rep`.
pub open spec fn replaced_upto(b: Seq<u8>, spans: Seq<(usize, usize)>, rep: Seq<u8>, k: int) -> Seq<u8>
    decreases k,
{
    if k <= 0 {
        seq![]
    } else {
        replaced_upto(b, spans, rep, k - 1) + b.subrange(gap_start(spans, k - 1), spans[k - 1].0 as int) + rep
    }
}

/// Where the unmatched stretch before match `k` starts.
pub open spec fn gap_start(spans: Seq<(usize, usize)>, k: int) -> int {
    if k <= 0 { 0 } else { spans[k - 1].1 as int }
}

/// `b` with every range of `spans` replaced by `rep`.
pub open spec fn replaced(b: Seq<u8>, spans: Seq<(usize, usize)>, rep: Seq<u8>) -> Seq<u8> {
    replaced_upto(b, spans, rep, spans.len() as int) + b.subrange(gap_start(spans, spans.len() as int), b.len() as int)
}

/// The find-and-replace engine. Stateless: each operation takes a config
/// and a text.
#[derive(Debug)]
pub struct FindReplace;

impl Default for FindReplace {
    fn default() -> (r: Self) {
        FindReplace
    }
}

fn escape_literal(s: &str) -> (r: String)
    ensures
        r@ == escaped(s@),
{
    regex_escape(s)
}

/// Builds the regex source for a configuration.
fn build_pattern(config: &FindReplaceConfig) -> (r: String)
    ensures
        r@ == search_pattern(*config),
{
    match config.mode {
        SearchMode::PlainText => {
            let esc = escape_literal(config.pattern.as_str());
            if config.whole_word {
                let mut p = String::new();
                push_char(&mut p, '\\');
                push_char(&mut p, 'b');
                p.append(esc.as_str());
                push_char(&mut p, '\\');
                push_char(&mut p, 'b');
                assert(p@ =~= seq!['\\', 'b'] + escaped(config.pattern@) + seq!['\\', 'b']);
                p
            } else {
                esc
            }
        },
        SearchMode::Regex => config.pattern.clone(),
    }
}

/// Builds a match record for the byte range `r` of `search` (which starts at
/// byte `base` of `text`).
fn make_match(text: &str, starts: &Vec<usize>, search: &str, base: usize, r: (usize, usize)) -> (m: SearchMatch)
    requires
        starts@.map_values(|s: usize| s as int) == line_starts(encode_utf8(text@)),
        valid_range(search@, r),
        base + r.1 <= usize::MAX,
    ensures
        m@ == match_view(encode_utf8(text@), base as int, encode_utf8(search@), r),
{
    let ghost b = encode_utf8(text@);
    let ghost sv = starts@.map_values(|s: usize| s as int);
    proof {
        lemma_starts_upto(b, b.len() as int);
        assert(sv[0] == 0);
        assert forall|i: int, j: int| 0 <= i < j < starts@.len() implies starts@[i] < starts@[j] by {
            assert(sv[i] == starts@[i] && sv[j] == starts@[j]);
        }
    }
    let abs_start = base + r.0;
    let (line, col) = offset_to_line_col(starts.as_slice(), abs_start);
    proof {
        assert(sv[line as int] == starts@[line as int]);
        if line + 1 < starts@.len() {
            assert(sv[line + 1] == starts@[line + 1]);
        }
        lemma_line_col_lookup(b, sv, abs_start as int, line as int, col as int);
    }
    let piece = substring(search, r.0, r.1);
    SearchMatch { start: abs_start, end: base + r.1, line, column: col, text: owned(piece) }
}

impl FindReplace {
    /// Creates a new engine.
    pub fn new() -> (r: Self) {
        FindReplace
    }

    /// Checks that the configuration can search and returns its regex
    /// source.
    fn prepare(&self, config: &FindReplaceConfig) -> (r: Result<String, FindReplaceError>)
        ensures
            match config_error(*config) {
                Some(e) => r matches Err(err) && err@ == e,
                None => r matches Ok(p) && p@ == search_pattern(*config),
            },
    {
        if config.pattern.as_str().is_empty() {
            return Err(FindReplaceError::EmptyPattern);
        }
        let pattern = build_pattern(config);
        match regex_check(pattern.as_str(), !config.case_sensitive) {
            Ok(()) => Ok(pattern),
            Err(msg) => Err(FindReplaceError::InvalidRegex(msg)),
        }
    }

    /// Finds all matches in the given text: every match range the regex
    /// yields, with its line, column and text, in order and without
    /// overlapping.
    pub fn find_all(&self, text: &str, config: &FindReplaceConfig) -> (r: Result<Vec<SearchMatch>, FindReplaceError>)
        ensures
            match config_error(*config) {
                Some(e) => r matches Err(err) && err@ == e,
                None => r matches Ok(ms) && ms@.map_values(|m: SearchMatch| m@)
                    == all_matches(*config, text@).map_values(
                        |sp: (usize, usize)| match_view(encode_utf8(text@), 0, encode_utf8(text@), sp))
                    && forall|k: int| 0 <= k < ms@.len() ==> valid_range(text@, (#[trigger] ms@[k].start, ms@[k].end))
                    && forall|k: int| 0 <= k < ms@.len() - 1 ==> #[trigger] ms@[k].end <= ms@[k + 1].start,
            },
    {
        let pattern = match self.prepare(config) {
            Ok(p) => p,
            Err(e) => return Err(e),
        };
        let spans = regex_find_iter(pattern.as_str(), !config.case_sensitive, text);
        let starts = compute_line_starts(text);
        let ghost b = encode_utf8(text@);
        let ghost want = all_matches(*config, text@).map_values(|sp: (usize, usize)| match_view(b, 0, b, sp));
        let mut out: Vec<SearchMatch> = Vec::new();
        let mut k: usize = 0;
        while k < spans.len()
            invariant
                b == encode_utf8(text@),
                spans@ == all_matches(*config, text@),
                want == spans@.map_values(|sp: (usize, usize)| match_view(b, 0, b, sp)),
                forall|t: int| 0 <= t < spans@.len() ==> valid_range(text@, #[trigger] spans@[t]),
                starts@.map_values(|s: usize| s as int) == line_starts(b),
                k <= spans@.len(),
                out@.map_values(|m: SearchMatch| m@) == want.take(k as int),
                out@.len() == k,
                forall|t: int| 0 <= t < out@.len() ==> valid_range(text@, (#[trigger] out@[t].start, out@[t].end)),
            decreases spans@.len() - k,
        {
            let sp = spans[k];
            assert(valid_range(text@, spans@[k as int]));
            let m = make_match(text, &starts, text, 0, sp);
            assert(want[k as int] == m@);
            let ghost before = out@;
            out.push(m);
            assert(out@.map_values(|m: SearchMatch| m@) =~= before.map_values(|m: SearchMatch| m@).push(m@));
            k += 1;
            assert(out@.map_values(|m: SearchMatch| m@) =~= want.take(k as int));
        }
        assert(want.take(k as int) =~= want);
        proof {
            assert forall|t: int| 0 <= t < out@.len() - 1 implies #[trigger] out@[t].end <= out@[t + 1].start by {
                assert(out@.map_values(|m: SearchMatch| m@)[t] == want[t]);
                assert(out@.map_values(|m: SearchMatch| m@)[t + 1] == want[t + 1]);
                assert(spans@[t].1 <= spans@[t + 1].0);
            }
        }
        Ok(out)
    }

    /// Counts the number of matches without collecting them.
    pub fn count_matches(&self, text: &str, config: &FindReplaceConfig) -> (r: Result<usize, FindReplaceError>)
        ensures
            match config_error(*config) {
                Some(e) => r matches Err(err) && err@ == e,
                None => r == Ok::<usize, FindReplaceError>(all_matches(*config, text@).len() as usize),
            },
    {
        let pattern = match self.prepare(config) {
            Ok(p) => p,
            Err(e) => return Err(e),
        };
        let spans = regex_find_iter(pattern.as_str(), !config.case_sensitive, text);
        Ok(spans.len())
    }

    /// Finds the next match at or after the byte offset `from_offset`. If
    /// `wrap_around` is set and nothing is found after the offset, wraps to
    /// the beginning. The offset must be a character boundary when it lies
    /// inside the text.
    pub fn find_next(&self, text: &str, config: &FindReplaceConfig, from_offset: usize) -> (r: Result<Option<SearchMatch>, FindReplaceError>)
        requires
            from_offset < encode_utf8(text@).len() ==> is_char_boundary(encode_utf8(text@), from_offset as int),
        ensures
            match config_error(*config) {
                Some(e) => r matches Err(err) && err@ == e,
                None => r matches Ok(om) && match (om, next_match(*config, text@, from_offset as int)) {
                    (Some(m), Some(v)) => m@ == v,
                    (None, None) => true,
                    _ => false,
                },
            },
    {
        let pattern = match self.prepare(config) {
            Ok(p) => p,
            Err(e) => return Err(e),
        };
        let ci = !config.case_sensitive;
        let starts = compute_line_starts(text);
        let ghost b = encode_utf8(text@);
        let n = byte_len(text);
        proof { lemma_chars_of_bytes(text@); is_char_boundary_start_end_of_seq(b); }
        let search_text: &str = if from_offset < n {
            substring(text, from_offset, n)
        } else {
            proof { reveal_strlit(""); }
            ""
        };
        assert(search_text@ == decode_utf8(search_bytes(b, from_offset as int)));
        assert(encode_utf8(search_text@) == search_bytes(b, from_offset as int)) by {
            lemma_chars_of_bytes(search_text@);
            if from_offset >= n {
                assert(search_text@ =~= Seq::<char>::empty());
            }
        }
        match regex_find(pattern.as_str(), ci, search_text) {
            Some(rg) => {
                let m = make_match(text, &starts, search_text, from_offset, rg);
                return Ok(Some(m));
            },
            None => {},
        }
        if config.wrap_around && from_offset > 0 {
            match regex_find(pattern.as_str(), ci, text) {
                Some(rg) => {
                    if rg.0 < from_offset {
                        let m = make_match(text, &starts, text, 0, rg);
                        return Ok(Some(m));
                    }
                },
                None => {},
            }
        }
        Ok(None)
    }

    /// Replaces all matches and returns the new text with the count.
    pub fn replace_all(&self, text: &str, config: &FindReplaceConfig) -> (r: Result<ReplaceResult, FindReplaceError>)
        ensures
            match config_error(*config) {
                Some(e) => r matches Err(err) && err@ == e,
                None => r matches Ok(res)
                    && encode_utf8(res.text@) == replaced(encode_utf8(text@), all_matches(*config, text@), encode_utf8(config.replacement@))
                    && res.count == all_matches(*config, text@).len(),
            },
    {
        let pattern = match self.prepare(config) {
            Ok(p) => p,
            Err(e) => return Err(e),
        };
        let ci = !config.case_sensitive;
        let count = regex_find_iter(pattern.as_str(), ci, text).len();
        let out = regex_replace_all(pattern.as_str(), ci, text, config.replacement.as_str());
        Ok(ReplaceResult { text: out, count })
    }

    /// Replaces the single match at `match_index` (0-based among all
    /// matches).
    pub fn replace_at(&self, text: &str, config: &FindReplaceConfig, match_index: usize) -> (r: Result<ReplaceResult, FindReplaceError>)
        ensures
            match config_error(*config) {
                Some(e) => r matches Err(err) && err@ == e,
                None => if match_index >= all_matches(*config, text@).len() {
                    r matches Err(err) && err@ == FindReplaceErrorView::MatchIndexOutOfBounds(match_index)
                } else {
                    r matches Ok(res) && res.count == 1 && {
                        let b = encode_utf8(text@);
                        let sp = all_matches(*config, text@)[match_index as int];
                        encode_utf8(res.text@) == b.subrange(0, sp.0 as int) + encode_utf8(config.replacement@)
                            + b.subrange(sp.1 as int, b.len() as int)
                    }
                },
            },
    {
        let matches = match self.find_all(text, config) {
            Ok(ms) => ms,
            Err(e) => return Err(e),
        };
        let ghost spans = all_matches(*config, text@);
        let ghost b = encode_utf8(text@);
        assert(matches@.len() == spans.len()) by {
            assert(matches@.map_values(|m: SearchMatch| m@).len() == matches@.len());
        }
        if match_index >= matches.len() {
            return Err(FindReplaceError::MatchIndexOutOfBounds(match_index));
        }
        let m = &matches[match_index];
        proof {
            assert(matches@.map_values(|m: SearchMatch| m@)[match_index as int] == m@);
        }
        assert(m.start == spans[match_index as int].0 && m.end == spans[match_index as int].1);
        assert(valid_range(text@, (matches@[match_index as int].start, matches@[match_index as int].end)));
        let n = byte_len(text);
        proof { lemma_chars_of_bytes(text@); is_char_boundary_start_end_of_seq(b); }
        let head = substring(text, 0, m.start);
        let tail = substring(text, m.end, n);
        let mut out = owned(head);
        out.append(config.replacement.as_str());
        out.append(tail);
        proof {
            lemma_encode_utf8_concat(head@, config.replacement@);
            lemma_encode_utf8_concat(head@ + config.replacement@, tail@);
        }
        Ok(ReplaceResult { text: out, count: 1 })
    }
}

} // verus!
