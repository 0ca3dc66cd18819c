//! Inline math expressions for numeric inspector fields (such as `2*PI`,
//! `1+1` or `(3+4)/2`): the text is trimmed, split into tokens and parsed
//! into an expression tree with the usual precedence (`*` and `/` before
//! `+` and `-`, left to right, unary signs, parentheses), whose leaves are
//! number literals and the named constants `PI`, `TAU`, `E` and `INF`. An
//! invalid expression gives no tree, so the field keeps its value.

use vstd::prelude::*;
use crate::goto_definition::{is_unicode_whitespace, whitespace};
use crate::text::{ascii_upper, char_ascii_upper, chars_of, string_from_chars};

verus! {

broadcast use vstd::string::group_string_axioms;

/// `s` without its trailing whitespace.
pub open spec fn trim_end_ws(s: Seq<char>) -> Seq<char>
    decreases s.len(),
{
    if s.len() > 0 && is_unicode_whitespace(s.last()) {
        trim_end_ws(s.drop_last())
    } else {
        s
    }
}

/// `s` without its leading whitespace.
pub open spec fn trim_start_ws(s: Seq<char>) -> Seq<char>
    decreases s.len(),
{
    if s.len() > 0 && is_unicode_whitespace(s[0]) {
        trim_start_ws(s.drop_first())
    } else {
        s
    }
}

/// `s` without leading and trailing whitespace (`str::trim`).
pub open spec fn trim_ws(s: Seq<char>) -> Seq<char> {
    trim_end_ws(trim_start_ws(s))
}

/// A character the tokenizer skips.
pub open spec fn is_blank(c: char) -> bool {
    c == ' ' || c == '\t' || c == '\n' || c == '\r'
}

/// An ASCII digit.
pub open spec fn is_digit(c: char) -> bool {
    '0' <= c <= '9'
}

/// An ASCII letter.
pub open spec fn is_letter(c: char) -> bool {
    ('a' <= c <= 'z') || ('A' <= c <= 'Z')
}

/// A character of a number literal.
pub open spec fn is_number_char(c: char) -> bool {
    is_digit(c) || c == '.'
}

/// A character of a name.
pub open spec fn is_name_char(c: char) -> bool {
    is_letter(c) || is_digit(c) || c == '_'
}

/// A run of digits and dots is a number when it has at least one digit and
/// at most one dot (as decimal literals are written: `5`, `5.`, `.5`, `5.5`).
pub open spec fn valid_number(lit: Seq<char>) -> bool {
    &&& exists|k: int| 0 <= k < lit.len() && is_digit(#[trigger] lit[k])
    &&& forall|a: int, b: int| 0 <= a < b < lit.len() && #[trigger] lit[a] == '.' ==> #[trigger] lit[b] != '.'
}

/// A token of an expression.
pub enum TokenView {
    /// A number literal, as written.
    Number(Seq<char>),
    Plus,
    Minus,
    Star,
    Slash,
    LParen,
    RParen,
    /// A name.
    Ident(Seq<char>),
}

/// `t` in front of the tokens of `rest`, if `rest` tokenizes.
pub open spec fn cons_token(t: TokenView, rest: Option<Seq<TokenView>>) -> Option<Seq<TokenView>> {
    match rest {
        Some(r) => Some(seq![t] + r),
        None => None,
    }
}

/// The tokens of `s` from position `i` on, or `None` if a character cannot
/// start a token or a number literal is malformed.
pub open spec fn lex_from(s: Seq<char>, i: int) -> Option<Seq<TokenView>>
    decreases s.len() - i, 0int,
{
    if i < 0 || i >= s.len() {
        Some(Seq::empty())
    } else {
        let c = s[i];
        if is_blank(c) {
            lex_from(s, i + 1)
        } else if c == '+' {
            cons_token(TokenView::Plus, lex_from(s, i + 1))
        } else if c == '-' {
            cons_token(TokenView::Minus, lex_from(s, i + 1))
        } else if c == '*' {
            cons_token(TokenView::Star, lex_from(s, i + 1))
        } else if c == '/' {
            cons_token(TokenView::Slash, lex_from(s, i + 1))
        } else if c == '(' {
            cons_token(TokenView::LParen, lex_from(s, i + 1))
        } else if c == ')' {
            cons_token(TokenView::RParen, lex_from(s, i + 1))
        } else if is_number_char(c) {
            lex_number(s, i, i + 1)
        } else if is_letter(c) || c == '_' {
            lex_name(s, i, i + 1)
        } else {
            None
        }
    }
}

/// The tokens of `s` from a number literal that started at `start` and has
/// run up to `i`.
pub open spec fn lex_number(s: Seq<char>, start: int, i: int) -> Option<Seq<TokenView>>
    decreases s.len() - i, 1int,
{
    if 0 <= i < s.len() && is_number_char(s[i]) {
        lex_number(s, start, i + 1)
    } else if valid_number(s.subrange(start, i)) {
        cons_token(TokenView::Number(s.subrange(start, i)), lex_from(s, i))
    } else {
        None
    }
}

/// The tokens of `s` from a name that started at `start` and has run up to
/// `i`.
pub open spec fn lex_name(s: Seq<char>, start: int, i: int) -> Option<Seq<TokenView>>
    decreases s.len() - i, 1int,
{
    if 0 <= i < s.len() && is_name_char(s[i]) {
        lex_name(s, start, i + 1)
    } else {
        cons_token(TokenView::Ident(s.subrange(start, i)), lex_from(s, i))
    }
}

/// The tokens of `s`.
pub open spec fn lex(s: Seq<char>) -> Option<Seq<TokenView>> {
    lex_from(s, 0)
}

/// A token of an expression.
#[derive(Debug)]
enum ExprToken {
    Number(Vec<char>),
    Plus,
    Minus,
    Star,
    Slash,
    LParen,
    RParen,
    Ident(Vec<char>),
}

impl View for ExprToken {
    type V = TokenView;

    closed spec fn view(&self) -> TokenView {
        match self {
            ExprToken::Number(n) => TokenView::Number(n@),
            ExprToken::Plus => TokenView::Plus,
            ExprToken::Minus => TokenView::Minus,
            ExprToken::Star => TokenView::Star,
            ExprToken::Slash => TokenView::Slash,
            ExprToken::LParen => TokenView::LParen,
            ExprToken::RParen => TokenView::RParen,
            ExprToken::Ident(n) => TokenView::Ident(n@),
        }
    }
}

/// The views of a sequence of tokens.
spec fn token_views(s: Seq<ExprToken>) -> Seq<TokenView> {
    s.map_values(|t: ExprToken| t@)
}

/// The tokens `p` in front of the tokens `rest`, if `rest` tokenizes.
pub open spec fn after_tokens(p: Seq<TokenView>, rest: Option<Seq<TokenView>>) -> Option<Seq<TokenView>> {
    match rest {
        Some(r) => Some(p + r),
        None => None,
    }
}

fn is_digit_exec(c: char) -> (r: bool)
    ensures
        r == is_digit(c),
{
    '0' <= c && c <= '9'
}

fn is_letter_exec(c: char) -> (r: bool)
    ensures
        r == is_letter(c),
{
    ('a' <= c && c <= 'z') || ('A' <= c && c <= 'Z')
}

/// Whether `lit` has a digit and at most one dot.
fn valid_number_exec(lit: &[char]) -> (r: bool)
    ensures
        r == valid_number(lit@),
{
    let mut has_digit = false;
    let mut dot_at: Option<usize> = None;
    let mut i: usize = 0;
    while i < lit.len()
        invariant
            i <= lit@.len(),
            has_digit == exists|k: int| 0 <= k < i && is_digit(#[trigger] lit@[k]),
            match dot_at {
                Some(d) => d < i && lit@[d as int] == '.' && forall|k: int| 0 <= k < i && k != d ==> lit@[k] != '.',
                None => forall|k: int| 0 <= k < i ==> lit@[k] != '.',
            },
        decreases lit@.len() - i,
    {
        let c = lit[i];
        if c == '.' {
            if let Some(d) = dot_at {
                proof {
                    assert(lit@[d as int] == '.' && lit@[i as int] == '.');
                }
                return false;
            }
            dot_at = Some(i);
        }
        if is_digit_exec(c) {
            has_digit = true;
        }
        i += 1;
    }
    proof {
        if has_digit {
            let k = choose|k: int| 0 <= k < i && is_digit(#[trigger] lit@[k]);
            assert(is_digit(lit@[k]));
        }
    }
    has_digit
}

/// The tokens of `s`, or `None` if it does not tokenize.
fn tokenize(s: &[char]) -> (r: Option<Vec<ExprToken>>)
    ensures
        match r {
            Some(v) => lex(s@) == Some(token_views(v@)),
            None => lex(s@) is None,
        },
{
    let mut toks: Vec<ExprToken> = Vec::new();
    let mut i: usize = 0;
    assert(token_views(toks@) =~= Seq::<TokenView>::empty());
    assert(after_tokens(Seq::<TokenView>::empty(), lex_from(s@, 0)) == lex_from(s@, 0)) by {
        match lex_from(s@, 0) {
            Some(r) => assert(Seq::<TokenView>::empty() + r =~= r),
            None => {},
        }
    }
    while i < s.len()
        invariant
            i <= s@.len(),
            lex(s@) == after_tokens(token_views(toks@), lex_from(s@, i as int)),
        decreases s@.len() - i,
    {
        let c = s[i];
        let ghost before = token_views(toks@);
        let single = if c == '+' {
            Some(ExprToken::Plus)
        } else if c == '-' {
            Some(ExprToken::Minus)
        } else if c == '*' {
            Some(ExprToken::Star)
        } else if c == '/' {
            Some(ExprToken::Slash)
        } else if c == '(' {
            Some(ExprToken::LParen)
        } else if c == ')' {
            Some(ExprToken::RParen)
        } else {
            None
        };
        if c == ' ' || c == '\t' || c == '\n' || c == '\r' {
            i += 1;
        } else if let Some(t) = single {
            let ghost tv = t@;
            toks.push(t);
            proof {
                assert(token_views(toks@) =~= before.push(tv));
                match lex_from(s@, i + 1) {
                    Some(r) => assert(before.push(tv) + r =~= before + (seq![tv] + r)),
                    None => {},
                }
            }
            i += 1;
        } else if is_digit_exec(c) || c == '.' {
            let start = i;
            let mut j: usize = i + 1;
            while j < s.len() && (is_digit_exec(s[j]) || s[j] == '.')
                invariant
                    start < j <= s@.len(),
                    lex_from(s@, start as int) == lex_number(s@, start as int, j as int),
                decreases s@.len() - j,
            {
                j += 1;
            }
            let lit = crate::paths::slice_chars(s, start, j);
            if !valid_number_exec(lit.as_slice()) {
                return None;
            }
            toks.push(ExprToken::Number(lit));
            proof {
                let tv = TokenView::Number(s@.subrange(start as int, j as int));
                assert(token_views(toks@) =~= before.push(tv));
                match lex_from(s@, j as int) {
                    Some(r) => assert(before.push(tv) + r =~= before + (seq![tv] + r)),
                    None => {},
                }
            }
            i = j;
        } else if is_letter_exec(c) || c == '_' {
            let start = i;
            let mut j: usize = i + 1;
            while j < s.len() && (is_letter_exec(s[j]) || is_digit_exec(s[j]) || s[j] == '_')
                invariant
                    start < j <= s@.len(),
                    lex_from(s@, start as int) == lex_name(s@, start as int, j as int),
                decreases s@.len() - j,
            {
                j += 1;
            }
            let name = crate::paths::slice_chars(s, start, j);
            toks.push(ExprToken::Ident(name));
            proof {
                let tv = TokenView::Ident(s@.subrange(start as int, j as int));
                assert(token_views(toks@) =~= before.push(tv));
                match lex_from(s@, j as int) {
                    Some(r) => assert(before.push(tv) + r =~= before + (seq![tv] + r)),
                    None => {},
                }
            }
            i = j;
        } else {
            return None;
        }
    }
    proof {
        assert(token_views(toks@) + Seq::<TokenView>::empty() =~= token_views(toks@));
    }
    Some(toks)
}

/// A named constant an expression may use.
#[derive(Debug, Clone, Copy, PartialEq, Eq, Structural)]
pub enum NumConstant {
    /// The circle constant π.
    Pi,
    /// The full-turn constant τ = 2π.
    Tau,
    /// Euler's number e.
    E,
    /// Positive infinity.
    Inf,
}

/// The constant a name stands for, compared after ASCII uppercasing:
/// `PI`, `TAU`, `E` or `INF`.
pub open spec fn constant_named(name: Seq<char>) -> Option<NumConstant> {
    let u = name.map_values(|c: char| ascii_upper(c));
    if u == seq!['P', 'I'] {
        Some(NumConstant::Pi)
    } else if u == seq!['T', 'A', 'U'] {
        Some(NumConstant::Tau)
    } else if u == seq!['E'] {
        Some(NumConstant::E)
    } else if u == seq!['I', 'N', 'F'] {
        Some(NumConstant::Inf)
    } else {
        None
    }
}

/// An expression tree.
#[derive(Debug)]
pub enum NumExpr {
    /// A number literal, as written.
    Number(String),
    /// A named constant.
    Constant(NumConstant),
    /// The negation of an expression.
    Neg(Box<NumExpr>),
    /// A sum.
    Add(Box<NumExpr>, Box<NumExpr>),
    /// A difference.
    Sub(Box<NumExpr>, Box<NumExpr>),
    /// A product.
    Mul(Box<NumExpr>, Box<NumExpr>),
    /// A quotient.
    Div(Box<NumExpr>, Box<NumExpr>),
}

/// An expression tree as plain values.
pub enum ExprView {
    Number(Seq<char>),
    Constant(NumConstant),
    Neg(Box<ExprView>),
    Add(Box<ExprView>, Box<ExprView>),
    Sub(Box<ExprView>, Box<ExprView>),
    Mul(Box<ExprView>, Box<ExprView>),
    Div(Box<ExprView>, Box<ExprView>),
}

/// The tree as plain values.
pub open spec fn expr_view(e: NumExpr) -> ExprView
    decreases e,
{
    match e {
        NumExpr::Number(n) => ExprView::Number(n@),
        NumExpr::Constant(c) => ExprView::Constant(c),
        NumExpr::Neg(a) => ExprView::Neg(Box::new(expr_view(*a))),
        NumExpr::Add(a, b) => ExprView::Add(Box::new(expr_view(*a)), Box::new(expr_view(*b))),
        NumExpr::Sub(a, b) => ExprView::Sub(Box::new(expr_view(*a)), Box::new(expr_view(*b))),
        NumExpr::Mul(a, b) => ExprView::Mul(Box::new(expr_view(*a)), Box::new(expr_view(*b))),
        NumExpr::Div(a, b) => ExprView::Div(Box::new(expr_view(*a)), Box::new(expr_view(*b))),
    }
}

impl View for NumExpr {
    type V = ExprView;

    open spec fn view(&self) -> ExprView {
        expr_view(*self)
    }
}

/// `expr := term (('+' | '-') term)*`: the expression starting at token
/// `i`, and the position after it. (Every term takes at least one token
/// and ends within the tokens, so the position checks below always hold;
/// they make the definition's termination evident.)
pub open spec fn parse_expr(ts: Seq<TokenView>, i: int) -> Option<(ExprView, int)>
    decreases ts.len() - i, 2int,
{
    match parse_term(ts, i) {
        Some((t, j)) => if i < j <= ts.len() { expr_rest(ts, j, t) } else { None },
        None => None,
    }
}

/// The rest of an expression after the terms so far, `acc`, ending at `j`.
pub open spec fn expr_rest(ts: Seq<TokenView>, j: int, acc: ExprView) -> Option<(ExprView, int)>
    decreases ts.len() - j, 3int,
{
    if 0 <= j < ts.len() && (ts[j] is Plus || ts[j] is Minus) {
        match parse_term(ts, j + 1) {
            Some((t, k)) => if j < k <= ts.len() {
                expr_rest(ts, k, if ts[j] is Plus {
                    ExprView::Add(Box::new(acc), Box::new(t))
                } else {
                    ExprView::Sub(Box::new(acc), Box::new(t))
                })
            } else {
                None
            },
            None => None,
        }
    } else {
        Some((acc, j))
    }
}

/// `term := factor (('*' | '/') factor)*`: the term starting at token `i`,
/// and the position after it.
pub open spec fn parse_term(ts: Seq<TokenView>, i: int) -> Option<(ExprView, int)>
    decreases ts.len() - i, 1int,
{
    match parse_factor(ts, i) {
        Some((f, j)) => if i < j <= ts.len() { term_rest(ts, j, f) } else { None },
        None => None,
    }
}

/// The rest of a term after the factors so far, `acc`, ending at `j`.
pub open spec fn term_rest(ts: Seq<TokenView>, j: int, acc: ExprView) -> Option<(ExprView, int)>
    decreases ts.len() - j, 2int,
{
    if 0 <= j < ts.len() && (ts[j] is Star || ts[j] is Slash) {
        match parse_factor(ts, j + 1) {
            Some((f, k)) => if j < k <= ts.len() {
                term_rest(ts, k, if ts[j] is Star {
                    ExprView::Mul(Box::new(acc), Box::new(f))
                } else {
                    ExprView::Div(Box::new(acc), Box::new(f))
                })
            } else {
                None
            },
            None => None,
        }
    } else {
        Some((acc, j))
    }
}

/// `factor := ('+' | '-') factor | '(' expr ')' | number | name`: the factor
/// starting at token `i`, and the position after it. A unary `+` leaves
/// its factor as it is; a name must be one of the constants.
pub open spec fn parse_factor(ts: Seq<TokenView>, i: int) -> Option<(ExprView, int)>
    decreases ts.len() - i, 0int,
{
    if i < 0 || i >= ts.len() {
        None
    } else {
        match ts[i] {
            TokenView::Number(n) => Some((ExprView::Number(n), i + 1)),
            TokenView::Minus => match parse_factor(ts, i + 1) {
                Some((f, j)) => Some((ExprView::Neg(Box::new(f)), j)),
                None => None,
            },
            TokenView::Plus => parse_factor(ts, i + 1),
            TokenView::LParen => match parse_expr(ts, i + 1) {
                Some((e, j)) => if 0 <= j < ts.len() && ts[j] is RParen { Some((e, j + 1)) } else { None },
                None => None,
            },
            TokenView::Ident(name) => match constant_named(name) {
                Some(c) => Some((ExprView::Constant(c), i + 1)),
                None => None,
            },
            _ => None,
        }
    }
}

/// The expression that `input` denotes: its trimmed text, tokenized,
/// parsed as one expression that uses every token; `None` for empty or
/// invalid text.
pub open spec fn expression_of(input: Seq<char>) -> Option<ExprView> {
    let t = trim_ws(input);
    if t.len() == 0 {
        None
    } else {
        match lex(t) {
            None => None,
            Some(ts) => if ts.len() == 0 {
                None
            } else {
                match parse_expr(ts, 0) {
                    Some((e, k)) => if k == ts.len() { Some(e) } else { None },
                    None => None,
                }
            },
        }
    }
}

/// What a parsing function gives: a tree and the position after it.
spec fn result_view(r: Option<(NumExpr, usize)>) -> Option<(ExprView, int)> {
    match r {
        Some((e, k)) => Some((e@, k as int)),
        None => None,
    }
}

/// A factor takes at least one token and ends within the tokens.
proof fn lemma_factor_advances(ts: Seq<TokenView>, i: int)
    ensures
        parse_factor(ts, i) matches Some((_, j)) ==> i < j <= ts.len(),
    decreases ts.len() - i, 0int,
{
    if 0 <= i < ts.len() {
        match ts[i] {
            TokenView::Minus => lemma_factor_advances(ts, i + 1),
            TokenView::Plus => lemma_factor_advances(ts, i + 1),
            TokenView::LParen => lemma_expr_advances(ts, i + 1),
            _ => {},
        }
    }
}

/// A term takes at least one token and ends within the tokens.
proof fn lemma_term_advances(ts: Seq<TokenView>, i: int)
    ensures
        parse_term(ts, i) matches Some((_, j)) ==> i < j <= ts.len(),
    decreases ts.len() - i, 1int,
{
    lemma_factor_advances(ts, i);
    if let Some((f, j)) = parse_factor(ts, i) {
        if i < j <= ts.len() {
            lemma_term_rest_advances(ts, j, f);
        }
    }
}

/// The rest of a term ends within the tokens, not before where it starts.
proof fn lemma_term_rest_advances(ts: Seq<TokenView>, j: int, acc: ExprView)
    requires
        0 <= j <= ts.len(),
    ensures
        term_rest(ts, j, acc) matches Some((_, k)) ==> j <= k <= ts.len(),
    decreases ts.len() - j, 2int,
{
    if 0 <= j < ts.len() && (ts[j] is Star || ts[j] is Slash) {
        if let Some((f, k)) = parse_factor(ts, j + 1) {
            if j < k <= ts.len() {
                let next = if ts[j] is Star {
                    ExprView::Mul(Box::new(acc), Box::new(f))
                } else {
                    ExprView::Div(Box::new(acc), Box::new(f))
                };
                lemma_term_rest_advances(ts, k, next);
            }
        }
    }
}

/// An expression takes at least one token and ends within the tokens.
proof fn lemma_expr_advances(ts: Seq<TokenView>, i: int)
    ensures
        parse_expr(ts, i) matches Some((_, j)) ==> i < j <= ts.len(),
    decreases ts.len() - i, 2int,
{
    lemma_term_advances(ts, i);
    if let Some((t, j)) = parse_term(ts, i) {
        if i < j <= ts.len() {
            lemma_expr_rest_advances(ts, j, t);
        }
    }
}

/// The rest of an expression ends within the tokens, not before where it
/// starts.
proof fn lemma_expr_rest_advances(ts: Seq<TokenView>, j: int, acc: ExprView)
    requires
        0 <= j <= ts.len(),
    ensures
        expr_rest(ts, j, acc) matches Some((_, k)) ==> j <= k <= ts.len(),
    decreases ts.len() - j, 3int,
{
    if 0 <= j < ts.len() && (ts[j] is Plus || ts[j] is Minus) {
        if let Some((t, k)) = parse_term(ts, j + 1) {
            if j < k <= ts.len() {
                let next = if ts[j] is Plus {
                    ExprView::Add(Box::new(acc), Box::new(t))
                } else {
                    ExprView::Sub(Box::new(acc), Box::new(t))
                };
                lemma_expr_rest_advances(ts, k, next);
            }
        }
    }
}

fn is_plus(t: &ExprToken) -> (r: bool)
    ensures
        r == (t@ is Plus),
{
    match t {
        ExprToken::Plus => true,
        _ => false,
    }
}

fn is_additive(t: &ExprToken) -> (r: bool)
    ensures
        r == (t@ is Plus || t@ is Minus),
{
    match t {
        ExprToken::Plus | ExprToken::Minus => true,
        _ => false,
    }
}

fn is_star(t: &ExprToken) -> (r: bool)
    ensures
        r == (t@ is Star),
{
    match t {
        ExprToken::Star => true,
        _ => false,
    }
}

fn is_multiplicative(t: &ExprToken) -> (r: bool)
    ensures
        r == (t@ is Star || t@ is Slash),
{
    match t {
        ExprToken::Star | ExprToken::Slash => true,
        _ => false,
    }
}

fn is_rparen(t: &ExprToken) -> (r: bool)
    ensures
        r == (t@ is RParen),
{
    match t {
        ExprToken::RParen => true,
        _ => false,
    }
}

/// The constant a name stands for.
fn constant_named_exec(name: &[char]) -> (r: Option<NumConstant>)
    ensures
        r == constant_named(name@),
{
    let mut upper: Vec<char> = Vec::new();
    let mut i: usize = 0;
    while i < name.len()
        invariant
            i <= name@.len(),
            upper@ == name@.take(i as int).map_values(|c: char| ascii_upper(c)),
        decreases name@.len() - i,
    {
        upper.push(char_ascii_upper(name[i]));
        assert(upper@ =~= name@.take(i + 1).map_values(|c: char| ascii_upper(c)));
        i += 1;
    }
    assert(name@.take(name@.len() as int) =~= name@);
    let pi = vec!['P', 'I'];
    let tau = vec!['T', 'A', 'U'];
    let e = vec!['E'];
    let inf = vec!['I', 'N', 'F'];
    assert(pi@ =~= seq!['P', 'I']);
    assert(tau@ =~= seq!['T', 'A', 'U']);
    assert(e@ =~= seq!['E']);
    assert(inf@ =~= seq!['I', 'N', 'F']);
    if crate::text::chars_eq(upper.as_slice(), pi.as_slice()) {
        Some(NumConstant::Pi)
    } else if crate::text::chars_eq(upper.as_slice(), tau.as_slice()) {
        Some(NumConstant::Tau)
    } else if crate::text::chars_eq(upper.as_slice(), e.as_slice()) {
        Some(NumConstant::E)
    } else if crate::text::chars_eq(upper.as_slice(), inf.as_slice()) {
        Some(NumConstant::Inf)
    } else {
        None
    }
}

/// Parses the expression starting at token `i`.
fn parse_expr_at(ts: &[ExprToken], i: usize) -> (r: Option<(NumExpr, usize)>)
    requires
        i <= ts@.len(),
    ensures
        result_view(r) == parse_expr(token_views(ts@), i as int),
    decreases ts@.len() - i, 2int,
{
    let ghost tv = token_views(ts@);
    proof {
        lemma_term_advances(tv, i as int);
    }
    let (first, j0) = match parse_term_at(ts, i) {
        Some(x) => x,
        None => return None,
    };
    let mut acc = first;
    let mut j = j0;
    while j < ts.len() && is_additive(&ts[j])
        invariant
            tv == token_views(ts@),
            i < j <= ts@.len(),
            parse_expr(tv, i as int) == expr_rest(tv, j as int, acc@),
        decreases ts@.len() - j,
    {
        let plus = is_plus(&ts[j]);
        proof {
            lemma_term_advances(tv, j + 1);
        }
        let (t, k) = match parse_term_at(ts, j + 1) {
            Some(x) => x,
            None => return None,
        };
        acc = if plus { NumExpr::Add(Box::new(acc), Box::new(t)) } else { NumExpr::Sub(Box::new(acc), Box::new(t)) };
        j = k;
    }
    Some((acc, j))
}

/// Parses the term starting at token `i`.
fn parse_term_at(ts: &[ExprToken], i: usize) -> (r: Option<(NumExpr, usize)>)
    requires
        i <= ts@.len(),
    ensures
        result_view(r) == parse_term(token_views(ts@), i as int),
    decreases ts@.len() - i, 1int,
{
    let ghost tv = token_views(ts@);
    proof {
        lemma_factor_advances(tv, i as int);
    }
    let (first, j0) = match parse_factor_at(ts, i) {
        Some(x) => x,
        None => return None,
    };
    let mut acc = first;
    let mut j = j0;
    while j < ts.len() && is_multiplicative(&ts[j])
        invariant
            tv == token_views(ts@),
            i < j <= ts@.len(),
            parse_term(tv, i as int) == term_rest(tv, j as int, acc@),
        decreases ts@.len() - j,
    {
        let star = is_star(&ts[j]);
        proof {
            lemma_factor_advances(tv, j + 1);
        }
        let (f, k) = match parse_factor_at(ts, j + 1) {
            Some(x) => x,
            None => return None,
        };
        acc = if star { NumExpr::Mul(Box::new(acc), Box::new(f)) } else { NumExpr::Div(Box::new(acc), Box::new(f)) };
        j = k;
    }
    Some((acc, j))
}

/// Parses the factor starting at token `i`.
fn parse_factor_at(ts: &[ExprToken], i: usize) -> (r: Option<(NumExpr, usize)>)
    requires
        i <= ts@.len(),
    ensures
        result_view(r) == parse_factor(token_views(ts@), i as int),
    decreases ts@.len() - i, 0int,
{
    let ghost tv = token_views(ts@);
    if i >= ts.len() {
        return None;
    }
    assert(tv[i as int] == ts@[i as int]@);
    match &ts[i] {
        ExprToken::Number(n) => Some((NumExpr::Number(string_from_chars(n.as_slice())), i + 1)),
        ExprToken::Minus => match parse_factor_at(ts, i + 1) {
            Some((f, j)) => Some((NumExpr::Neg(Box::new(f)), j)),
            None => None,
        },
        ExprToken::Plus => parse_factor_at(ts, i + 1),
        ExprToken::LParen => match parse_expr_at(ts, i + 1) {
            Some((e, j)) => if j < ts.len() && is_rparen(&ts[j]) {
                Some((e, j + 1))
            } else {
                None
            },
            None => None,
        },
        ExprToken::Ident(name) => match constant_named_exec(name.as_slice()) {
            Some(c) => Some((NumExpr::Constant(c), i + 1)),
            None => None,
        },
        _ => None,
    }
}

/// Dropping leading whitespace up to the first other character.
proof fn lemma_trim_start(s: Seq<char>, a: int)
    requires
        0 <= a <= s.len(),
        forall|k: int| 0 <= k < a ==> is_unicode_whitespace(#[trigger] s[k]),
        a == s.len() || !is_unicode_whitespace(s[a]),
    ensures
        trim_start_ws(s) == s.skip(a),
    decreases a,
{
    if a == 0 {
        assert(s.skip(0) =~= s);
    } else {
        let t = s.drop_first();
        assert forall|k: int| 0 <= k < a - 1 implies is_unicode_whitespace(#[trigger] t[k]) by {
            assert(t[k] == s[k + 1]);
        }
        if a - 1 < t.len() {
            assert(t[a - 1] == s[a]);
        }
        lemma_trim_start(t, a - 1);
        assert(t.skip(a - 1) =~= s.skip(a));
    }
}

/// Dropping trailing whitespace after the last other character.
proof fn lemma_trim_end(s: Seq<char>, b: int)
    requires
        0 <= b <= s.len(),
        forall|k: int| b <= k < s.len() ==> is_unicode_whitespace(#[trigger] s[k]),
        b == 0 || !is_unicode_whitespace(s[b - 1]),
    ensures
        trim_end_ws(s) == s.take(b),
    decreases s.len() - b,
{
    if b == s.len() {
        assert(s.take(b) =~= s);
    } else {
        let t = s.drop_last();
        assert forall|k: int| b <= k < t.len() implies is_unicode_whitespace(#[trigger] t[k]) by {
            assert(t[k] == s[k]);
        }
        if b > 0 {
            assert(t[b - 1] == s[b - 1]);
        }
        lemma_trim_end(t, b);
        assert(t.take(b) =~= s.take(b));
    }
}

/// `s` without leading and trailing whitespace.
pub(crate) fn trim_chars(s: &[char]) -> (r: Vec<char>)
    ensures
        r@ == trim_ws(s@),
{
    let mut a: usize = 0;
    while a < s.len() && whitespace(s[a])
        invariant
            a <= s@.len(),
            forall|k: int| 0 <= k < a ==> is_unicode_whitespace(#[trigger] s@[k]),
        decreases s@.len() - a,
    {
        a += 1;
    }
    proof {
        lemma_trim_start(s@, a as int);
    }
    let mut b: usize = s.len();
    while b > a && whitespace(s[b - 1])
        invariant
            a <= b <= s@.len(),
            forall|k: int| b <= k < s@.len() ==> is_unicode_whitespace(#[trigger] s@[k]),
        decreases b,
    {
        b -= 1;
    }
    proof {
        let t = s@.skip(a as int);
        assert forall|k: int| b - a <= k < t.len() implies is_unicode_whitespace(#[trigger] t[k]) by {
            assert(t[k] == s@[k + a]);
        }
        if b > a {
            assert(t[b - a - 1] == s@[b - 1]);
        }
        lemma_trim_end(t, b - a);
        assert(t.take(b - a) =~= s@.subrange(a as int, b as int));
    }
    crate::paths::slice_chars(s, a, b)
}

/// Parses an inline numeric expression: `None` for empty text, an
/// unexpected character, a malformed number, an unknown name, a syntax
/// error or tokens left over.
pub fn parse_numeric_expression(input: &str) -> (r: Option<NumExpr>)
    ensures
        match r {
            Some(e) => expression_of(input@) == Some(e@),
            None => expression_of(input@) is None,
        },
{
    let cs = chars_of(input);
    let t = trim_chars(cs.as_slice());
    if t.len() == 0 {
        return None;
    }
    let toks = match tokenize(t.as_slice()) {
        Some(v) => v,
        None => return None,
    };
    if toks.len() == 0 {
        return None;
    }
    match parse_expr_at(toks.as_slice(), 0) {
        Some((e, k)) => if k == toks.len() {
            Some(e)
        } else {
            None
        },
        None => None,
    }
}

/// A character that can stand in an expression: a blank, an operator or
/// bracket, or a character of a number or a name.
pub open spec fn is_expression_char(c: char) -> bool {
    is_blank(c) || c == '+' || c == '-' || c == '*' || c == '/' || c == '(' || c == ')'
        || is_number_char(c) || is_name_char(c)
}

proof fn lemma_lex_from_stray(s: Seq<char>, i: int, k: int)
    requires
        0 <= i <= k < s.len(),
        !is_expression_char(s[k]),
    ensures
        lex_from(s, i) is None,
    decreases s.len() - i, 0int,
{
    let c = s[i];
    if i < k {
        if is_blank(c) || c == '+' || c == '-' || c == '*' || c == '/' || c == '(' || c == ')' {
            lemma_lex_from_stray(s, i + 1, k);
        } else if is_number_char(c) {
            lemma_lex_number_stray(s, i, i + 1, k);
        } else if is_letter(c) || c == '_' {
            lemma_lex_name_stray(s, i, i + 1, k);
        }
    }
}

proof fn lemma_lex_number_stray(s: Seq<char>, start: int, i: int, k: int)
    requires
        0 <= start < i <= k < s.len(),
        !is_expression_char(s[k]),
    ensures
        lex_number(s, start, i) is None,
    decreases s.len() - i, 1int,
{
    if is_number_char(s[i]) {
        lemma_lex_number_stray(s, start, i + 1, k);
    } else {
        lemma_lex_from_stray(s, i, k);
    }
}

proof fn lemma_lex_name_stray(s: Seq<char>, start: int, i: int, k: int)
    requires
        0 <= start < i <= k < s.len(),
        !is_expression_char(s[k]),
    ensures
        lex_name(s, start, i) is None,
    decreases s.len() - i, 1int,
{
    if is_name_char(s[i]) {
        lemma_lex_name_stray(s, start, i + 1, k);
    } else {
        lemma_lex_from_stray(s, i, k);
    }
}

/// A character that cannot stand in an expression, anywhere in the trimmed
/// text, makes the expression invalid.
pub proof fn law_stray_character_rejected(input: Seq<char>, k: int)
    requires
        0 <= k < trim_ws(input).len(),
        !is_expression_char(trim_ws(input)[k]),
    ensures
        expression_of(input) is None,
{
    lemma_lex_from_stray(trim_ws(input), 0, k);
}

} // verus!
