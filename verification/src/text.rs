//! Character- and byte-level text helpers shared by the editor modules.

use vstd::prelude::*;
use vstd::string::StringExecFns;
use vstd::utf8::*;

verus! {

broadcast use vstd::string::group_string_axioms;

/// Collects the characters of `s` into a vector.
pub fn chars_of(s: &str) -> (v: Vec<char>)
    ensures
        v@ == s@,
{
    let mut v: Vec<char> = Vec::new();
    for c in it: s.chars()
        invariant
            v@ == it.seq().take(it.index() as int),
    {
        v.push(c);
    }
    v
}

/// Appends one character to a string (std's `String::push`).
#[verifier::external_body]
pub fn push_char(s: &mut String, c: char)
    ensures
        final(s)@ == old(s)@.push(c),
{
    s.push(c);
}

/// Appends every character of `cs` to `out`.
pub fn push_chars(out: &mut String, cs: &[char])
    ensures
        final(out)@ == old(out)@ + cs@,
{
    let mut i: usize = 0;
    while i < cs.len()
        invariant
            i <= cs@.len(),
            out@ == old(out)@ + cs@.take(i as int),
        decreases cs@.len() - i,
    {
        push_char(out, cs[i]);
        i += 1;
        assert(cs@.take(i as int) =~= cs@.take((i - 1) as int).push(cs@[i - 1]));
    }
    assert(cs@.take(cs@.len() as int) =~= cs@);
}

/// Appends a string slice to `out`.
pub fn push_str(out: &mut String, s: &str)
    ensures
        final(out)@ == old(out)@ + s@,
{
    let cs = chars_of(s);
    push_chars(out, cs.as_slice());
}

/// Builds a string holding exactly the characters of `cs`.
pub fn string_from_chars(cs: &[char]) -> (s: String)
    ensures
        s@ == cs@,
{
    let mut s = String::new();
    let mut i: usize = 0;
    while i < cs.len()
        invariant
            i <= cs@.len(),
            s@ == cs@.take(i as int),
        decreases cs@.len() - i,
    {
        push_char(&mut s, cs[i]);
        i += 1;
        assert(cs@.take(i as int) =~= cs@.take((i - 1) as int).push(cs@[i - 1]));
    }
    assert(cs@.take(cs@.len() as int) =~= cs@);
    s
}

/// Copies a string slice into an owned string.
pub fn owned(s: &str) -> (r: String)
    ensures
        r@ == s@,
{
    String::from_str(s)
}

/// Whether two character sequences are equal, element by element.
pub fn chars_eq(a: &[char], b: &[char]) -> (r: bool)
    ensures
        r == (a@ == b@),
{
    if a.len() != b.len() {
        return false;
    }
    let mut i: usize = 0;
    while i < a.len()
        invariant
            a@.len() == b@.len(),
            i <= a@.len(),
            forall|k: int| 0 <= k < i ==> a@[k] == b@[k],
        decreases a@.len() - i,
    {
        if a[i] != b[i] {
            return false;
        }
        i += 1;
    }
    assert(a@ =~= b@);
    true
}

/// Whether two string slices hold the same characters.
pub fn str_eq(a: &str, b: &str) -> (r: bool)
    ensures
        r == (a@ == b@),
{
    let va = chars_of(a);
    let vb = chars_of(b);
    chars_eq(va.as_slice(), vb.as_slice())
}

/// The decimal digits of `n`, most significant first (no leading zeros; `0`
/// is written as a single digit).
pub open spec fn decimal(n: nat) -> Seq<char>
    decreases n,
{
    if n < 10 {
        seq![digit_char(n)]
    } else {
        decimal(n / 10).push(digit_char(n % 10))
    }
}

/// A decimal form has at least one digit.
pub proof fn lemma_decimal_nonempty(n: nat)
    ensures
        decimal(n).len() >= 1,
    decreases n,
{
    if n >= 10 {
        lemma_decimal_nonempty(n / 10);
    }
}

/// Distinct numbers have distinct decimal forms.
pub proof fn lemma_decimal_injective(n: nat, m: nat)
    requires
        decimal(n) == decimal(m),
    ensures
        n == m,
    decreases n,
{
    if n < 10 && m < 10 {
        assert(decimal(n)[0] == digit_char(n));
        assert(decimal(m)[0] == digit_char(m));
    } else if n < 10 {
        lemma_decimal_nonempty(m / 10);
        assert(decimal(m).len() >= 2);
    } else if m < 10 {
        lemma_decimal_nonempty(n / 10);
        assert(decimal(n).len() >= 2);
    } else {
        let dn = decimal(n);
        let dm = decimal(m);
        assert(dn.last() == digit_char(n % 10));
        assert(dm.last() == digit_char(m % 10));
        assert(n % 10 == m % 10);
        assert(dn.drop_last() =~= decimal(n / 10));
        assert(dm.drop_last() =~= decimal(m / 10));
        lemma_decimal_injective(n / 10, m / 10);
    }
}

/// The character of a single decimal digit.
pub open spec fn digit_char(d: nat) -> char {
    if d == 0 { '0' }
    else if d == 1 { '1' }
    else if d == 2 { '2' }
    else if d == 3 { '3' }
    else if d == 4 { '4' }
    else if d == 5 { '5' }
    else if d == 6 { '6' }
    else if d == 7 { '7' }
    else if d == 8 { '8' }
    else { '9' }
}

fn digit(d: u64) -> (c: char)
    requires
        d < 10,
    ensures
        c == digit_char(d as nat),
{
    if d == 0 { '0' }
    else if d == 1 { '1' }
    else if d == 2 { '2' }
    else if d == 3 { '3' }
    else if d == 4 { '4' }
    else if d == 5 { '5' }
    else if d == 6 { '6' }
    else if d == 7 { '7' }
    else if d == 8 { '8' }
    else { '9' }
}

/// Appends the decimal form of `n` to `out`.
pub fn push_decimal(out: &mut String, n: u64)
    ensures
        final(out)@ == old(out)@ + decimal(n as nat),
    decreases n,
{
    if n < 10 {
        push_char(out, digit(n));
        assert(decimal(n as nat) =~= seq![digit_char(n as nat)]);
    } else {
        push_decimal(out, n / 10);
        push_char(out, digit(n % 10));
    }
}

/// ASCII lowercase of one character; other characters are unchanged.
pub open spec fn ascii_lower(c: char) -> char {
    if 'A' <= c <= 'Z' {
        ((c as u32) + 32) as char
    } else {
        c
    }
}

/// ASCII uppercase of one character; other characters are unchanged.
pub open spec fn ascii_upper(c: char) -> char {
    if 'a' <= c <= 'z' {
        ((c as u32) - 32) as char
    } else {
        c
    }
}

/// The ASCII-lowercased character sequence.
pub open spec fn ascii_lower_seq(s: Seq<char>) -> Seq<char> {
    s.map_values(|c: char| ascii_lower(c))
}

/// `char::to_ascii_lowercase`.
pub fn char_ascii_lower(c: char) -> (r: char)
    ensures
        r == ascii_lower(c),
{
    if 'A' <= c && c <= 'Z' {
        ((c as u8) + 32) as char
    } else {
        c
    }
}

/// `char::to_ascii_uppercase`.
pub fn char_ascii_upper(c: char) -> (r: char)
    ensures
        r == ascii_upper(c),
{
    if 'a' <= c && c <= 'z' {
        ((c as u8) - 32) as char
    } else {
        c
    }
}

/// The ASCII-lowercased characters of `s`.
pub fn ascii_lowercase(s: &str) -> (v: Vec<char>)
    ensures
        v@ == ascii_lower_seq(s@),
{
    let cs = chars_of(s);
    let mut v: Vec<char> = Vec::new();
    let mut i: usize = 0;
    while i < cs.len()
        invariant
            cs@ == s@,
            i <= cs@.len(),
            v@ == ascii_lower_seq(cs@.take(i as int)),
        decreases cs@.len() - i,
    {
        v.push(char_ascii_lower(cs[i]));
        i += 1;
        assert(ascii_lower_seq(cs@.take(i as int)) =~= ascii_lower_seq(cs@.take((i - 1) as int)).push(ascii_lower(cs@[i - 1])));
    }
    assert(cs@.take(cs@.len() as int) =~= cs@);
    v
}

/// The full Unicode lowercase mapping of a character sequence, as std's
/// `str::to_lowercase` computes it from the Unicode tables it ships with.
pub uninterp spec fn unicode_lowercase(s: Seq<char>) -> Seq<char>;

/// std's `str::to_lowercase`. Claims that the result is the Unicode
/// lowercase mapping of the argument's characters (a fixed function of them)
/// and that it is empty exactly when the argument is (std maps every
/// character to one or more characters); on ASCII text it is the ASCII
/// lowercase (the Unicode lowercase of an ASCII letter is its ASCII
/// lowercase, and other ASCII characters map to themselves).
#[verifier::external_body]
pub fn to_lowercase(s: &str) -> (r: String)
    ensures
        r@ == unicode_lowercase(s@),
        s@.len() > 0 ==> r@.len() > 0,
        s@.len() == 0 ==> r@.len() == 0,
        (forall|i: int| 0 <= i < s@.len() ==> (#[trigger] s@[i] as u32) < 128) ==> r@ == ascii_lower_seq(s@),
{
    s.to_lowercase()
}


/// The first position `q >= p` where `needle` occurs in `hay`.
pub open spec fn first_match<T>(hay: Seq<T>, needle: Seq<T>, p: int) -> Option<int>
    decreases hay.len() - p,
{
    if p < 0 || p + needle.len() > hay.len() {
        None
    } else if hay.subrange(p, p + needle.len()) == needle {
        Some(p)
    } else if p >= hay.len() {
        None
    } else {
        first_match(hay, needle, p + 1)
    }
}

/// A match found by `first_match` lies at or after `p`, within `hay`, and
/// holds `needle`.
pub proof fn lemma_first_match<T>(hay: Seq<T>, needle: Seq<T>, p: int)
    requires
        0 <= p,
    ensures
        first_match(hay, needle, p) matches Some(q) ==> p <= q && q + needle.len() <= hay.len()
            && hay.subrange(q, q + needle.len()) == needle,
    decreases hay.len() - p,
{
    if !(p + needle.len() > hay.len()) && hay.subrange(p, p + needle.len()) != needle && p < hay.len() {
        lemma_first_match(hay, needle, p + 1);
    }
}

/// The first occurrence of `needle` in `hay` at or after `p`.
pub fn find_from(hay: &[char], needle: &[char], p: usize) -> (r: Option<usize>)
    ensures
        r is Some <==> first_match(hay@, needle@, p as int) is Some,
        r matches Some(q) ==> first_match(hay@, needle@, p as int) == Some(q as int),
{
    let n = hay.len();
    let m = needle.len();
    let mut q = p;
    while q <= n && m <= n - q
        invariant
            m == needle@.len(),
            n == hay@.len(),
            p <= q,
            first_match(hay@, needle@, p as int) == first_match(hay@, needle@, q as int),
        decreases n + 1 - q,
    {
        let mut t: usize = 0;
        let mut same = true;
        while t < m
            invariant
                m == needle@.len(),
                n == hay@.len(),
                q + m <= n,
                t <= m,
                same == (forall|u: int| 0 <= u < t ==> hay@[q + u] == needle@[u]),
            decreases m - t,
        {
            let idx = q + t;
            if hay[idx] != needle[t] {
                same = false;
            }
            t += 1;
        }
        if same {
            assert(hay@.subrange(q as int, q + m) =~= needle@);
            assert(first_match(hay@, needle@, q as int) == Some(q as int));
            return Some(q);
        }
        assert(hay@.subrange(q as int, q + m) != needle@) by {
            let w = choose|u: int| 0 <= u < m && hay@[q + u] != needle@[u];
            assert(hay@.subrange(q as int, q + m)[w] != needle@[w]);
        }
        if q >= n {
            assert(first_match(hay@, needle@, q as int) is None);
            return None;
        }
        q += 1;
    }
    assert(first_match(hay@, needle@, q as int) is None);
    None
}

/// The first occurrence of the bytes `needle` in the bytes `hay` at or
/// after `p`.
pub fn find_bytes_from(hay: &[u8], needle: &[u8], p: usize) -> (r: Option<usize>)
    ensures
        r is Some <==> first_match(hay@, needle@, p as int) is Some,
        r matches Some(q) ==> first_match(hay@, needle@, p as int) == Some(q as int),
{
    let n = hay.len();
    let m = needle.len();
    let mut q = p;
    while q <= n && m <= n - q
        invariant
            m == needle@.len(),
            n == hay@.len(),
            p <= q,
            first_match(hay@, needle@, p as int) == first_match(hay@, needle@, q as int),
        decreases n + 1 - q,
    {
        let mut t: usize = 0;
        let mut same = true;
        while t < m
            invariant
                m == needle@.len(),
                n == hay@.len(),
                q + m <= n,
                t <= m,
                same == (forall|u: int| 0 <= u < t ==> hay@[q + u] == needle@[u]),
            decreases m - t,
        {
            let idx = q + t;
            if hay[idx] != needle[t] {
                same = false;
            }
            t += 1;
        }
        if same {
            assert(hay@.subrange(q as int, q + m) =~= needle@);
            assert(first_match(hay@, needle@, q as int) == Some(q as int));
            return Some(q);
        }
        assert(hay@.subrange(q as int, q + m) != needle@) by {
            let w = choose|u: int| 0 <= u < m && hay@[q + u] != needle@[u];
            assert(hay@.subrange(q as int, q + m)[w] != needle@[w]);
        }
        if q >= n {
            assert(first_match(hay@, needle@, q as int) is None);
            return None;
        }
        q += 1;
    }
    assert(first_match(hay@, needle@, q as int) is None);
    None
}

/// Whether `s` begins with `prefix`.
pub fn starts_with(s: &str, prefix: &str) -> (r: bool)
    ensures
        r == prefix@.is_prefix_of(s@),
{
    let a = chars_of(s);
    let b = chars_of(prefix);
    if b.len() > a.len() {
        return false;
    }
    let mut i: usize = 0;
    while i < b.len()
        invariant
            b@.len() <= a@.len(),
            i <= b@.len(),
            a@ == s@,
            b@ == prefix@,
            forall|k: int| 0 <= k < i ==> a@[k] == b@[k],
        decreases b@.len() - i,
    {
        if a[i] != b[i] {
            assert(s@.subrange(0, prefix@.len() as int)[i as int] != prefix@[i as int]);
            return false;
        }
        i += 1;
    }
    assert(s@.subrange(0, prefix@.len() as int) =~= prefix@);
    true
}

/// The character sequences of a list of string literals.
pub open spec fn literal_views(list: Seq<&'static str>) -> Seq<Seq<char>> {
    list.map_values(|w: &'static str| w@)
}

/// Whether the characters `s` are one of the strings in `list`.
pub fn in_list(s: &[char], list: &Vec<&'static str>) -> (r: bool)
    ensures
        r == literal_views(list@).contains(s@),
{
    let ghost views = literal_views(list@);
    let mut k: usize = 0;
    while k < list.len()
        invariant
            views == literal_views(list@),
            k <= list@.len(),
            forall|t: int| 0 <= t < k ==> views[t] != s@,
        decreases list@.len() - k,
    {
        let w = chars_of(list[k]);
        if chars_eq(w.as_slice(), s) {
            assert(views[k as int] == s@);
            return true;
        }
        k += 1;
    }
    false
}

/// The length of `s` in UTF-8 bytes.
pub fn byte_len(s: &str) -> (n: usize)
    ensures
        n == encode_utf8(s@).len(),
{
    s.as_bytes().len()
}

/// A byte below 0x80 sits on a character boundary of valid UTF-8.
pub proof fn lemma_ascii_is_boundary(b: Seq<u8>, k: int)
    requires
        valid_utf8(b),
        0 <= k < b.len(),
        b[k] < 128,
    ensures
        is_char_boundary(b, k),
{
    is_char_boundary_iff_not_is_continuation_byte(b, k);
}

/// The position just after a byte below 0x80 is a character boundary of
/// valid UTF-8.
pub proof fn lemma_after_ascii_boundary(b: Seq<u8>, k: int)
    requires
        valid_utf8(b),
        0 <= k < b.len(),
        b[k] < 128,
    ensures
        is_char_boundary(b, k + 1),
    decreases b.len(),
{
    lemma_ascii_is_boundary(b, k);
    let len1 = length_of_first_scalar(b);
    let rest = pop_first_scalar(b);
    assert(valid_first_scalar(b) && valid_utf8(rest));
    if k == 0 {
        assert(len1 == 1);
        assert(is_char_boundary(rest, 0));
    } else {
        assert(1 <= len1 <= 4);
        assert(is_char_boundary(b, k) == is_char_boundary(rest, k - len1));
        assert(k - len1 >= 0);
        assert(rest.len() == b.len() - len1);
        assert(rest[k - len1] == b[k]);
        lemma_after_ascii_boundary(rest, k - len1);
        assert(is_char_boundary(b, k + 1) == is_char_boundary(rest, k + 1 - len1));
    }
}

/// The encoding of a concatenation is the concatenation of the encodings.
pub proof fn lemma_encode_utf8_concat(a: Seq<char>, b: Seq<char>)
    ensures
        encode_utf8(a + b) == encode_utf8(a) + encode_utf8(b),
    decreases a.len(),
{
    if a.len() == 0 {
        assert(a + b =~= b);
    } else {
        lemma_encode_utf8_concat(a.drop_first(), b);
        assert((a + b).drop_first() =~= a.drop_first() + b);
        assert((a + b)[0] == a[0]);
        assert(encode_utf8(a + b) =~= encode_scalar(a[0] as u32) + encode_utf8(a.drop_first() + b));
    }
}

/// The characters of a valid UTF-8 byte sequence re-encode to it.
pub proof fn lemma_chars_of_bytes(s: Seq<char>)
    ensures
        decode_utf8(encode_utf8(s)) == s,
        valid_utf8(encode_utf8(s)),
{
    encode_utf8_decode_utf8(s);
    encode_utf8_valid_utf8(s);
}


/// A character boundary of `b` that lies within a prefix ending on another
/// boundary is a boundary of that prefix.
pub proof fn lemma_prefix_boundary(b: Seq<u8>, s: int, e: int)
    requires
        valid_utf8(b),
        0 <= s <= e <= b.len(),
        is_char_boundary(b, s),
        is_char_boundary(b, e),
    ensures
        valid_utf8(b.subrange(0, e)),
        is_char_boundary(b.subrange(0, e), s),
    decreases b.len(),
{
    valid_utf8_split(b, e);
    let p = b.subrange(0, e);
    if s == 0 {
    } else {
        let len1 = length_of_first_scalar(b);
        let rest = pop_first_scalar(b);
        assert(valid_first_scalar(b) && valid_utf8(rest));
        assert(1 <= len1 <= 4);
        assert(is_char_boundary(b, s) == is_char_boundary(rest, s - len1));
        assert(is_char_boundary(b, e) == is_char_boundary(rest, e - len1));
        assert(s - len1 >= 0);
        assert(p.len() == e);
        assert(p[0] == b[0]);
        assert(length_of_first_scalar(p) == len1);
        assert(forall|t: int| 0 <= t < len1 ==> p[t] == b[t]);
        assert(valid_first_scalar(p));
        let prest = pop_first_scalar(p);
        assert(prest =~= rest.subrange(0, e - len1));
        lemma_prefix_boundary(rest, s - len1, e - len1);
        assert(is_char_boundary(p, s) == is_char_boundary(prest, s - len1));
    }
}

/// The characters of the byte range `[s, e)` of `text`.
pub fn substring<'a>(text: &'a str, s: usize, e: usize) -> (r: &'a str)
    requires
        s <= e <= encode_utf8(text@).len(),
        is_char_boundary(encode_utf8(text@), s as int),
        is_char_boundary(encode_utf8(text@), e as int),
    ensures
        encode_utf8(r@) == encode_utf8(text@).subrange(s as int, e as int),
        r@ == decode_utf8(encode_utf8(text@).subrange(s as int, e as int)),
{
    let ghost b = encode_utf8(text@);
    proof {
        lemma_chars_of_bytes(text@);
        lemma_prefix_boundary(b, s as int, e as int);
    }
    let (head, _) = text.split_at(e);
    assert(encode_utf8(head@) =~= b.subrange(0, e as int));
    let (_, mid) = head.split_at(s);
    assert(encode_utf8(mid@) =~= b.subrange(s as int, e as int));
    proof {
        lemma_chars_of_bytes(mid@);
    }
    mid
}

} // verus!
