//! Project-relative paths as character sequences with `/` separators (as a
//! directory scan yields them): their parent, last segment, extension and
//! depth, the directories that contain them, and the order in which the
//! file-system dock lists them (character by character, by code point).

use vstd::prelude::*;

verus! {

/// Whether `a` comes strictly before `b`, comparing character by character
/// (a proper prefix comes first).
pub open spec fn path_lt(a: Seq<char>, b: Seq<char>) -> bool
    decreases a.len(),
{
    if a.len() == 0 {
        b.len() > 0
    } else if b.len() == 0 {
        false
    } else if a[0] != b[0] {
        a[0] < b[0]
    } else {
        path_lt(a.drop_first(), b.drop_first())
    }
}

/// Nothing comes before itself, and of two paths at most one comes first.
pub proof fn lemma_path_lt_asym(a: Seq<char>, b: Seq<char>)
    ensures
        !(path_lt(a, b) && path_lt(b, a)),
        !path_lt(a, a),
    decreases a.len(),
{
    if a.len() > 0 && b.len() > 0 && a[0] == b[0] {
        lemma_path_lt_asym(a.drop_first(), b.drop_first());
    }
    if a.len() > 0 {
        lemma_path_lt_asym(a.drop_first(), a.drop_first());
    }
}

/// The order is transitive.
pub proof fn lemma_path_lt_trans(a: Seq<char>, b: Seq<char>, c: Seq<char>)
    requires
        path_lt(a, b),
        path_lt(b, c),
    ensures
        path_lt(a, c),
    decreases a.len(),
{
    if a.len() > 0 && b.len() > 0 && c.len() > 0 && a[0] == b[0] && b[0] == c[0] {
        lemma_path_lt_trans(a.drop_first(), b.drop_first(), c.drop_first());
    }
}

/// Two different paths are ordered one way or the other.
pub proof fn lemma_path_lt_total(a: Seq<char>, b: Seq<char>)
    ensures
        a == b || path_lt(a, b) || path_lt(b, a),
    decreases a.len(),
{
    if a.len() > 0 && b.len() > 0 && a[0] == b[0] {
        lemma_path_lt_total(a.drop_first(), b.drop_first());
        if a.drop_first() == b.drop_first() {
            assert(a =~= seq![a[0]] + a.drop_first());
            assert(b =~= seq![b[0]] + b.drop_first());
        }
    } else if a.len() == 0 && b.len() == 0 {
        assert(a =~= b);
    }
}

/// Whether `a` comes strictly before `b`.
pub fn path_less(a: &[char], b: &[char]) -> (r: bool)
    ensures
        r == path_lt(a@, b@),
{
    let mut i: usize = 0;
    assert(a@.skip(0) =~= a@ && b@.skip(0) =~= b@);
    while i < a.len() && i < b.len() && a[i] == b[i]
        invariant
            i <= a@.len(),
            i <= b@.len(),
            path_lt(a@, b@) == path_lt(a@.skip(i as int), b@.skip(i as int)),
        decreases a@.len() - i,
    {
        proof {
            let (x, y) = (a@.skip(i as int), b@.skip(i as int));
            assert(x.drop_first() =~= a@.skip(i + 1));
            assert(y.drop_first() =~= b@.skip(i + 1));
        }
        i += 1;
    }
    if i == a.len() {
        i < b.len()
    } else if i == b.len() {
        false
    } else {
        a[i] < b[i]
    }
}

/// The number of `/` separators in `s`.
pub open spec fn slash_count(s: Seq<char>) -> nat
    decreases s.len(),
{
    if s.len() == 0 {
        0
    } else {
        slash_count(s.drop_last()) + if s.last() == '/' { 1nat } else { 0nat }
    }
}

/// The position of the last `/` in `s`, if any.
pub open spec fn last_slash(s: Seq<char>) -> Option<int>
    decreases s.len(),
{
    if s.len() == 0 {
        None
    } else if s.last() == '/' {
        Some(s.len() - 1)
    } else {
        last_slash(s.drop_last())
    }
}

/// The position of the last `.` in `s`, if any.
pub open spec fn last_dot(s: Seq<char>) -> Option<int>
    decreases s.len(),
{
    if s.len() == 0 {
        None
    } else if s.last() == '.' {
        Some(s.len() - 1)
    } else {
        last_dot(s.drop_last())
    }
}

/// The directory that holds `s` (empty at the top level).
pub open spec fn parent_of(s: Seq<char>) -> Seq<char> {
    match last_slash(s) {
        Some(k) => s.subrange(0, k),
        None => Seq::empty(),
    }
}

/// The last segment of `s`: a file or directory name.
pub open spec fn name_of(s: Seq<char>) -> Seq<char> {
    match last_slash(s) {
        Some(k) => s.subrange(k + 1, s.len() as int),
        None => s,
    }
}

/// The extension of a file name: what follows its last `.`, or nothing
/// when it has no `.` or its only `.` starts it.
pub open spec fn ext_of(name: Seq<char>) -> Seq<char> {
    match last_dot(name) {
        Some(k) => if k > 0 { name.subrange(k + 1, name.len() as int) } else { Seq::empty() },
        None => Seq::empty(),
    }
}

/// The directories that contain `s`: its prefixes that end just before a
/// `/`.
pub open spec fn containing_dirs(s: Seq<char>) -> Set<Seq<char>> {
    Set::new(|d: Seq<char>| exists|k: int| 0 <= k < s.len() && s[k] == '/' && d == #[trigger] s.subrange(0, k))
}

proof fn lemma_last_slash(s: Seq<char>)
    ensures
        match last_slash(s) {
            Some(k) => 0 <= k < s.len() && s[k] == '/' && forall|j: int| k < j < s.len() ==> s[j] != '/',
            None => forall|j: int| 0 <= j < s.len() ==> s[j] != '/',
        },
    decreases s.len(),
{
    if s.len() > 0 && s.last() != '/' {
        lemma_last_slash(s.drop_last());
        assert forall|j: int| 0 <= j < s.len() - 1 implies s.drop_last()[j] == s[j] by {}
    }
}

pub proof fn lemma_last_dot(s: Seq<char>)
    ensures
        match last_dot(s) {
            Some(k) => 0 <= k < s.len() && s[k] == '.' && forall|j: int| k < j < s.len() ==> s[j] != '.',
            None => forall|j: int| 0 <= j < s.len() ==> s[j] != '.',
        },
    decreases s.len(),
{
    if s.len() > 0 && s.last() != '.' {
        lemma_last_dot(s.drop_last());
        assert forall|j: int| 0 <= j < s.len() - 1 implies s.drop_last()[j] == s[j] by {}
    }
}

/// The position of the last occurrence of `c` in `s`.
fn last_index_of(s: &[char], c: char) -> (r: Option<usize>)
    ensures
        match r {
            Some(k) => k < s@.len() && s@[k as int] == c && forall|j: int| k < j < s@.len() ==> s@[j] != c,
            None => forall|j: int| 0 <= j < s@.len() ==> s@[j] != c,
        },
{
    let mut i: usize = s.len();
    while i > 0
        invariant
            i <= s@.len(),
            forall|j: int| i <= j < s@.len() ==> s@[j] != c,
        decreases i,
    {
        if s[i - 1] == c {
            return Some(i - 1);
        }
        i -= 1;
    }
    None
}

/// The position of the last `/` in `s`, if any.
pub fn find_last_slash(s: &[char]) -> (r: Option<usize>)
    ensures
        match r {
            Some(k) => last_slash(s@) == Some(k as int),
            None => last_slash(s@) is None,
        },
{
    proof {
        lemma_last_slash(s@);
    }
    let r = last_index_of(s, '/');
    proof {
        match (r, last_slash(s@)) {
            (Some(a), Some(b)) => {
                if a < b {
                    assert(s@[b] != '/');
                }
                if b < a {
                    assert(s@[a as int] != '/');
                }
            },
            (Some(a), None) => {
                assert(s@[a as int] != '/');
            },
            (None, Some(b)) => {
                assert(s@[b] != '/');
            },
            (None, None) => {},
        }
    }
    r
}

/// The position of the last `.` in `s`, if any.
pub fn find_last_dot(s: &[char]) -> (r: Option<usize>)
    ensures
        match r {
            Some(k) => last_dot(s@) == Some(k as int),
            None => last_dot(s@) is None,
        },
{
    proof {
        lemma_last_dot(s@);
    }
    let r = last_index_of(s, '.');
    proof {
        match (r, last_dot(s@)) {
            (Some(a), Some(b)) => {
                if a < b {
                    assert(s@[b] != '.');
                }
                if b < a {
                    assert(s@[a as int] != '.');
                }
            },
            (Some(a), None) => {
                assert(s@[a as int] != '.');
            },
            (None, Some(b)) => {
                assert(s@[b] != '.');
            },
            (None, None) => {},
        }
    }
    r
}

/// Copies `s[lo..hi]`.
pub fn slice_chars(s: &[char], lo: usize, hi: usize) -> (r: Vec<char>)
    requires
        lo <= hi <= s@.len(),
    ensures
        r@ == s@.subrange(lo as int, hi as int),
{
    let mut r: Vec<char> = Vec::new();
    let mut i = lo;
    while i < hi
        invariant
            lo <= i <= hi,
            hi <= s@.len(),
            r@ == s@.subrange(lo as int, i as int),
        decreases hi - i,
    {
        r.push(s[i]);
        i += 1;
        assert(r@ =~= s@.subrange(lo as int, i as int));
    }
    r
}

/// The directory that holds `s`.
pub fn parent_chars(s: &[char]) -> (r: Vec<char>)
    ensures
        r@ == parent_of(s@),
{
    match find_last_slash(s) {
        Some(k) => {
            proof {
                lemma_last_slash(s@);
            }
            slice_chars(s, 0, k)
        },
        None => Vec::new(),
    }
}

/// The last segment of `s`.
pub fn name_chars(s: &[char]) -> (r: Vec<char>)
    ensures
        r@ == name_of(s@),
{
    match find_last_slash(s) {
        Some(k) => {
            proof {
                lemma_last_slash(s@);
            }
            let n = s.len();
            assert(k < n);
            slice_chars(s, k + 1, n)
        },
        None => {
            let r = slice_chars(s, 0, s.len());
            assert(r@ =~= s@);
            r
        },
    }
}

/// The extension of the file name `name`.
pub fn ext_chars(name: &[char]) -> (r: Vec<char>)
    ensures
        r@ == ext_of(name@),
{
    match find_last_dot(name) {
        Some(k) => {
            proof {
                lemma_last_dot(name@);
            }
            let n = name.len();
            assert(k < n);
            if k > 0 {
                slice_chars(name, k + 1, n)
            } else {
                Vec::new()
            }
        },
        None => Vec::new(),
    }
}

/// The number of `/` in `s`.
pub fn count_slashes(s: &[char]) -> (n: usize)
    ensures
        n == slash_count(s@),
{
    let mut n: usize = 0;
    let mut i: usize = 0;
    while i < s.len()
        invariant
            i <= s@.len(),
            n == slash_count(s@.take(i as int)),
            n <= i,
        decreases s@.len() - i,
    {
        assert(s@.take(i + 1).drop_last() =~= s@.take(i as int));
        if s[i] == '/' {
            n += 1;
        }
        i += 1;
    }
    assert(s@.take(s@.len() as int) =~= s@);
    n
}

/// Only the empty path has no `/` and no characters.
pub proof fn lemma_slash_count_zero(s: Seq<char>)
    ensures
        (slash_count(s) + if s.len() == 0 { 0nat } else { 1nat }) == 0 <==> s.len() == 0,
{
}

} // verus!
