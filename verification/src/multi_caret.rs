//! Multiple carets for the script editor. Carets are byte offsets into the
//! buffer, kept sorted and unique. Typing inserts the same text at every
//! caret at once, each caret moving past what it inserted; Escape collapses
//! the set back to the primary caret.

use vstd::prelude::*;
use vstd::utf8::*;
use crate::text::{byte_len, find_bytes_from, first_match, lemma_chars_of_bytes, lemma_encode_utf8_concat,
    lemma_first_match, owned, push_str, substring};

verus! {

broadcast use vstd::string::group_string_axioms;

/// `pos`, or `len` when `pos` is past it.
pub open spec fn clamped(pos: usize, len: nat) -> usize {
    if pos <= len { pos } else { len as usize }
}

/// Whether the offsets strictly increase.
pub open spec fn strictly_sorted(s: Seq<usize>) -> bool {
    forall|i: int, j: int| 0 <= i < j < s.len() ==> s[i] < s[j]
}

/// The bytes `b` with `ins` inserted at every offset of `cs` (offsets into
/// `b`, in increasing order).
pub open spec fn spliced(b: Seq<u8>, cs: Seq<usize>, ins: Seq<u8>) -> Seq<u8>
    decreases cs.len(),
{
    if cs.len() == 0 {
        b
    } else {
        let last = cs.last() as int;
        spliced(b.subrange(0, last), cs.drop_last(), ins) + ins + b.subrange(last, b.len() as int)
    }
}

/// Where caret `k` (offset `c`) lands after inserting `n` bytes at it and at
/// every caret before it.
pub open spec fn advanced(c: usize, k: int, n: nat) -> int {
    c + (k + 1) * n
}

/// Inserting `ins` at the offsets `cs`: extending `b` past the last offset
/// extends the result by the same bytes.
proof fn lemma_spliced_extend(b: Seq<u8>, cs: Seq<usize>, ins: Seq<u8>, m: int, n: int)
    requires
        0 <= m <= n <= b.len(),
        forall|k: int| 0 <= k < cs.len() ==> cs[k] <= m,
    ensures
        spliced(b.subrange(0, n), cs, ins) == spliced(b.subrange(0, m), cs, ins) + b.subrange(m, n),
{
    if cs.len() == 0 {
        assert(b.subrange(0, n) =~= b.subrange(0, m) + b.subrange(m, n));
    } else {
        let last = cs.last() as int;
        assert(b.subrange(0, n).subrange(0, last) =~= b.subrange(0, m).subrange(0, last));
        let head = spliced(b.subrange(0, last), cs.drop_last(), ins);
        assert(b.subrange(0, n).subrange(0, last) =~= b.subrange(0, last));
        assert(b.subrange(0, n).subrange(last, n) =~= b.subrange(0, m).subrange(last, m) + b.subrange(m, n));
        assert(head + ins + b.subrange(0, n).subrange(last, n) =~= (head + ins + b.subrange(0, m).subrange(last, m))
            + b.subrange(m, n));
    }
}

/// The length of a splice: every offset adds the inserted bytes once.
proof fn lemma_spliced_len(b: Seq<u8>, cs: Seq<usize>, ins: Seq<u8>)
    requires
        strictly_sorted(cs),
        forall|k: int| 0 <= k < cs.len() ==> cs[k] <= b.len(),
    ensures
        spliced(b, cs, ins).len() == b.len() + cs.len() * ins.len(),
    decreases cs.len(),
{
    if cs.len() > 0 {
        let last = cs.last() as int;
        let n = cs.len() as int;
        let a = ins.len() as int;
        lemma_spliced_len(b.subrange(0, last), cs.drop_last(), ins);
        assert((n - 1) * a + a == n * a) by (nonlinear_arith);
    }
}

/// After a splice, the bytes just before each advanced caret are the
/// inserted bytes.
proof fn lemma_spliced_before_caret(b: Seq<u8>, cs: Seq<usize>, ins: Seq<u8>, k: int)
    requires
        strictly_sorted(cs),
        forall|t: int| 0 <= t < cs.len() ==> cs[t] <= b.len(),
        0 <= k < cs.len(),
    ensures
        advanced(cs[k], k, ins.len()) - ins.len() >= 0,
        advanced(cs[k], k, ins.len()) <= spliced(b, cs, ins).len(),
        spliced(b, cs, ins).subrange(advanced(cs[k], k, ins.len()) - ins.len(), advanced(cs[k], k, ins.len())) == ins,
    decreases cs.len(),
{
    let n = cs.len() as int;
    let a = ins.len() as int;
    let last = cs.last() as int;
    let head = spliced(b.subrange(0, last), cs.drop_last(), ins);
    lemma_spliced_len(b, cs, ins);
    lemma_spliced_len(b.subrange(0, last), cs.drop_last(), ins);
    assert((k + 1) * a >= a) by (nonlinear_arith)
        requires
            k >= 0,
            a >= 0,
    ;
    assert((k + 1) * a <= n * a) by (nonlinear_arith)
        requires
            k + 1 <= n,
            a >= 0,
    ;
    let whole = spliced(b, cs, ins);
    if k == n - 1 {
        assert(head.len() == last + (n - 1) * a);
        assert((n - 1) * a + a == n * a) by (nonlinear_arith);
        assert(whole.subrange(head.len() as int, head.len() + a) =~= ins);
    } else {
        assert(cs[k] <= last);
        lemma_spliced_before_caret(b.subrange(0, last), cs.drop_last(), ins, k);
        assert(cs.drop_last()[k] == cs[k]);
        assert((k + 1) * a <= (n - 1) * a) by (nonlinear_arith)
            requires
                k + 1 <= n - 1,
                a >= 0,
        ;
        let p = advanced(cs[k], k, ins.len());
        assert(p <= head.len());
        assert(whole.subrange(p - a, p) =~= head.subrange(p - a, p));
    }
}

/// A text buffer with one or more carets.
#[derive(Debug, Clone)]
pub struct MultiCaret {
    text: String,
    carets: Vec<usize>,
}

impl MultiCaret {
    /// The buffer's characters.
    pub closed spec fn text_view(&self) -> Seq<char> {
        self.text@
    }

    /// The buffer's UTF-8 bytes, which the caret offsets index.
    pub open spec fn bytes(&self) -> Seq<u8> {
        encode_utf8(self.text_view())
    }

    /// The caret offsets, in increasing order.
    pub closed spec fn caret_seq(&self) -> Seq<usize> {
        self.carets@
    }

    /// At least one caret; offsets strictly increase and lie within the
    /// buffer.
    pub open spec fn wf(&self) -> bool {
        &&& self.caret_seq().len() > 0
        &&& strictly_sorted(self.caret_seq())
        &&& forall|k: int| 0 <= k < self.caret_seq().len() ==> self.caret_seq()[k] <= self.bytes().len()
    }

    /// Whether every caret sits on a character boundary.
    pub open spec fn carets_on_boundaries(&self) -> bool {
        forall|k: int| 0 <= k < self.caret_seq().len() ==> is_char_boundary(self.bytes(), self.caret_seq()[k] as int)
    }

    /// A buffer holding `text`, with one caret at the start.
    pub fn new(text: &str) -> (r: Self)
        ensures
            r.wf(),
            r.text_view() == text@,
            r.caret_seq() == seq![0usize],
    {
        let r = MultiCaret { text: owned(text), carets: vec![0] };
        assert(r.caret_seq() =~= seq![0usize]);
        r
    }

    /// The buffer text.
    pub fn text(&self) -> (r: &str)
        ensures
            r@ == self.text_view(),
    {
        self.text.as_str()
    }

    /// The caret offsets, in increasing order.
    pub fn carets(&self) -> (r: &[usize])
        ensures
            r@ == self.caret_seq(),
    {
        self.carets.as_slice()
    }

    /// The number of carets.
    pub fn caret_count(&self) -> (r: usize)
        ensures
            r == self.caret_seq().len(),
    {
        self.carets.len()
    }

    /// The primary caret: the lowest offset.
    pub fn primary_caret(&self) -> (r: usize)
        requires
            self.wf(),
        ensures
            r == self.caret_seq()[0],
            forall|k: int| 0 <= k < self.caret_seq().len() ==> r <= self.caret_seq()[k],
    {
        self.carets[0]
    }

    /// Replaces the carets by one at `pos`, clamped to the buffer.
    pub fn set_caret(&mut self, pos: usize)
        ensures
            final(self).wf(),
            final(self).text_view() == old(self).text_view(),
            final(self).caret_seq() == seq![if pos <= old(self).bytes().len() { pos } else { old(self).bytes().len() as usize }],
    {
        let len = byte_len(self.text.as_str());
        let p = if pos <= len { pos } else { len };
        self.carets = vec![p];
        assert(self.caret_seq() =~= seq![p]);
    }

    /// Adds a caret at `pos`, clamped to the buffer, keeping the offsets
    /// sorted and unique; returns whether the caret is new.
    pub fn add_caret(&mut self, pos: usize) -> (added: bool)
        requires
            old(self).wf(),
        ensures
            final(self).wf(),
            final(self).text_view() == old(self).text_view(),
            ({
                let p = clamped(pos, old(self).bytes().len());
                &&& added == !old(self).caret_seq().contains(p)
                &&& final(self).caret_seq().to_set() == old(self).caret_seq().to_set().insert(p)
                &&& strictly_sorted(final(self).caret_seq())
                &&& !added ==> final(self).caret_seq() == old(self).caret_seq()
                &&& added ==> exists|i: int| 0 <= i <= old(self).caret_seq().len()
                    && final(self).caret_seq() == old(self).caret_seq().insert(i, p)
            }),
    {
        let len = byte_len(self.text.as_str());
        let p = if pos <= len { pos } else { len };
        let n = self.carets.len();
        let mut i: usize = 0;
        while i < n && self.carets[i] < p
            invariant
                n == self.carets@.len(),
                i <= n,
                forall|k: int| 0 <= k < i ==> self.carets@[k] < p,
            decreases n - i,
        {
            i += 1;
        }
        if i < n && self.carets[i] == p {
            assert(self.caret_seq().contains(p));
            return false;
        }
        proof {
            assert forall|k: int| 0 <= k < n implies self.carets@[k] != p by {
                if k < i {
                } else {
                    assert(self.carets@[k] >= self.carets@[i as int]);
                }
            }
        }
        let ghost old_s = self.carets@;
        self.carets.insert(i, p);
        proof {
            let s = self.carets@;
            assert(s == old_s.insert(i as int, p));
            assert(p == clamped(pos, old(self).bytes().len()));
            assert(s =~= old_s.take(i as int).push(p) + old_s.skip(i as int));
            assert forall|a: int, b: int| 0 <= a < b < s.len() implies s[a] < s[b] by {
                if b < i {
                } else if b == i {
                } else if a < i {
                    assert(old_s[a] < p);
                    assert(s[b] == old_s[b - 1]);
                    assert(old_s[b - 1] >= old_s[i as int] || b - 1 == i);
                } else if a == i {
                    assert(s[b] == old_s[b - 1]);
                    assert(old_s[b - 1] >= old_s[i as int]);
                } else {
                    assert(s[a] == old_s[a - 1] && s[b] == old_s[b - 1]);
                }
            }
            assert forall|x: usize| s.contains(x) <==> old_s.contains(x) || x == p by {
                if s.contains(x) {
                    let k = choose|k: int| 0 <= k < s.len() && s[k] == x;
                    if k < i {
                        assert(old_s[k] == x);
                    } else if k > i {
                        assert(old_s[k - 1] == x);
                    }
                }
                if old_s.contains(x) {
                    let k = choose|k: int| 0 <= k < old_s.len() && old_s[k] == x;
                    if k < i {
                        assert(s[k] == x);
                    } else {
                        assert(s[k + 1] == x);
                    }
                }
                if x == p {
                    assert(s[i as int] == p);
                }
            }
            assert(s.to_set() =~= old_s.to_set().insert(p));
        }
        true
    }

    /// Adds a caret at the end of the first occurrence of `needle` that
    /// starts at or after the last caret (select next occurrence); returns
    /// whether one was found.
    pub fn select_next_occurrence(&mut self, needle: &str) -> (found: bool)
        requires
            old(self).wf(),
            is_char_boundary(old(self).bytes(), old(self).caret_seq().last() as int),
        ensures
            final(self).wf(),
            final(self).text_view() == old(self).text_view(),
            needle@.len() == 0 ==> !found && final(self).caret_seq() == old(self).caret_seq(),
            needle@.len() > 0 ==> match first_match(old(self).bytes(), encode_utf8(needle@), old(self).caret_seq().last() as int) {
                None => !found && final(self).caret_seq() == old(self).caret_seq(),
                Some(q) => found && final(self).caret_seq() == old(self).caret_seq().push((q + encode_utf8(needle@).len()) as usize),
            },
    {
        if needle.is_empty() {
            return false;
        }
        let n = self.carets.len();
        let from = self.carets[n - 1];
        let hay = self.text.as_str().as_bytes();
        let pat = needle.as_bytes();
        let hay_len = hay.len();
        match find_bytes_from(hay, pat, from) {
            Some(q) => {
                proof {
                    lemma_first_match(hay@, pat@, from as int);
                    assert(first_match(hay@, pat@, from as int) == Some(q as int));
                    assert(q + pat@.len() <= hay@.len());
                    assert(encode_utf8(needle@).len() > 0);
                }
                let end = q + pat.len();
                self.carets.push(end);
                true
            },
            None => false,
        }
    }

    /// Inserts `s` at every caret at once: each caret ends just after the
    /// text it inserted, and carets to the right shift by the text inserted
    /// to their left.
    pub fn insert(&mut self, s: &str)
        requires
            old(self).wf(),
            old(self).carets_on_boundaries(),
            old(self).bytes().len() + old(self).caret_seq().len() * encode_utf8(s@).len() <= usize::MAX,
        ensures
            final(self).wf(),
            final(self).bytes() == spliced(old(self).bytes(), old(self).caret_seq(), encode_utf8(s@)),
            final(self).caret_seq().len() == old(self).caret_seq().len(),
            forall|k: int| 0 <= k < final(self).caret_seq().len() ==>
                final(self).caret_seq()[k] == advanced(old(self).caret_seq()[k], k, encode_utf8(s@).len()),
    {
        let ghost b = encode_utf8(self.text@);
        let ghost cs = self.carets@;
        let ghost ins = encode_utf8(s@);
        proof {
            lemma_chars_of_bytes(self.text@);
            is_char_boundary_start_end_of_seq(b);
        }
        let add = byte_len(s);
        let n = self.carets.len();
        let mut out = String::new();
        let mut new_carets: Vec<usize> = Vec::new();
        let mut last: usize = 0;
        let mut shift: usize = 0;
        let mut i: usize = 0;
        while i < n
            invariant
                n == cs.len(),
                b == encode_utf8(self.text@),
                cs == self.carets@,
                ins == encode_utf8(s@),
                add == ins.len(),
                valid_utf8(b),
                is_char_boundary(b, 0),
                strictly_sorted(cs),
                forall|k: int| 0 <= k < n ==> cs[k] <= b.len(),
                forall|k: int| 0 <= k < n ==> is_char_boundary(b, cs[k] as int),
                b.len() + n * add <= usize::MAX,
                i <= n,
                last == (if i == 0 { 0 } else { cs[i - 1] }),
                shift == i * add,
                encode_utf8(out@) == spliced(b.subrange(0, last as int), cs.take(i as int), ins),
                new_carets@.len() == i,
                forall|k: int| 0 <= k < i ==> new_carets@[k] == advanced(cs[k], k, add as nat),
            decreases n - i,
        {
            let c = self.carets[i];
            proof {
                if i > 0 {
                    assert(cs[i - 1] < cs[i as int]);
                }
                assert((i + 1) * add <= n * add) by (nonlinear_arith)
                    requires
                        i + 1 <= n,
                ;
                assert(i * add + add == (i + 1) * add) by (nonlinear_arith);
            }
            let piece = substring(self.text.as_str(), last, c);
            let ghost before = out@;
            push_str(&mut out, piece);
            push_str(&mut out, s);
            proof {
                lemma_encode_utf8_concat(before, piece@);
                lemma_encode_utf8_concat(before + piece@, s@);
                assert(out@ == before + piece@ + s@);
                assert forall|k: int| 0 <= k < cs.take(i as int).len() implies cs.take(i as int)[k] <= last by {
                    assert(cs[k] <= cs[i - 1]);
                }
                lemma_spliced_extend(b, cs.take(i as int), ins, last as int, c as int);
                let t = cs.take(i + 1);
                assert(t.drop_last() =~= cs.take(i as int));
                assert(b.subrange(0, c as int).subrange(0, c as int) =~= b.subrange(0, c as int));
                assert(b.subrange(0, c as int).subrange(c as int, c as int) =~= Seq::<u8>::empty());
                assert(spliced(b.subrange(0, c as int), t, ins) == spliced(b.subrange(0, c as int), cs.take(i as int), ins)
                    + ins + Seq::<u8>::empty());
                assert(spliced(b.subrange(0, c as int), t, ins) =~= spliced(b.subrange(0, last as int), cs.take(i as int), ins)
                    + b.subrange(last as int, c as int) + ins);
            }
            new_carets.push(c + shift + add);
            last = c;
            shift = shift + add;
            i += 1;
        }
        let len = byte_len(self.text.as_str());
        let tail = substring(self.text.as_str(), last, len);
        let ghost before = out@;
        push_str(&mut out, tail);
        proof {
            lemma_encode_utf8_concat(before, tail@);
            assert forall|k: int| 0 <= k < n implies cs[k] <= last by {
                if k < n - 1 {
                    assert(cs[k] < cs[n - 1]);
                }
            }
            assert(cs.take(n as int) =~= cs);
            lemma_spliced_extend(b, cs, ins, last as int, b.len() as int);
            assert(b.subrange(0, b.len() as int) =~= b);
            lemma_spliced_len(b, cs, ins);
            assert forall|a: int, c: int| 0 <= a < c < n implies new_carets@[a] < new_carets@[c] by {
                assert((a + 1) * add <= (c + 1) * add) by (nonlinear_arith)
                    requires
                        a < c,
                ;
            }
            assert forall|k: int| 0 <= k < n implies new_carets@[k] <= b.len() + n * add by {
                assert((k + 1) * add <= n * add) by (nonlinear_arith)
                    requires
                        k + 1 <= n,
                ;
            }
        }
        self.text = out;
        self.carets = new_carets;
    }

    /// Collapses the carets to the primary one (Escape).
    pub fn collapse(&mut self)
        requires
            old(self).wf(),
        ensures
            final(self).wf(),
            final(self).text_view() == old(self).text_view(),
            final(self).caret_seq() == seq![old(self).caret_seq()[0]],
    {
        let primary = self.primary_caret();
        self.carets = vec![primary];
        assert(self.caret_seq() =~= seq![primary]);
    }
}

/// After typing at several carets, the bytes just before each caret are the
/// typed text.
pub proof fn law_insert_lands_after_text(b: Seq<u8>, cs: Seq<usize>, ins: Seq<u8>, k: int)
    requires
        strictly_sorted(cs),
        forall|t: int| 0 <= t < cs.len() ==> cs[t] <= b.len(),
        0 <= k < cs.len(),
    ensures
        0 <= advanced(cs[k], k, ins.len()) - ins.len(),
        advanced(cs[k], k, ins.len()) <= spliced(b, cs, ins).len(),
        spliced(b, cs, ins).subrange(advanced(cs[k], k, ins.len()) - ins.len(), advanced(cs[k], k, ins.len())) == ins,
        spliced(b, cs, ins).len() == b.len() + cs.len() * ins.len(),
{
    lemma_spliced_before_caret(b, cs, ins, k);
    lemma_spliced_len(b, cs, ins);
}

} // verus!
