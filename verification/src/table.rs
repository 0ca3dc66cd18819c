//! Small string-keyed tables held in vectors: a list of `(key, value)` pairs
//! with distinct keys seen as a map, and a list of distinct strings seen as
//! a set. The editor models use them where the original keeps a map or set
//! keyed by path or name.

use vstd::prelude::*;
use crate::text::str_eq;

verus! {

broadcast use vstd::string::group_string_axioms;

/// No two entries share a key.
pub open spec fn keys_unique<V>(s: Seq<(String, V)>) -> bool {
    forall|i: int, j: int| 0 <= i < s.len() && 0 <= j < s.len() && i != j ==> s[i].0@ != s[j].0@
}

/// Whether some entry has key `k`.
pub open spec fn has_key<V>(s: Seq<(String, V)>, k: Seq<char>) -> bool {
    exists|i: int| 0 <= i < s.len() && #[trigger] s[i].0@ == k
}

/// The entries as a map from key characters to value.
pub open spec fn table_view<V>(s: Seq<(String, V)>) -> Map<Seq<char>, V> {
    Map::new(
        |k: Seq<char>| has_key(s, k),
        |k: Seq<char>| s[choose|i: int| 0 <= i < s.len() && #[trigger] s[i].0@ == k].1,
    )
}

/// The entry with a given key determines the map's value there.
pub proof fn lemma_table_lookup<V>(s: Seq<(String, V)>, i: int)
    requires
        keys_unique(s),
        0 <= i < s.len(),
    ensures
        table_view(s).contains_key(s[i].0@),
        table_view(s)[s[i].0@] == s[i].1,
{
    assert(has_key(s, s[i].0@));
    let j = choose|j: int| 0 <= j < s.len() && #[trigger] s[j].0@ == s[i].0@;
    assert(j == i);
}

/// Appending an entry with a new key inserts it into the map.
pub proof fn lemma_table_push<V>(s: Seq<(String, V)>, k: String, v: V)
    requires
        keys_unique(s),
        !has_key(s, k@),
    ensures
        keys_unique(s.push((k, v))),
        table_view(s.push((k, v))) == table_view(s).insert(k@, v),
{
    let t = s.push((k, v));
    assert forall|i: int, j: int| 0 <= i < t.len() && 0 <= j < t.len() && i != j implies t[i].0@ != t[j].0@ by {
        if i < s.len() && j < s.len() {
            assert(t[i] == s[i] && t[j] == s[j]);
        } else if i < s.len() {
            assert(t[i] == s[i]);
        } else {
            assert(t[j] == s[j]);
        }
    }
    assert forall|key: Seq<char>| #[trigger] has_key(t, key) == (has_key(s, key) || key == k@) by {
        if has_key(s, key) {
            let i = choose|i: int| 0 <= i < s.len() && #[trigger] s[i].0@ == key;
            assert(t[i] == s[i]);
        }
        if key == k@ {
            assert(t[s.len() as int].0@ == key);
        }
        if has_key(t, key) {
            let i = choose|i: int| 0 <= i < t.len() && #[trigger] t[i].0@ == key;
            if i < s.len() {
                assert(t[i] == s[i]);
            }
        }
    }
    assert forall|key: Seq<char>| #[trigger] has_key(t, key) implies table_view(t)[key] == table_view(s).insert(k@, v)[key] by {
        let j = choose|j: int| 0 <= j < t.len() && #[trigger] t[j].0@ == key;
        if key == k@ {
            lemma_table_lookup(t, s.len() as int);
        } else {
            let i = choose|i: int| 0 <= i < s.len() && #[trigger] s[i].0@ == key;
            assert(t[i] == s[i]);
            lemma_table_lookup(t, i);
            lemma_table_lookup(s, i);
        }
    }
    assert(table_view(t) =~= table_view(s).insert(k@, v));
}

/// Replacing the value of an entry updates the map at its key.
pub proof fn lemma_table_set<V>(s: Seq<(String, V)>, i: int, v: V)
    requires
        keys_unique(s),
        0 <= i < s.len(),
    ensures
        keys_unique(s.update(i, (s[i].0, v))),
        table_view(s.update(i, (s[i].0, v))) == table_view(s).insert(s[i].0@, v),
{
    let t = s.update(i, (s[i].0, v));
    assert forall|a: int, b: int| 0 <= a < t.len() && 0 <= b < t.len() && a != b implies t[a].0@ != t[b].0@ by {
        assert(t[a].0 == s[a].0 && t[b].0 == s[b].0);
    }
    assert forall|key: Seq<char>| #[trigger] has_key(t, key) == has_key(s, key) by {
        if has_key(s, key) {
            let j = choose|j: int| 0 <= j < s.len() && #[trigger] s[j].0@ == key;
            assert(t[j].0 == s[j].0);
        }
        if has_key(t, key) {
            let j = choose|j: int| 0 <= j < t.len() && #[trigger] t[j].0@ == key;
            assert(t[j].0 == s[j].0);
        }
    }
    assert forall|key: Seq<char>| #[trigger] has_key(t, key) implies table_view(t)[key] == table_view(s).insert(s[i].0@, v)[key] by {
        let j = choose|j: int| 0 <= j < t.len() && #[trigger] t[j].0@ == key;
        assert(t[j].0 == s[j].0);
        lemma_table_lookup(t, j);
        lemma_table_lookup(s, j);
    }
    assert(has_key(s, s[i].0@));
    assert(table_view(t) =~= table_view(s).insert(s[i].0@, v));
}

/// Removing an entry removes its key from the map.
pub proof fn lemma_table_remove<V>(s: Seq<(String, V)>, i: int)
    requires
        keys_unique(s),
        0 <= i < s.len(),
    ensures
        keys_unique(s.remove(i)),
        table_view(s.remove(i)) == table_view(s).remove(s[i].0@),
{
    let t = s.remove(i);
    assert forall|a: int| 0 <= a < t.len() implies #[trigger] t[a] == s[if a < i { a } else { a + 1 }] by {}
    assert forall|a: int, b: int| 0 <= a < t.len() && 0 <= b < t.len() && a != b implies t[a].0@ != t[b].0@ by {
        assert(t[a] == s[if a < i { a } else { a + 1 }]);
        assert(t[b] == s[if b < i { b } else { b + 1 }]);
    }
    assert forall|key: Seq<char>| #[trigger] has_key(t, key) == (has_key(s, key) && key != s[i].0@) by {
        if has_key(t, key) {
            let a = choose|a: int| 0 <= a < t.len() && #[trigger] t[a].0@ == key;
            let sa = if a < i { a } else { a + 1 };
            assert(t[a] == s[sa]);
            assert(s[sa].0@ == key);
        }
        if has_key(s, key) && key != s[i].0@ {
            let j = choose|j: int| 0 <= j < s.len() && #[trigger] s[j].0@ == key;
            let a = if j < i { j } else { j - 1 };
            assert(j != i);
            assert(t[a] == s[j]);
        }
    }
    assert forall|key: Seq<char>| #[trigger] has_key(t, key) implies table_view(t)[key] == table_view(s)[key] by {
        let a = choose|a: int| 0 <= a < t.len() && #[trigger] t[a].0@ == key;
        let sa = if a < i { a } else { a + 1 };
        assert(t[a] == s[sa]);
        lemma_table_lookup(t, a);
        lemma_table_lookup(s, sa);
    }
    assert(table_view(t) =~= table_view(s).remove(s[i].0@));
}

/// The index of the entry with key `key`.
pub fn table_find<V>(t: &Vec<(String, V)>, key: &str) -> (r: Option<usize>)
    ensures
        match r {
            Some(i) => i < t@.len() && t@[i as int].0@ == key@,
            None => !has_key(t@, key@),
        },
{
    let mut i: usize = 0;
    while i < t.len()
        invariant
            i <= t@.len(),
            forall|j: int| 0 <= j < i ==> #[trigger] t@[j].0@ != key@,
        decreases t@.len() - i,
    {
        if str_eq(t[i].0.as_str(), key) {
            return Some(i);
        }
        i += 1;
    }
    None
}

/// The characters of each string, in order.
pub open spec fn string_views(s: Seq<String>) -> Seq<Seq<char>> {
    s.map_values(|x: String| x@)
}

/// No two strings are equal.
pub open spec fn strings_unique(s: Seq<String>) -> bool {
    forall|i: int, j: int| 0 <= i < s.len() && 0 <= j < s.len() && i != j ==> s[i]@ != s[j]@
}

/// The strings as a set of character sequences.
pub open spec fn string_set(s: Seq<String>) -> Set<Seq<char>> {
    Set::new(|k: Seq<char>| exists|i: int| 0 <= i < s.len() && #[trigger] s[i]@ == k)
}

/// The index of `key` among `t`.
pub fn string_find(t: &Vec<String>, key: &str) -> (r: Option<usize>)
    ensures
        match r {
            Some(i) => i < t@.len() && t@[i as int]@ == key@,
            None => !string_set(t@).contains(key@),
        },
{
    let mut i: usize = 0;
    while i < t.len()
        invariant
            i <= t@.len(),
            forall|j: int| 0 <= j < i ==> #[trigger] t@[j]@ != key@,
        decreases t@.len() - i,
    {
        if str_eq(t[i].as_str(), key) {
            return Some(i);
        }
        i += 1;
    }
    None
}

/// Appending a new string adds it to the set.
pub proof fn lemma_string_set_push(s: Seq<String>, k: String)
    requires
        strings_unique(s),
        !string_set(s).contains(k@),
    ensures
        strings_unique(s.push(k)),
        string_set(s.push(k)) == string_set(s).insert(k@),
{
    let t = s.push(k);
    assert forall|i: int, j: int| 0 <= i < t.len() && 0 <= j < t.len() && i != j implies t[i]@ != t[j]@ by {
        if i < s.len() { assert(t[i] == s[i]); }
        if j < s.len() { assert(t[j] == s[j]); }
    }
    assert forall|key: Seq<char>| #[trigger] string_set(t).contains(key) == string_set(s).insert(k@).contains(key) by {
        if string_set(s).contains(key) {
            let i = choose|i: int| 0 <= i < s.len() && #[trigger] s[i]@ == key;
            assert(t[i] == s[i]);
        }
        if key == k@ {
            assert(t[s.len() as int]@ == key);
        }
        if string_set(t).contains(key) {
            let i = choose|i: int| 0 <= i < t.len() && #[trigger] t[i]@ == key;
            if i < s.len() { assert(t[i] == s[i]); }
        }
    }
    assert(string_set(t) =~= string_set(s).insert(k@));
}

/// Removing a string removes it from the set.
pub proof fn lemma_string_set_remove(s: Seq<String>, i: int)
    requires
        strings_unique(s),
        0 <= i < s.len(),
    ensures
        strings_unique(s.remove(i)),
        string_set(s.remove(i)) == string_set(s).remove(s[i]@),
{
    let t = s.remove(i);
    assert forall|a: int| 0 <= a < t.len() implies #[trigger] t[a] == s[if a < i { a } else { a + 1 }] by {}
    assert forall|a: int, b: int| 0 <= a < t.len() && 0 <= b < t.len() && a != b implies t[a]@ != t[b]@ by {
        assert(t[a] == s[if a < i { a } else { a + 1 }]);
        assert(t[b] == s[if b < i { b } else { b + 1 }]);
    }
    assert forall|key: Seq<char>| #[trigger] string_set(t).contains(key) == string_set(s).remove(s[i]@).contains(key) by {
        if string_set(t).contains(key) {
            let a = choose|a: int| 0 <= a < t.len() && #[trigger] t[a]@ == key;
            let sa = if a < i { a } else { a + 1 };
            assert(t[a] == s[sa]);
        }
        if string_set(s).contains(key) && key != s[i]@ {
            let j = choose|j: int| 0 <= j < s.len() && #[trigger] s[j]@ == key;
            let a = if j < i { j } else { j - 1 };
            assert(t[a] == s[j]);
        }
    }
    assert(string_set(t) =~= string_set(s).remove(s[i]@));
}

} // verus!
