//! The inspector panel's own state: the inspected node, favorite
//! properties (overall and pinned per class), export-group assignments, and
//! the sections it shows for a node: pinned favorites first, sorted by
//! name, then the remaining properties grouped by category in a fixed
//! order. The node's class and properties are what the scene gives for the
//! inspected node.

use vstd::prelude::*;
use crate::inspector::{category_of, ExportGroup, PropertyCategory};
use crate::inspector_history::NodeId;
use crate::inspector_sections::{category_title, in_category, InspectorSection, PropertyEntry};
use crate::paths::{path_less, path_lt, lemma_path_lt_asym, lemma_path_lt_total, lemma_path_lt_trans};
use crate::table::{has_key, keys_unique, lemma_string_set_push, lemma_string_set_remove, lemma_table_lookup,
    lemma_table_push, lemma_table_set, string_find, string_set, strings_unique, table_find, table_view};
use crate::text::{chars_of, owned, push_char, push_str};

verus! {

broadcast use vstd::string::group_string_axioms;

/// The names come in order (equal names may follow one another).
pub open spec fn names_in_order(s: Seq<Seq<char>>) -> bool {
    forall|i: int, j: int| 0 <= i < j < s.len() ==> !path_lt(#[trigger] s[j], #[trigger] s[i])
}

/// The characters of each string.
pub open spec fn string_seq(s: Seq<String>) -> Seq<Seq<char>> {
    s.map_values(|x: String| x@)
}

/// Adds `key` to the string set `t`.
fn set_insert(t: &mut Vec<String>, key: &str)
    requires
        strings_unique(old(t)@),
    ensures
        strings_unique(final(t)@),
        string_set(final(t)@) == string_set(old(t)@).insert(key@),
{
    match string_find(t, key) {
        Some(i) => {
            assert(string_set(t@).contains(key@)) by {
                assert(t@[i as int]@ == key@);
            }
            assert(string_set(t@).insert(key@) =~= string_set(t@));
        },
        None => {
            let s = owned(key);
            proof {
                lemma_string_set_push(t@, s);
            }
            t.push(s);
        },
    }
}

/// Removes `key` from the string set `t`.
fn set_remove(t: &mut Vec<String>, key: &str)
    requires
        strings_unique(old(t)@),
    ensures
        strings_unique(final(t)@),
        string_set(final(t)@) == string_set(old(t)@).remove(key@),
{
    match string_find(t, key) {
        Some(i) => {
            proof {
                lemma_string_set_remove(t@, i as int);
            }
            t.remove(i);
        },
        None => {
            assert(string_set(t@).remove(key@) =~= string_set(t@));
        },
    }
}

/// Whether `key` is in the string set `t`.
fn set_contains(t: &Vec<String>, key: &str) -> (r: bool)
    ensures
        r == string_set(t@).contains(key@),
{
    match string_find(t, key) {
        Some(i) => {
            assert(t@[i as int]@ == key@);
            true
        },
        None => false,
    }
}

/// Copies of the strings of `t`, in name order.
pub(crate) fn sorted_copy(t: &Vec<String>) -> (r: Vec<String>)
    ensures
        names_in_order(string_seq(r@)),
        string_seq(r@).to_multiset() == string_seq(t@).to_multiset(),
{
    let ghost orig = string_seq(t@);
    let mut r: Vec<String> = Vec::new();
    let mut i: usize = 0;
    assert(string_seq(r@).to_multiset() =~= orig.take(0).to_multiset()) by {
        assert(string_seq(r@) =~= orig.take(0));
    }
    while i < t.len()
        invariant
            orig == string_seq(t@),
            i <= t@.len(),
            names_in_order(string_seq(r@)),
            string_seq(r@).to_multiset() == orig.take(i as int).to_multiset(),
        decreases t@.len() - i,
    {
        let x = t[i].clone();
        let key = chars_of(x.as_str());
        let ghost s = string_seq(r@);
        let mut p: usize = 0;
        while p < r.len() && !path_less(key.as_slice(), chars_of(r[p].as_str()).as_slice())
            invariant
                s == string_seq(r@),
                p <= r@.len(),
                key@ == x@,
                forall|k: int| 0 <= k < p ==> !path_lt(x@, #[trigger] s[k]),
            decreases r@.len() - p,
        {
            p += 1;
        }
        proof {
            lemma_insert_in_order(s, p as int, x@);
        }
        r.insert(p, x);
        assert(string_seq(r@) =~= s.insert(p as int, x@));
        proof {
            vstd::seq_lib::to_multiset_insert(s, p as int, x@);
            assert(orig.take(i + 1) =~= orig.take(i as int).push(orig[i as int]));
            vstd::seq_lib::to_multiset_build(orig.take(i as int), orig[i as int]);
        }
        i += 1;
    }
    assert(orig.take(t@.len() as int) =~= orig);
    r
}

/// Inserting `x` after every name that does not come after it, and before
/// the first that does, keeps the names in order.
proof fn lemma_insert_in_order(s: Seq<Seq<char>>, p: int, x: Seq<char>)
    requires
        names_in_order(s),
        0 <= p <= s.len(),
        forall|k: int| 0 <= k < p ==> !path_lt(x, #[trigger] s[k]),
        p < s.len() ==> path_lt(x, s[p]),
    ensures
        names_in_order(s.insert(p, x)),
{
    let t = s.insert(p, x);
    assert forall|i: int, j: int| 0 <= i < j < t.len() implies !path_lt(#[trigger] t[j], #[trigger] t[i]) by {
        if j < p {
            assert(t[i] == s[i] && t[j] == s[j]);
        } else if j == p {
            assert(t[i] == s[i] && t[j] == x);
        } else if i == p {
            assert(t[i] == x && t[j] == s[j - 1]);
            if path_lt(s[j - 1], x) {
                lemma_path_lt_trans(s[j - 1], x, s[p]);
                if j - 1 > p {
                    assert(!path_lt(s[j - 1], s[p]));
                } else {
                    lemma_path_lt_asym(s[p], s[p]);
                }
            }
        } else if i < p {
            assert(t[i] == s[i] && t[j] == s[j - 1]);
        } else {
            assert(t[i] == s[i - 1] && t[j] == s[j - 1]);
        }
    }
}

/// The characters of an optional string slice.
pub open spec fn opt_str(o: Option<&str>) -> Option<Seq<char>> {
    match o {
        Some(s) => Some(s@),
        None => None,
    }
}

/// The characters of an optional string.
pub open spec fn opt_string(o: Option<String>) -> Option<Seq<char>> {
    match o {
        Some(s) => Some(s@),
        None => None,
    }
}

/// The favorites pinned for the class `class`, if it has a set.
pub open spec fn favs_of(pinned: Map<Seq<char>, Set<Seq<char>>>, class: Option<Seq<char>>) -> Option<Set<Seq<char>>> {
    match class {
        Some(c) => if pinned.contains_key(c) { Some(pinned[c]) } else { None },
        None => None,
    }
}

/// Keeps the entries named in `favs`.
pub open spec fn is_fav_entry<V>(favs: Option<Set<Seq<char>>>) -> spec_fn(PropertyEntry<V>) -> bool {
    |e: PropertyEntry<V>| match favs {
        Some(f) => f.contains(e.name@),
        None => false,
    }
}

/// Keeps the entries not named in `favs`.
pub open spec fn not_fav_entry<V>(favs: Option<Set<Seq<char>>>) -> spec_fn(PropertyEntry<V>) -> bool {
    |e: PropertyEntry<V>| !is_fav_entry(favs)(e)
}

/// The names of entries.
pub open spec fn entry_names<V>(s: Seq<PropertyEntry<V>>) -> Seq<Seq<char>> {
    s.map_values(|e: PropertyEntry<V>| e.name@)
}

/// The entry of a property given by name and value, with the category its
/// name puts it in.
pub open spec fn entry_of<V>(p: (String, V)) -> PropertyEntry<V> {
    PropertyEntry { name: p.0, value: p.1, category: category_of(p.0@) }
}

/// The order in which category sections are shown.
pub open spec fn category_order() -> Seq<PropertyCategory> {
    seq![PropertyCategory::Transform, PropertyCategory::Rendering, PropertyCategory::Physics,
        PropertyCategory::Script, PropertyCategory::Misc]
}

/// The category sections for `rest`, from the `k`-th category of the order
/// on: each category with entries, titled after it, holding its entries in
/// order.
pub open spec fn category_sections<V>(rest: Seq<PropertyEntry<V>>, k: int) -> Seq<(Seq<char>, PropertyCategory, Seq<PropertyEntry<V>>)>
    decreases 5 - k,
{
    if k < 0 || k >= 5 {
        Seq::empty()
    } else {
        let c = category_order()[k];
        let items = rest.filter(in_category(c));
        if items.len() > 0 {
            seq![(category_title(c), c, items)] + category_sections(rest, k + 1)
        } else {
            category_sections(rest, k + 1)
        }
    }
}

/// A section as its title, category and entries.
pub open spec fn section_view<V>(s: InspectorSection<V>) -> (Seq<char>, PropertyCategory, Seq<PropertyEntry<V>>) {
    (s.title(), s.kind(), s.items())
}

/// The views of a sequence of sections.
pub open spec fn section_views<V>(s: Seq<InspectorSection<V>>) -> Seq<(Seq<char>, PropertyCategory, Seq<PropertyEntry<V>>)> {
    s.map_values(|x: InspectorSection<V>| section_view(x))
}

/// The entries in name order (entries of equal names in their order),
/// holding the same entries as `items`.
fn sort_by_name<V>(items: Vec<PropertyEntry<V>>) -> (r: Vec<PropertyEntry<V>>)
    ensures
        names_in_order(entry_names(r@)),
        r@.to_multiset() == items@.to_multiset(),
{
    let ghost orig = items@;
    let mut r: Vec<PropertyEntry<V>> = Vec::new();
    assert(r@.to_multiset() =~= orig.take(0).to_multiset()) by {
        assert(r@ =~= orig.take(0));
    }
    for x in it: items.into_iter()
        invariant
            it.seq() == orig,
            names_in_order(entry_names(r@)),
            r@.to_multiset() == orig.take(it.index() as int).to_multiset(),
    {
        let ghost i = it.index() as int;
        let key = chars_of(x.name.as_str());
        let ghost s = r@;
        let ghost ns = entry_names(r@);
        let mut p: usize = 0;
        while p < r.len() && !path_less(key.as_slice(), chars_of(r[p].name.as_str()).as_slice())
            invariant
                s == r@,
                ns == entry_names(r@),
                p <= r@.len(),
                key@ == x.name@,
                forall|k: int| 0 <= k < p ==> !path_lt(x.name@, #[trigger] ns[k]),
            decreases r@.len() - p,
        {
            p += 1;
        }
        proof {
            lemma_insert_in_order(ns, p as int, x.name@);
        }
        let ghost xv = x;
        r.insert(p, x);
        proof {
            assert(r@ =~= s.insert(p as int, xv));
            assert(entry_names(r@) =~= ns.insert(p as int, xv.name@));
            vstd::seq_lib::to_multiset_insert(s, p as int, xv);
            assert(orig.take(i + 1) =~= orig.take(i).push(orig[i]));
            vstd::seq_lib::to_multiset_build(orig.take(i), orig[i]);
        }
    }
    assert(orig.take(orig.len() as int) =~= orig);
    r
}

/// Keeps the entries whose names are in `names`.
pub open spec fn named_in<V>(names: Set<Seq<char>>) -> spec_fn(PropertyEntry<V>) -> bool {
    |e: PropertyEntry<V>| names.contains(e.name@)
}

/// The export group name of the property `name`, if assigned.
pub open spec fn group_of(groups: Map<Seq<char>, ExportGroup>, name: Seq<char>) -> Option<Seq<char>> {
    if groups.contains_key(name) {
        Some(groups[name].group@)
    } else {
        None
    }
}

/// Keeps the entries assigned to the export group `g`.
pub open spec fn in_group<V>(groups: Map<Seq<char>, ExportGroup>, g: Seq<char>) -> spec_fn(PropertyEntry<V>) -> bool {
    |e: PropertyEntry<V>| group_of(groups, e.name@) == Some(g)
}

/// A filter that no element passes keeps nothing.
proof fn lemma_filter_none<A>(s: Seq<A>, pred: spec_fn(A) -> bool)
    requires
        forall|j: int| 0 <= j < s.len() ==> !#[trigger] pred(s[j]),
    ensures
        s.filter(pred) == Seq::<A>::empty(),
    decreases s.len(),
{
    reveal(Seq::filter);
    if s.len() > 0 {
        let init = s.drop_last();
        assert forall|j: int| 0 <= j < init.len() implies !#[trigger] pred(init[j]) by {
            assert(init[j] == s[j]);
        }
        lemma_filter_none(init, pred);
    }
    assert(s.filter(pred) =~= Seq::<A>::empty());
}

/// The inspector panel's state.
#[derive(Debug, Clone)]
pub struct InspectorPanel {
    inspected_node: Option<NodeId>,
    favorite_properties: Vec<String>,
    class_favorites: Vec<(String, Vec<String>)>,
    export_groups: Vec<(String, ExportGroup)>,
}

/// The string sets of a class-to-names table.
pub open spec fn class_sets(s: Seq<(String, Vec<String>)>) -> Map<Seq<char>, Set<Seq<char>>> {
    table_view(s).map_values(|v: Vec<String>| string_set(v@))
}

impl InspectorPanel {
    /// The inspected node, if any.
    pub closed spec fn inspected(&self) -> Option<NodeId> {
        self.inspected_node
    }

    /// The favorite property names.
    pub closed spec fn favorite_set(&self) -> Set<Seq<char>> {
        string_set(self.favorite_properties@)
    }

    /// The property names pinned as favorites, per class.
    pub closed spec fn pinned(&self) -> Map<Seq<char>, Set<Seq<char>>> {
        class_sets(self.class_favorites@)
    }

    /// The export group of each assigned property.
    pub closed spec fn groups(&self) -> Map<Seq<char>, ExportGroup> {
        table_view(self.export_groups@)
    }

    /// No name is listed twice.
    pub closed spec fn wf(&self) -> bool {
        &&& strings_unique(self.favorite_properties@)
        &&& keys_unique(self.class_favorites@)
        &&& forall|i: int| 0 <= i < self.class_favorites@.len() ==> strings_unique(#[trigger] self.class_favorites@[i].1@)
        &&& keys_unique(self.export_groups@)
    }

    /// An empty panel inspecting nothing.
    pub fn new() -> (r: Self)
        ensures
            r.wf(),
            r.inspected() is None,
            r.favorite_set() == Set::<Seq<char>>::empty(),
            r.pinned() == Map::<Seq<char>, Set<Seq<char>>>::empty(),
            r.groups() == Map::<Seq<char>, ExportGroup>::empty(),
    {
        let r = InspectorPanel {
            inspected_node: None,
            favorite_properties: Vec::new(),
            class_favorites: Vec::new(),
            export_groups: Vec::new(),
        };
        assert(r.favorite_set() =~= Set::<Seq<char>>::empty());
        assert(r.pinned() =~= Map::<Seq<char>, Set<Seq<char>>>::empty());
        assert(r.groups() =~= Map::<Seq<char>, ExportGroup>::empty());
        r
    }

    /// Inspects `node_id`.
    pub fn inspect(&mut self, node_id: NodeId)
        ensures
            final(self).inspected() == Some(node_id),
            final(self).wf() == old(self).wf(),
            final(self).favorite_set() == old(self).favorite_set(),
            final(self).pinned() == old(self).pinned(),
            final(self).groups() == old(self).groups(),
    {
        self.inspected_node = Some(node_id);
    }

    /// Inspects nothing.
    pub fn clear(&mut self)
        ensures
            final(self).inspected() is None,
            final(self).wf() == old(self).wf(),
            final(self).favorite_set() == old(self).favorite_set(),
            final(self).pinned() == old(self).pinned(),
            final(self).groups() == old(self).groups(),
    {
        self.inspected_node = None;
    }

    /// The inspected node, if any.
    pub fn inspected_node(&self) -> (r: Option<NodeId>)
        ensures
            r == self.inspected(),
    {
        self.inspected_node
    }

    /// Marks `property` as a favorite.
    pub fn add_favorite(&mut self, property: &str)
        requires
            old(self).wf(),
        ensures
            final(self).wf(),
            final(self).favorite_set() == old(self).favorite_set().insert(property@),
            final(self).inspected() == old(self).inspected(),
            final(self).pinned() == old(self).pinned(),
            final(self).groups() == old(self).groups(),
    {
        set_insert(&mut self.favorite_properties, property);
    }

    /// Unmarks `property` as a favorite.
    pub fn remove_favorite(&mut self, property: &str)
        requires
            old(self).wf(),
        ensures
            final(self).wf(),
            final(self).favorite_set() == old(self).favorite_set().remove(property@),
            final(self).inspected() == old(self).inspected(),
            final(self).pinned() == old(self).pinned(),
            final(self).groups() == old(self).groups(),
    {
        set_remove(&mut self.favorite_properties, property);
    }

    /// Toggles `property` as a favorite; returns whether it now is one.
    pub fn toggle_favorite(&mut self, property: &str) -> (r: bool)
        requires
            old(self).wf(),
        ensures
            final(self).wf(),
            r == !old(self).favorite_set().contains(property@),
            final(self).favorite_set() == if r {
                old(self).favorite_set().insert(property@)
            } else {
                old(self).favorite_set().remove(property@)
            },
            final(self).inspected() == old(self).inspected(),
            final(self).pinned() == old(self).pinned(),
            final(self).groups() == old(self).groups(),
    {
        if set_contains(&self.favorite_properties, property) {
            set_remove(&mut self.favorite_properties, property);
            false
        } else {
            set_insert(&mut self.favorite_properties, property);
            true
        }
    }

    /// Whether `property` is a favorite.
    pub fn is_favorite(&self, property: &str) -> (r: bool)
        ensures
            r == self.favorite_set().contains(property@),
    {
        set_contains(&self.favorite_properties, property)
    }

    /// The favorite property names, in name order.
    pub fn favorites(&self) -> (r: Vec<String>)
        requires
            self.wf(),
        ensures
            names_in_order(string_seq(r@)),
            string_seq(r@).no_duplicates(),
            forall|k: Seq<char>| #[trigger] string_seq(r@).contains(k) <==> self.favorite_set().contains(k),
    {
        let r = sorted_copy(&self.favorite_properties);
        proof {
            let a = string_seq(r@);
            let b = string_seq(self.favorite_properties@);
            assert forall|k: Seq<char>| #[trigger] a.contains(k) <==> self.favorite_set().contains(k) by {
                vstd::seq_lib::to_multiset_contains(a, k);
                vstd::seq_lib::to_multiset_contains(b, k);
                if b.contains(k) {
                    let j = choose|j: int| 0 <= j < b.len() && b[j] == k;
                    assert(self.favorite_properties@[j]@ == k);
                }
                if self.favorite_set().contains(k) {
                    let j = choose|j: int| 0 <= j < self.favorite_properties@.len() && #[trigger] self.favorite_properties@[j]@ == k;
                    assert(b[j] == k);
                }
            }
            assert(b.no_duplicates()) by {
                assert forall|x: int, y: int| 0 <= x < b.len() && 0 <= y < b.len() && x != y implies b[x] != b[y] by {
                    assert(b[x] == self.favorite_properties@[x]@ && b[y] == self.favorite_properties@[y]@);
                }
            }
            b.lemma_multiset_has_no_duplicates();
            a.lemma_multiset_has_no_duplicates_conv();
        }
        r
    }

    /// Assigns `property` to the export group `group` (and `subgroup`).
    pub fn set_export_group(&mut self, property: &str, group: &str, subgroup: Option<String>)
        requires
            old(self).wf(),
        ensures
            final(self).wf(),
            final(self).groups().contains_key(property@),
            final(self).groups()[property@].group@ == group@,
            final(self).groups()[property@].subgroup == subgroup,
            forall|k: Seq<char>| k != property@ ==> (#[trigger] final(self).groups().contains_key(k)
                == old(self).groups().contains_key(k)) && (old(self).groups().contains_key(k)
                ==> final(self).groups()[k] == old(self).groups()[k]),
            final(self).inspected() == old(self).inspected(),
            final(self).favorite_set() == old(self).favorite_set(),
            final(self).pinned() == old(self).pinned(),
    {
        let eg = ExportGroup { group: owned(group), subgroup };
        let ghost rows = self.export_groups@;
        match table_find(&self.export_groups, property) {
            Some(i) => {
                let (k, _) = self.export_groups.remove(i);
                self.export_groups.insert(i, (k, eg));
                assert(self.export_groups@ =~= rows.update(i as int, (rows[i as int].0, eg)));
                proof {
                    lemma_table_set(rows, i as int, eg);
                }
            },
            None => {
                let key = owned(property);
                proof {
                    lemma_table_push(rows, key, eg);
                }
                self.export_groups.push((key, eg));
            },
        }
    }

    /// The export group of `property`, if assigned.
    pub fn export_group_for(&self, property: &str) -> (r: Option<&ExportGroup>)
        requires
            self.wf(),
        ensures
            match r {
                Some(g) => self.groups().contains_key(property@) && self.groups()[property@] == *g,
                None => !self.groups().contains_key(property@),
            },
    {
        match table_find(&self.export_groups, property) {
            Some(i) => {
                proof {
                    lemma_table_lookup(self.export_groups@, i as int);
                }
                Some(&self.export_groups[i].1)
            },
            None => None,
        }
    }

    /// Removes every export-group assignment.
    pub fn clear_export_groups(&mut self)
        requires
            old(self).wf(),
        ensures
            final(self).wf(),
            final(self).groups() == Map::<Seq<char>, ExportGroup>::empty(),
            final(self).inspected() == old(self).inspected(),
            final(self).favorite_set() == old(self).favorite_set(),
            final(self).pinned() == old(self).pinned(),
    {
        self.export_groups.clear();
        assert(self.groups() =~= Map::<Seq<char>, ExportGroup>::empty());
    }

    /// The favorite set pinned for `class`, if the class has one.
    fn class_set(&self, class: &str) -> (r: Option<&Vec<String>>)
        requires
            self.wf(),
        ensures
            match r {
                Some(v) => self.pinned().contains_key(class@) && self.pinned()[class@] == string_set(v@)
                    && strings_unique(v@),
                None => !self.pinned().contains_key(class@),
            },
    {
        match table_find(&self.class_favorites, class) {
            Some(i) => {
                proof {
                    lemma_table_lookup(self.class_favorites@, i as int);
                }
                Some(&self.class_favorites[i].1)
            },
            None => None,
        }
    }

    /// Pins `property` as a favorite of the inspected node's class
    /// `inspected_class` (kept for every object of that class). Returns
    /// `false` (and changes nothing) when nothing is inspected.
    pub fn pin_favorite(&mut self, inspected_class: Option<&str>, property: &str) -> (r: bool)
        requires
            old(self).wf(),
        ensures
            final(self).wf(),
            r == (inspected_class is Some),
            final(self).pinned() == match inspected_class {
                Some(c) => old(self).pinned().insert(c@, if old(self).pinned().contains_key(c@) {
                    old(self).pinned()[c@].insert(property@)
                } else {
                    Set::<Seq<char>>::empty().insert(property@)
                }),
                None => old(self).pinned(),
            },
            final(self).inspected() == old(self).inspected(),
            final(self).favorite_set() == old(self).favorite_set(),
            final(self).groups() == old(self).groups(),
    {
        let class = match inspected_class {
            Some(c) => c,
            None => return false,
        };
        let ghost rows = self.class_favorites@;
        match table_find(&self.class_favorites, class) {
            Some(i) => {
                proof {
                    lemma_table_lookup(rows, i as int);
                }
                let (k, mut set) = self.class_favorites.remove(i);
                assert(strings_unique(rows[i as int].1@));
                set_insert(&mut set, property);
                let ghost nv = set;
                self.class_favorites.insert(i, (k, set));
                assert(self.class_favorites@ =~= rows.update(i as int, (rows[i as int].0, nv)));
                proof {
                    lemma_table_set(rows, i as int, nv);
                    assert(class_sets(self.class_favorites@) =~= class_sets(rows).insert(class@, string_set(nv@)));
                    assert forall|j: int| 0 <= j < self.class_favorites@.len()
                        implies strings_unique(#[trigger] self.class_favorites@[j].1@) by {
                        if j != i {
                            assert(self.class_favorites@[j] == rows[j]);
                        }
                    }
                }
            },
            None => {
                let mut set: Vec<String> = Vec::new();
                let ghost empty_set = set;
                assert(string_set(empty_set@) =~= Set::<Seq<char>>::empty());
                set_insert(&mut set, property);
                let key = owned(class);
                let ghost nv = set;
                proof {
                    lemma_table_push(rows, key, nv);
                }
                self.class_favorites.push((key, set));
                proof {
                    assert(class_sets(self.class_favorites@) =~= class_sets(rows).insert(class@, string_set(nv@)));
                    assert forall|j: int| 0 <= j < self.class_favorites@.len()
                        implies strings_unique(#[trigger] self.class_favorites@[j].1@) by {
                        if j < rows.len() {
                            assert(self.class_favorites@[j] == rows[j]);
                        }
                    }
                }
            },
        }
        true
    }

    /// Unpins `property` from the favorites of the inspected node's class.
    /// Returns `false` (and changes nothing) when nothing is inspected.
    pub fn unpin_favorite(&mut self, inspected_class: Option<&str>, property: &str) -> (r: bool)
        requires
            old(self).wf(),
        ensures
            final(self).wf(),
            r == (inspected_class is Some),
            final(self).pinned() == match inspected_class {
                Some(c) => if old(self).pinned().contains_key(c@) {
                    old(self).pinned().insert(c@, old(self).pinned()[c@].remove(property@))
                } else {
                    old(self).pinned()
                },
                None => old(self).pinned(),
            },
            final(self).inspected() == old(self).inspected(),
            final(self).favorite_set() == old(self).favorite_set(),
            final(self).groups() == old(self).groups(),
    {
        let class = match inspected_class {
            Some(c) => c,
            None => return false,
        };
        let ghost rows = self.class_favorites@;
        match table_find(&self.class_favorites, class) {
            Some(i) => {
                proof {
                    lemma_table_lookup(rows, i as int);
                }
                let (k, mut set) = self.class_favorites.remove(i);
                assert(strings_unique(rows[i as int].1@));
                set_remove(&mut set, property);
                let ghost nv = set;
                self.class_favorites.insert(i, (k, set));
                assert(self.class_favorites@ =~= rows.update(i as int, (rows[i as int].0, nv)));
                proof {
                    lemma_table_set(rows, i as int, nv);
                    assert(class_sets(self.class_favorites@) =~= class_sets(rows).insert(class@, string_set(nv@)));
                    assert forall|j: int| 0 <= j < self.class_favorites@.len()
                        implies strings_unique(#[trigger] self.class_favorites@[j].1@) by {
                        if j != i {
                            assert(self.class_favorites@[j] == rows[j]);
                        }
                    }
                }
            },
            None => {},
        }
        true
    }

    /// Whether `property` is pinned as a favorite of the inspected node's
    /// class (never when nothing is inspected).
    pub fn is_pinned_favorite(&self, inspected_class: Option<&str>, property: &str) -> (r: bool)
        requires
            self.wf(),
        ensures
            r == match favs_of(self.pinned(), opt_str(inspected_class)) {
                Some(f) => f.contains(property@),
                None => false,
            },
    {
        match inspected_class {
            Some(c) => match self.class_set(c) {
                Some(set) => set_contains(set, property),
                None => false,
            },
            None => false,
        }
    }

    /// The entries among `properties` (the inspected node's) that are pinned
    /// favorites of its class `inspected_class`, in name order.
    /// The inspected node's properties as entries, in name order, each with
    /// the category its name puts it in; none when nothing is inspected.
    /// `properties` are the inspected node's properties (name and value) as
    /// the scene holds them.
    pub fn list_properties<V>(&self, properties: Vec<(String, V)>) -> (r: Vec<PropertyEntry<V>>)
        ensures
            names_in_order(entry_names(r@)),
            self.inspected() is None ==> r@.len() == 0,
            self.inspected() is Some ==> r@.to_multiset() == properties@.map_values(|p: (String, V)| entry_of(p)).to_multiset(),
    {
        if self.inspected_node.is_none() {
            return Vec::new();
        }
        let ghost orig = properties@;
        let mut entries: Vec<PropertyEntry<V>> = Vec::new();
        for p in it: properties.into_iter()
            invariant
                it.seq() == orig,
                entries@ == orig.take(it.index() as int).map_values(|p: (String, V)| entry_of(p)),
        {
            let ghost i = it.index() as int;
            let (name, value) = p;
            let category = PropertyCategory::categorize(name.as_str());
            entries.push(PropertyEntry { name, value, category });
            assert(orig.take(i + 1).map_values(|p: (String, V)| entry_of(p)) =~= orig.take(i).map_values(
                |p: (String, V)| entry_of(p),
            ).push(entry_of(orig[i])));
        }
        assert(orig.take(orig.len() as int) =~= orig);
        sort_by_name(entries)
    }

    pub fn favorite_entries_for_class<V>(&self, inspected_class: Option<&str>, properties: Vec<PropertyEntry<V>>)
        -> (r: Vec<PropertyEntry<V>>)
        requires
            self.wf(),
        ensures
            names_in_order(entry_names(r@)),
            r@.to_multiset() == properties@.filter(is_fav_entry(favs_of(self.pinned(), opt_str(inspected_class)))).to_multiset(),
    {
        let (favs, _others) = self.split_favorites(inspected_class, properties);
        sort_by_name(favs)
    }

    /// Splits `properties` into the pinned favorites of `inspected_class` and
    /// the rest, each in order.
    fn split_favorites<V>(&self, inspected_class: Option<&str>, properties: Vec<PropertyEntry<V>>)
        -> (r: (Vec<PropertyEntry<V>>, Vec<PropertyEntry<V>>))
        requires
            self.wf(),
        ensures
            r.0@ == properties@.filter(is_fav_entry(favs_of(self.pinned(), opt_str(inspected_class)))),
            r.1@ == properties@.filter(not_fav_entry(favs_of(self.pinned(), opt_str(inspected_class)))),
    {
        let ghost favs = favs_of(self.pinned(), opt_str(inspected_class));
        let set = match inspected_class {
            Some(c) => self.class_set(c),
            None => None,
        };
        let ghost es = properties@;
        let mut fav: Vec<PropertyEntry<V>> = Vec::new();
        let mut rest: Vec<PropertyEntry<V>> = Vec::new();
        proof {
            reveal(Seq::filter);
            assert(es.take(0) =~= Seq::<PropertyEntry<V>>::empty());
        }
        for e in it: properties.into_iter()
            invariant
                it.seq() == es,
                favs == favs_of(self.pinned(), opt_str(inspected_class)),
                match set {
                    Some(v) => favs == Some(string_set(v@)),
                    None => favs is None,
                },
                fav@ == es.take(it.index() as int).filter(is_fav_entry(favs)),
                rest@ == es.take(it.index() as int).filter(not_fav_entry(favs)),
        {
            let ghost i = it.index() as int;
            proof {
                assert(es.take(i + 1) =~= es.take(i).push(e));
                es.take(i).lemma_filter_push(e, is_fav_entry(favs));
                es.take(i).lemma_filter_push(e, not_fav_entry(favs));
            }
            let hit = match set {
                Some(v) => set_contains(v, e.name.as_str()),
                None => false,
            };
            if hit {
                fav.push(e);
            } else {
                rest.push(e);
            }
        }
        assert(es.take(es.len() as int) =~= es);
        (fav, rest)
    }

    /// The sections shown for the inspected node, whose class is
    /// `inspected_class` and whose properties are `properties`: a
    /// "Favorites" section first with the class's pinned favorites in name
    /// order (when any is present), then one section per category, in the
    /// order transform, rendering, physics, script, miscellaneous, with the
    /// other properties of that category in their order (categories without
    /// any are left out). Every section is expanded and has no custom
    /// editors.
    pub fn sections<V>(&self, inspected_class: Option<&str>, properties: Vec<PropertyEntry<V>>)
        -> (r: Vec<InspectorSection<V>>)
        requires
            self.wf(),
        ensures
            ({
                let favs = favs_of(self.pinned(), opt_str(inspected_class));
                let fav_items = properties@.filter(is_fav_entry(favs));
                let rest = properties@.filter(not_fav_entry(favs));
                let lead: int = if fav_items.len() > 0 { 1 } else { 0 };
                &&& r@.len() == lead + category_sections(rest, 0).len()
                &&& forall|i: int| 0 <= i < r@.len() ==> (#[trigger] r@[i]).is_open()
                    && r@[i].editors() == Seq::<crate::inspector::CustomPropertyEditor>::empty()
                &&& fav_items.len() > 0 ==> {
                    &&& r@[0].title() == "Favorites"@
                    &&& r@[0].kind() == PropertyCategory::Misc
                    &&& names_in_order(entry_names(r@[0].items()))
                    &&& r@[0].items().to_multiset() == fav_items.to_multiset()
                }
                &&& section_views(r@.skip(lead)) == category_sections(rest, 0)
            }),
    {
        let ghost favs = favs_of(self.pinned(), opt_str(inspected_class));
        let (fav, rest) = self.split_favorites(inspected_class, properties);
        let ghost rv = rest@;
        let ghost fav_items = fav@;
        let fav_sorted = sort_by_name(fav);
        proof {
            vstd::seq_lib::to_multiset_len(fav_items);
            vstd::seq_lib::to_multiset_len(fav_sorted@);
        }
        let ghost sorted_items = fav_sorted@;
        let mut sections: Vec<InspectorSection<V>> = Vec::new();
        if fav_sorted.len() > 0 {
            let s = InspectorSection::new("Favorites", PropertyCategory::Misc).with_entries(fav_sorted);
            sections.push(s);
        }
        let ghost lead: int = sections@.len() as int;
        let ghost head = sections@;
        let mut bt: Vec<PropertyEntry<V>> = Vec::new();
        let mut br: Vec<PropertyEntry<V>> = Vec::new();
        let mut bp: Vec<PropertyEntry<V>> = Vec::new();
        let mut bs: Vec<PropertyEntry<V>> = Vec::new();
        let mut bm: Vec<PropertyEntry<V>> = Vec::new();
        proof {
            reveal(Seq::filter);
            assert(rv.take(0) =~= Seq::<PropertyEntry<V>>::empty());
        }
        for e in it: rest.into_iter()
            invariant
                it.seq() == rv,
                bt@ == rv.take(it.index() as int).filter(in_category(PropertyCategory::Transform)),
                br@ == rv.take(it.index() as int).filter(in_category(PropertyCategory::Rendering)),
                bp@ == rv.take(it.index() as int).filter(in_category(PropertyCategory::Physics)),
                bs@ == rv.take(it.index() as int).filter(in_category(PropertyCategory::Script)),
                bm@ == rv.take(it.index() as int).filter(in_category(PropertyCategory::Misc)),
        {
            let ghost i = it.index() as int;
            proof {
                let pre = rv.take(i);
                assert(rv.take(i + 1) =~= pre.push(e));
                pre.lemma_filter_push(e, in_category(PropertyCategory::Transform));
                pre.lemma_filter_push(e, in_category(PropertyCategory::Rendering));
                pre.lemma_filter_push(e, in_category(PropertyCategory::Physics));
                pre.lemma_filter_push(e, in_category(PropertyCategory::Script));
                pre.lemma_filter_push(e, in_category(PropertyCategory::Misc));
            }
            match e.category {
                PropertyCategory::Transform => bt.push(e),
                PropertyCategory::Rendering => br.push(e),
                PropertyCategory::Physics => bp.push(e),
                PropertyCategory::Script => bs.push(e),
                PropertyCategory::Misc => bm.push(e),
            }
        }
        assert(rv.take(rv.len() as int) =~= rv);
        assert(section_views(sections@.skip(lead)) =~= Seq::<(Seq<char>, PropertyCategory, Seq<PropertyEntry<V>>)>::empty());
        push_category(&mut sections, Ghost(lead), PropertyCategory::Transform, bt, Ghost(rv), Ghost(0int));
        push_category(&mut sections, Ghost(lead), PropertyCategory::Rendering, br, Ghost(rv), Ghost(1int));
        push_category(&mut sections, Ghost(lead), PropertyCategory::Physics, bp, Ghost(rv), Ghost(2int));
        push_category(&mut sections, Ghost(lead), PropertyCategory::Script, bs, Ghost(rv), Ghost(3int));
        push_category(&mut sections, Ghost(lead), PropertyCategory::Misc, bm, Ghost(rv), Ghost(4int));
        proof {
            lemma_category_sections_split(rv, 5);
            assert(category_sections(rv, 5) =~= Seq::<(Seq<char>, PropertyCategory, Seq<PropertyEntry<V>>)>::empty());
            assert(category_sections_upto(rv, 5) + category_sections(rv, 5) =~= category_sections_upto(rv, 5));
            assert(section_views(sections@.skip(lead)).len() == sections@.skip(lead).len());
            assert(sections@.take(lead) == head.take(lead));
            if lead == 1 {
                assert(head.take(1)[0] == head[0]);
                assert(sections@[0] == sections@.take(1)[0]);
                assert(sections@[0] == head[0]);
            }
        }
        sections
    }

    /// The entries among `properties` (the inspected node's) that are
    /// favorites, in their order.
    pub fn favorite_entries<V>(&self, properties: Vec<PropertyEntry<V>>) -> (r: Vec<PropertyEntry<V>>)
        requires
            self.wf(),
        ensures
            r@ == properties@.filter(named_in(self.favorite_set())),
    {
        let ghost es = properties@;
        let ghost keep = named_in::<V>(self.favorite_set());
        let mut out: Vec<PropertyEntry<V>> = Vec::new();
        proof {
            reveal(Seq::filter);
            assert(es.take(0) =~= Seq::<PropertyEntry<V>>::empty());
        }
        for e in it: properties.into_iter()
            invariant
                it.seq() == es,
                keep == named_in::<V>(self.favorite_set()),
                out@ == es.take(it.index() as int).filter(keep),
        {
            let ghost i = it.index() as int;
            proof {
                assert(es.take(i + 1) =~= es.take(i).push(e));
                es.take(i).lemma_filter_push(e, keep);
            }
            if set_contains(&self.favorite_properties, e.name.as_str()) {
                out.push(e);
            }
        }
        assert(es.take(es.len() as int) =~= es);
        out
    }

    /// The entries among `properties` (the inspected node's) that have an
    /// export group, grouped by group name: each group once, with its
    /// entries in their order.
    pub fn properties_by_export_group<V>(&self, properties: Vec<PropertyEntry<V>>)
        -> (r: Vec<(String, Vec<PropertyEntry<V>>)>)
        requires
            self.wf(),
        ensures
            keys_unique(r@),
            forall|g: Seq<char>| #[trigger] has_key(r@, g) <==> exists|i: int| 0 <= i < properties@.len()
                && group_of(self.groups(), properties@[i].name@) == Some(g),
            forall|k: int| 0 <= k < r@.len() ==> (#[trigger] r@[k]).1@
                == properties@.filter(in_group(self.groups(), r@[k].0@)),
    {
        let ghost es = properties@;
        let ghost gm = self.groups();
        let mut rows: Vec<(String, Vec<PropertyEntry<V>>)> = Vec::new();
        for e in it: properties.into_iter()
            invariant
                it.seq() == es,
                gm == self.groups(),
                self.wf(),
                keys_unique(rows@),
                forall|g: Seq<char>| #[trigger] has_key(rows@, g) <==> exists|j: int| 0 <= j < it.index()
                    && group_of(gm, es[j].name@) == Some(g),
                forall|k: int| 0 <= k < rows@.len() ==> (#[trigger] rows@[k]).1@
                    == es.take(it.index() as int).filter(in_group(gm, rows@[k].0@)),
        {
            let ghost i = it.index() as int;
            let ghost pre = es.take(i);
            let ghost before = rows@;
            proof {
                assert(es.take(i + 1) =~= pre.push(e));
                assert forall|g: Seq<char>| pre.push(e).filter(#[trigger] in_group(gm, g))
                    == if group_of(gm, e.name@) == Some(g) { pre.filter(in_group(gm, g)).push(e) } else { pre.filter(in_group(gm, g)) } by {
                    pre.lemma_filter_push(e, in_group(gm, g));
                }
            }
            match self.export_group_for(e.name.as_str()) {
                Some(eg) => {
                    let g = eg.group.clone();
                    assert(group_of(gm, e.name@) == Some(g@));
                    match table_find(&rows, g.as_str()) {
                        Some(k) => {
                            let (key, mut list) = rows.remove(k);
                            list.push(e);
                            let ghost nl = list;
                            rows.insert(k, (key, list));
                            proof {
                                assert(rows@ =~= before.update(k as int, (before[k as int].0, nl)));
                                lemma_table_set(before, k as int, nl);
                                assert forall|gg: Seq<char>| #[trigger] has_key(rows@, gg) <==> exists|j: int| 0 <= j < i + 1
                                    && group_of(gm, es[j].name@) == Some(gg) by {
                                    if has_key(rows@, gg) {
                                        let m = choose|m: int| 0 <= m < rows@.len() && #[trigger] rows@[m].0@ == gg;
                                        assert(before[m].0@ == gg);
                                        assert(has_key(before, gg));
                                    }
                                    if has_key(before, gg) {
                                        let m = choose|m: int| 0 <= m < before.len() && #[trigger] before[m].0@ == gg;
                                        assert(rows@[m].0@ == gg);
                                    }
                                    if group_of(gm, es[i].name@) == Some(gg) {
                                        assert(rows@[k as int].0@ == gg);
                                    }
                                }
                            }
                        },
                        None => {
                            let ghost key = g;
                            proof {
                                assert forall|j: int| 0 <= j < pre.len() implies !(#[trigger] in_group(gm, g@)(pre[j])) by {
                                    assert(pre[j] == es[j]);
                                    if group_of(gm, es[j].name@) == Some(g@) {
                                        assert(has_key(before, g@));
                                    }
                                }
                                lemma_filter_none(pre, in_group(gm, g@));
                            }
                            let single = vec![e];
                            let ghost sv = single;
                            rows.push((g, single));
                            proof {
                                lemma_table_push(before, key, sv);
                                assert forall|gg: Seq<char>| #[trigger] has_key(rows@, gg) <==> exists|j: int| 0 <= j < i + 1
                                    && group_of(gm, es[j].name@) == Some(gg) by {
                                    if has_key(rows@, gg) {
                                        let m = choose|m: int| 0 <= m < rows@.len() && #[trigger] rows@[m].0@ == gg;
                                        if m < before.len() {
                                            assert(before[m].0@ == gg);
                                            assert(has_key(before, gg));
                                        }
                                    }
                                    if has_key(before, gg) {
                                        let m = choose|m: int| 0 <= m < before.len() && #[trigger] before[m].0@ == gg;
                                        assert(rows@[m].0@ == gg);
                                    }
                                    if group_of(gm, es[i].name@) == Some(gg) {
                                        assert(rows@[before.len() as int].0@ == gg);
                                    }
                                }
                            }
                        },
                    }
                },
                None => {
                    proof {
                        assert forall|gg: Seq<char>| #[trigger] has_key(rows@, gg) <==> exists|j: int| 0 <= j < i + 1
                            && group_of(gm, es[j].name@) == Some(gg) by {
                            if exists|j: int| 0 <= j < i + 1 && group_of(gm, es[j].name@) == Some(gg) {
                                let j = choose|j: int| 0 <= j < i + 1 && group_of(gm, es[j].name@) == Some(gg);
                                assert(j != i);
                            }
                        }
                    }
                },
            }
        }
        assert(es.take(es.len() as int) =~= es);
        rows
    }

    /// The scene path of the inspected node, given `node_path`, the path the
    /// scene has for it; `None` when nothing is inspected.
    pub fn copy_node_path(&self, node_path: Option<&str>) -> (r: Option<String>)
        ensures
            opt_string(r) == if self.inspected() is Some { opt_str(node_path) } else { None },
    {
        if self.inspected_node.is_none() {
            return None;
        }
        match node_path {
            Some(p) => Some(owned(p)),
            None => None,
        }
    }

    /// The property path `node:property` for the clipboard, where `node` is
    /// the inspected node's scene path `node_path`; `None` when nothing is
    /// inspected or the node has no path.
    pub fn copy_property_path(&self, node_path: Option<&str>, property: &str) -> (r: Option<String>)
        ensures
            opt_string(r) == match (self.inspected(), node_path) {
                (Some(_), Some(p)) => Some(p@ + seq![':'] + property@),
                _ => None::<Seq<char>>,
            },
    {
        if self.inspected_node.is_none() {
            return None;
        }
        match node_path {
            Some(p) => {
                let mut out = owned(p);
                push_char(&mut out, ':');
                push_str(&mut out, property);
                Some(out)
            },
            None => None,
        }
    }

    /// The scripting path of a property of the inspected object: its name,
    /// or `property:subname` for a non-empty sub-property; `None` when
    /// nothing is inspected.
    pub fn copy_property_scripting_path(&self, property: &str, subname: Option<&str>) -> (r: Option<String>)
        ensures
            opt_string(r) == if self.inspected() is None {
                None::<Seq<char>>
            } else {
                match subname {
                    Some(sub) => if sub@.len() > 0 { Some(property@ + seq![':'] + sub@) } else { Some(property@) },
                    None => Some(property@),
                }
            },
    {
        if self.inspected_node.is_none() {
            return None;
        }
        match subname {
            Some(sub) => {
                if crate::text::byte_len(sub) > 0 {
                    let mut out = owned(property);
                    push_char(&mut out, ':');
                    push_str(&mut out, sub);
                    Some(out)
                } else {
                    Some(owned(property))
                }
            },
            None => Some(owned(property)),
        }
    }
}

impl Default for InspectorPanel {
    fn default() -> (r: Self)
        ensures
            r.wf(),
            r.inspected() is None,
            r.favorite_set() == Set::<Seq<char>>::empty(),
            r.pinned() == Map::<Seq<char>, Set<Seq<char>>>::empty(),
            r.groups() == Map::<Seq<char>, ExportGroup>::empty(),
    {
        InspectorPanel::new()
    }
}

/// The category sections from the `k`-th on follow those before it.
proof fn lemma_category_sections_split<V>(rest: Seq<PropertyEntry<V>>, k: int)
    requires
        0 <= k <= 5,
    ensures
        category_sections(rest, 0) == category_sections_upto(rest, k) + category_sections(rest, k),
    decreases k,
{
    if k == 0 {
        assert(category_sections_upto(rest, 0) + category_sections(rest, 0) =~= category_sections(rest, 0));
    } else {
        lemma_category_sections_split(rest, k - 1);
        let c = category_order()[k - 1];
        let items = rest.filter(in_category(c));
        if items.len() > 0 {
            assert(category_sections_upto(rest, k) == category_sections_upto(rest, k - 1).push((category_title(c), c, items)));
            assert(category_sections_upto(rest, k - 1) + category_sections(rest, k - 1)
                =~= category_sections_upto(rest, k) + category_sections(rest, k));
        }
    }
}

/// The category sections for the first `k` categories of the order.
pub open spec fn category_sections_upto<V>(rest: Seq<PropertyEntry<V>>, k: int) -> Seq<(Seq<char>, PropertyCategory, Seq<PropertyEntry<V>>)>
    decreases k,
{
    if k <= 0 || k > 5 {
        Seq::empty()
    } else {
        let c = category_order()[k - 1];
        let items = rest.filter(in_category(c));
        if items.len() > 0 {
            category_sections_upto(rest, k - 1).push((category_title(c), c, items))
        } else {
            category_sections_upto(rest, k - 1)
        }
    }
}

/// Appends the section of the `k`-th category of the order, holding
/// `items`, unless it has none.
fn push_category<V>(
    sections: &mut Vec<InspectorSection<V>>,
    lead: Ghost<int>,
    c: PropertyCategory,
    items: Vec<PropertyEntry<V>>,
    rest: Ghost<Seq<PropertyEntry<V>>>,
    k: Ghost<int>,
)
    requires
        0 <= k@ < 5,
        c == category_order()[k@],
        items@ == rest@.filter(in_category(c)),
        0 <= lead@ <= old(sections)@.len(),
        section_views(old(sections)@.skip(lead@)) == category_sections_upto(rest@, k@),
        forall|i: int| 0 <= i < old(sections)@.len() ==> (#[trigger] old(sections)@[i]).is_open()
            && old(sections)@[i].editors() == Seq::<crate::inspector::CustomPropertyEditor>::empty(),
    ensures
        final(sections)@.len() >= old(sections)@.len(),
        final(sections)@.take(lead@) == old(sections)@.take(lead@),
        section_views(final(sections)@.skip(lead@)) == category_sections_upto(rest@, k@ + 1),
        forall|i: int| 0 <= i < final(sections)@.len() ==> (#[trigger] final(sections)@[i]).is_open()
            && final(sections)@[i].editors() == Seq::<crate::inspector::CustomPropertyEditor>::empty(),
{
    if items.len() > 0 {
        let title = match c {
            PropertyCategory::Transform => owned("Transform"),
            PropertyCategory::Rendering => owned("Rendering"),
            PropertyCategory::Physics => owned("Physics"),
            PropertyCategory::Script => owned("Script"),
            PropertyCategory::Misc => owned("Misc"),
        };
        let ghost iv = items@;
        let s = InspectorSection::new(title.as_str(), c).with_entries(items);
        let ghost before = sections@;
        sections.push(s);
        proof {
            assert(sections@.skip(lead@) =~= before.skip(lead@).push(s));
            assert(section_views(sections@.skip(lead@)) =~= section_views(before.skip(lead@)).push(section_view(s)));
            assert(sections@.take(lead@) =~= before.take(lead@));
        }
    }
}

/// Pinning a favorite and unpinning it again leaves the class's favorites
/// as they were when it was not pinned before.
pub proof fn law_pin_then_unpin(pinned: Map<Seq<char>, Set<Seq<char>>>, class: Seq<char>, property: Seq<char>)
    requires
        pinned.contains_key(class),
        !pinned[class].contains(property),
    ensures
        pinned.insert(class, pinned[class].insert(property)).insert(class,
            pinned.insert(class, pinned[class].insert(property))[class].remove(property)) == pinned,
{
    assert(pinned[class].insert(property).remove(property) =~= pinned[class]);
    assert(pinned.insert(class, pinned[class]) =~= pinned);
}

/// Every property lands in exactly one place: the favorites and the
/// category sections together hold all of them.
pub proof fn law_sections_keep_every_property<V>(properties: Seq<PropertyEntry<V>>, favs: Option<Set<Seq<char>>>)
    ensures
        properties.filter(is_fav_entry(favs)).len() + properties.filter(not_fav_entry(favs)).len() == properties.len(),
    decreases properties.len(),
{
    reveal(Seq::filter);
    if properties.len() > 0 {
        law_sections_keep_every_property(properties.drop_last(), favs);
    }
}

} // verus!
