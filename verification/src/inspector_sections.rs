//! Collapsible inspector sections: property entries grouped by category, in
//! the order in which the categories first appear, each section expandable
//! on its own.

use vstd::prelude::*;
use crate::inspector::{CustomPropertyEditor, PropertyCategory};
use crate::text::owned;

verus! {

broadcast use vstd::string::group_string_axioms;

/// A snapshot of one property: its name, its value and its category. The
/// value is carried as the inspected object holds it.
#[derive(Debug, Clone)]
pub struct PropertyEntry<V> {
    /// The property name.
    pub name: String,
    /// The current value.
    pub value: V,
    /// The category the property belongs to.
    pub category: PropertyCategory,
}

/// The title of a category's section.
pub open spec fn category_title(c: PropertyCategory) -> Seq<char> {
    match c {
        PropertyCategory::Transform => "Transform"@,
        PropertyCategory::Rendering => "Rendering"@,
        PropertyCategory::Physics => "Physics"@,
        PropertyCategory::Script => "Script"@,
        PropertyCategory::Misc => "Misc"@,
    }
}

/// Keeps the entries of category `c`.
pub open spec fn in_category<V>(c: PropertyCategory) -> spec_fn(PropertyEntry<V>) -> bool {
    |e: PropertyEntry<V>| e.category == c
}

/// The categories of `s`, each once, in the order of their first appearance.
pub open spec fn categories_in_order<V>(s: Seq<PropertyEntry<V>>) -> Seq<PropertyCategory>
    decreases s.len(),
{
    if s.len() == 0 {
        Seq::empty()
    } else {
        let d = categories_in_order(s.drop_last());
        if d.contains(s.last().category) {
            d
        } else {
            d.push(s.last().category)
        }
    }
}

/// A section of the inspector grouping related properties.
#[derive(Debug, Clone)]
pub struct InspectorSection<V> {
    /// The section title.
    pub name: String,
    /// The category the section stands for.
    pub category: PropertyCategory,
    expanded: bool,
    entries: Vec<PropertyEntry<V>>,
    /// Custom property editors (for sections added by plugins).
    pub properties: Vec<CustomPropertyEditor>,
}

impl<V> InspectorSection<V> {
    /// The property entries of the section, in order.
    pub closed spec fn items(&self) -> Seq<PropertyEntry<V>> {
        self.entries@
    }

    /// Whether the section is expanded.
    pub closed spec fn is_open(&self) -> bool {
        self.expanded
    }

    /// The section title.
    pub closed spec fn title(&self) -> Seq<char> {
        self.name@
    }

    /// The category of the section.
    pub closed spec fn kind(&self) -> PropertyCategory {
        self.category
    }

    /// The custom property editors of the section.
    pub closed spec fn editors(&self) -> Seq<CustomPropertyEditor> {
        self.properties@
    }

    /// An expanded, empty section titled `name` for `category`.
    pub fn new(name: &str, category: PropertyCategory) -> (r: Self)
        ensures
            r.title() == name@,
            r.kind() == category,
            r.is_open(),
            r.items() == Seq::<PropertyEntry<V>>::empty(),
            r.editors() == Seq::<CustomPropertyEditor>::empty(),
    {
        InspectorSection { name: owned(name), category, expanded: true, entries: Vec::new(), properties: Vec::new() }
    }

    /// An expanded, empty section titled `title` for plugin editors, filed
    /// under the miscellaneous category.
    pub fn new_custom(title: &str) -> (r: Self)
        ensures
            r.title() == title@,
            r.kind() == PropertyCategory::Misc,
            r.is_open(),
            r.items() == Seq::<PropertyEntry<V>>::empty(),
            r.editors() == Seq::<CustomPropertyEditor>::empty(),
    {
        InspectorSection {
            name: owned(title),
            category: PropertyCategory::Misc,
            expanded: true,
            entries: Vec::new(),
            properties: Vec::new(),
        }
    }

    /// The section with `editor` added to its custom editors.
    pub fn with_property(self, editor: CustomPropertyEditor) -> (r: Self)
        ensures
            r.title() == self.title(),
            r.kind() == self.kind(),
            r.is_open() == self.is_open(),
            r.items() == self.items(),
            r.editors() == self.editors().push(editor),
    {
        let mut s = self;
        s.properties.push(editor);
        s
    }

    /// The section with its entries replaced by `entries`.
    pub fn with_entries(self, entries: Vec<PropertyEntry<V>>) -> (r: Self)
        ensures
            r.title() == self.title(),
            r.kind() == self.kind(),
            r.is_open() == self.is_open(),
            r.items() == entries@,
            r.editors() == self.editors(),
    {
        let mut s = self;
        s.entries = entries;
        s
    }

    /// Whether the section is expanded.
    pub fn is_expanded(&self) -> (r: bool)
        ensures
            r == self.is_open(),
    {
        self.expanded
    }

    /// Expands or collapses the section.
    pub fn set_expanded(&mut self, expanded: bool)
        ensures
            final(self).is_open() == expanded,
            final(self).items() == old(self).items(),
            final(self).title() == old(self).title(),
            final(self).kind() == old(self).kind(),
            final(self).editors() == old(self).editors(),
    {
        self.expanded = expanded;
    }

    /// Flips the section between expanded and collapsed.
    pub fn toggle(&mut self)
        ensures
            final(self).is_open() == !old(self).is_open(),
            final(self).items() == old(self).items(),
            final(self).title() == old(self).title(),
            final(self).kind() == old(self).kind(),
            final(self).editors() == old(self).editors(),
    {
        self.expanded = !self.expanded;
    }

    /// Whether the section has no entries.
    pub fn is_empty(&self) -> (r: bool)
        ensures
            r == (self.items().len() == 0),
    {
        self.entries.len() == 0
    }

    /// The number of entries in the section.
    pub fn property_count(&self) -> (r: usize)
        ensures
            r == self.items().len(),
    {
        self.entries.len()
    }

    /// The entries of the section.
    pub fn entries(&self) -> (r: &[PropertyEntry<V>])
        ensures
            r@ == self.items(),
    {
        self.entries.as_slice()
    }
}

/// Whether `c` is among `v`.
fn contains_category(v: &Vec<PropertyCategory>, c: PropertyCategory) -> (r: bool)
    ensures
        r == v@.contains(c),
{
    let mut i: usize = 0;
    while i < v.len()
        invariant
            i <= v@.len(),
            forall|j: int| 0 <= j < i ==> v@[j] != c,
        decreases v@.len() - i,
    {
        if v[i] == c {
            return true;
        }
        i += 1;
    }
    false
}

/// Moves the contents out of `b`, leaving it empty.
fn take_entries<V>(b: &mut Vec<PropertyEntry<V>>) -> (r: Vec<PropertyEntry<V>>)
    ensures
        r@ == old(b)@,
        final(b)@ == Seq::<PropertyEntry<V>>::empty(),
{
    let mut out: Vec<PropertyEntry<V>> = Vec::new();
    std::mem::swap(&mut out, b);
    out
}

/// The section title of a category.
fn title_of(c: PropertyCategory) -> (r: String)
    ensures
        r@ == category_title(c),
{
    match c {
        PropertyCategory::Transform => owned("Transform"),
        PropertyCategory::Rendering => owned("Rendering"),
        PropertyCategory::Physics => owned("Physics"),
        PropertyCategory::Script => owned("Script"),
        PropertyCategory::Misc => owned("Misc"),
    }
}

/// The number of entries in all the sections.
pub open spec fn item_count<V>(s: Seq<InspectorSection<V>>) -> nat
    decreases s.len(),
{
    if s.len() == 0 {
        0
    } else {
        item_count(s.drop_last()) + s.last().items().len()
    }
}

/// The number of entries in the expanded sections.
pub open spec fn visible_item_count<V>(s: Seq<InspectorSection<V>>) -> nat
    decreases s.len(),
{
    if s.len() == 0 {
        0
    } else {
        visible_item_count(s.drop_last()) + if s.last().is_open() { s.last().items().len() } else { 0 }
    }
}

/// The number of entries of `es` whose category is among `cats`, counting
/// each category of `cats` once per occurrence.
pub open spec fn sum_filtered<V>(es: Seq<PropertyEntry<V>>, cats: Seq<PropertyCategory>) -> nat
    decreases cats.len(),
{
    if cats.len() == 0 {
        0
    } else {
        sum_filtered(es, cats.drop_last()) + es.filter(in_category(cats.last())).len()
    }
}

/// `sections` are the sections of `entries`: one per category, in the order
/// in which the categories first appear, each titled after its category,
/// expanded, without custom editors, and holding that category's entries
/// in their order.
pub open spec fn sections_of<V>(entries: Seq<PropertyEntry<V>>, sections: Seq<InspectorSection<V>>) -> bool {
    let cats = categories_in_order(entries);
    &&& sections.len() == cats.len()
    &&& forall|i: int| #![trigger sections[i]] 0 <= i < sections.len() ==> {
        &&& sections[i].kind() == cats[i]
        &&& sections[i].title() == category_title(cats[i])
        &&& sections[i].is_open()
        &&& sections[i].items() == entries.filter(in_category(cats[i]))
        &&& sections[i].editors() == Seq::<CustomPropertyEditor>::empty()
    }
}

/// `k` is the first section of category `c`.
pub open spec fn is_first_section<V>(s: Seq<InspectorSection<V>>, c: PropertyCategory, k: int) -> bool {
    &&& 0 <= k < s.len()
    &&& s[k].kind() == c
    &&& forall|j: int| 0 <= j < k ==> s[j].kind() != c
}

/// A category is listed once it occurs, and only if it occurs.
proof fn lemma_categories_in_order<V>(s: Seq<PropertyEntry<V>>)
    ensures
        categories_in_order(s).no_duplicates(),
        forall|c: PropertyCategory| categories_in_order(s).contains(c)
            <==> exists|i: int| 0 <= i < s.len() && #[trigger] s[i].category == c,
    decreases s.len(),
{
    if s.len() > 0 {
        let t = s.drop_last();
        lemma_categories_in_order(t);
        let d = categories_in_order(t);
        let x = s.last().category;
        let r = categories_in_order(s);
        assert forall|c: PropertyCategory| r.contains(c)
            <==> exists|i: int| 0 <= i < s.len() && #[trigger] s[i].category == c by {
            vstd::seq_lib::lemma_seq_contains_after_push(d, x, c);
            if exists|i: int| 0 <= i < s.len() && #[trigger] s[i].category == c {
                let i = choose|i: int| 0 <= i < s.len() && #[trigger] s[i].category == c;
                if i < t.len() {
                    assert(t[i] == s[i]);
                    assert(d.contains(c));
                } else {
                    assert(c == x);
                }
            }
            if r.contains(c) {
                if d.contains(c) {
                    let i = choose|i: int| 0 <= i < t.len() && #[trigger] t[i].category == c;
                    assert(t[i] == s[i]);
                } else {
                    assert(c == x);
                    assert(s[s.len() - 1].category == c);
                }
            }
        }
        if !d.contains(x) {
            assert forall|a: int, b: int| 0 <= a < r.len() && 0 <= b < r.len() && a != b implies r[a] != r[b] by {
                if a < d.len() && b < d.len() {
                } else if a == d.len() {
                    assert(d.contains(r[b]));
                } else {
                    assert(d.contains(r[a]));
                }
            }
        }
    }
}

/// Appending an entry adds one to the count of exactly the category lists
/// that hold its category.
proof fn lemma_sum_filtered_push<V>(es: Seq<PropertyEntry<V>>, e: PropertyEntry<V>, cats: Seq<PropertyCategory>)
    requires
        cats.no_duplicates(),
    ensures
        sum_filtered(es.push(e), cats) == sum_filtered(es, cats) + if cats.contains(e.category) { 1nat } else { 0nat },
    decreases cats.len(),
{
    if cats.len() > 0 {
        let rest = cats.drop_last();
        assert(rest.no_duplicates());
        lemma_sum_filtered_push(es, e, rest);
        es.lemma_filter_push(e, in_category(cats.last()));
        if cats.last() == e.category {
            assert(!rest.contains(e.category)) by {
                if rest.contains(e.category) {
                    let j = choose|j: int| 0 <= j < rest.len() && rest[j] == e.category;
                    assert(cats[j] == cats[cats.len() - 1]);
                }
            }
        }
        assert(rest.push(cats.last()) =~= cats);
        vstd::seq_lib::lemma_seq_contains_after_push(rest, cats.last(), e.category);
    }
}

/// A category that no entry has selects nothing.
proof fn lemma_filter_absent<V>(es: Seq<PropertyEntry<V>>, c: PropertyCategory)
    requires
        forall|i: int| 0 <= i < es.len() ==> #[trigger] es[i].category != c,
    ensures
        es.filter(in_category(c)).len() == 0,
    decreases es.len(),
{
    reveal(Seq::filter);
    if es.len() > 0 {
        let t = es.drop_last();
        assert forall|i: int| 0 <= i < t.len() implies #[trigger] t[i].category != c by {
            assert(es[i].category != c);
        }
        lemma_filter_absent(t, c);
    }
}

/// Summed over the categories in order of appearance, the per-category
/// entries number exactly the entries.
proof fn lemma_sum_filtered_all<V>(es: Seq<PropertyEntry<V>>)
    ensures
        sum_filtered(es, categories_in_order(es)) == es.len(),
    decreases es.len(),
{
    if es.len() > 0 {
        let t = es.drop_last();
        let e = es.last();
        assert(t.push(e) =~= es);
        lemma_sum_filtered_all(t);
        lemma_categories_in_order(t);
        lemma_categories_in_order(es);
        let d = categories_in_order(t);
        lemma_sum_filtered_push(t, e, d);
        if !d.contains(e.category) {
            assert forall|i: int| 0 <= i < t.len() implies #[trigger] t[i].category != e.category by {
                if t[i].category == e.category {
                    assert(d.contains(e.category));
                }
            }
            lemma_filter_absent(t, e.category);
            t.lemma_filter_push(e, in_category(e.category));
            assert(categories_in_order(es) == d.push(e.category));
            assert(categories_in_order(es).drop_last() =~= d);
        }
    }
}

/// The expanded sections hold no more entries than all the sections.
proof fn lemma_visible_at_most_all<V>(s: Seq<InspectorSection<V>>)
    ensures
        visible_item_count(s) <= item_count(s),
    decreases s.len(),
{
    if s.len() > 0 {
        lemma_visible_at_most_all(s.drop_last());
    }
}

/// Changing only whether sections are expanded keeps the entry count.
proof fn lemma_item_count_same<V>(a: Seq<InspectorSection<V>>, b: Seq<InspectorSection<V>>)
    requires
        a.len() == b.len(),
        forall|i: int| 0 <= i < a.len() ==> (#[trigger] a[i]).items() == b[i].items(),
    ensures
        item_count(a) == item_count(b),
    decreases a.len(),
{
    if a.len() > 0 {
        lemma_item_count_same(a.drop_last(), b.drop_last());
    }
}

/// All sections expanded: every entry is visible.
proof fn lemma_visible_all_open<V>(s: Seq<InspectorSection<V>>)
    requires
        forall|i: int| 0 <= i < s.len() ==> (#[trigger] s[i]).is_open(),
    ensures
        visible_item_count(s) == item_count(s),
    decreases s.len(),
{
    if s.len() > 0 {
        lemma_visible_all_open(s.drop_last());
    }
}

/// All sections collapsed: nothing is visible.
proof fn lemma_visible_all_closed<V>(s: Seq<InspectorSection<V>>)
    requires
        forall|i: int| 0 <= i < s.len() ==> !(#[trigger] s[i]).is_open(),
    ensures
        visible_item_count(s) == 0,
    decreases s.len(),
{
    if s.len() > 0 {
        lemma_visible_all_closed(s.drop_last());
    }
}

/// Property entries grouped into collapsible sections by category.
#[derive(Debug, Clone)]
pub struct SectionedInspector<V> {
    sections: Vec<InspectorSection<V>>,
}

impl<V> SectionedInspector<V> {
    /// The sections, in order.
    pub closed spec fn parts(&self) -> Seq<InspectorSection<V>> {
        self.sections@
    }

    /// Groups `entries` into sections: one per category, in the order in
    /// which the categories first appear, each holding its entries in order.
    pub fn from_entries(entries: Vec<PropertyEntry<V>>) -> (r: Self)
        ensures
            sections_of(entries@, r.parts()),
            item_count(r.parts()) == entries@.len(),
    {
        let ghost es = entries@;
        let mut order: Vec<PropertyCategory> = Vec::new();
        let mut bt: Vec<PropertyEntry<V>> = Vec::new();
        let mut br: Vec<PropertyEntry<V>> = Vec::new();
        let mut bp: Vec<PropertyEntry<V>> = Vec::new();
        let mut bs: Vec<PropertyEntry<V>> = Vec::new();
        let mut bm: Vec<PropertyEntry<V>> = Vec::new();
        proof {
            reveal(Seq::filter);
            assert(es.take(0) =~= Seq::<PropertyEntry<V>>::empty());
        }
        for e in it: entries.into_iter()
            invariant
                it.seq() == es,
                order@ == categories_in_order(es.take(it.index() as int)),
                bt@ == es.take(it.index() as int).filter(in_category(PropertyCategory::Transform)),
                br@ == es.take(it.index() as int).filter(in_category(PropertyCategory::Rendering)),
                bp@ == es.take(it.index() as int).filter(in_category(PropertyCategory::Physics)),
                bs@ == es.take(it.index() as int).filter(in_category(PropertyCategory::Script)),
                bm@ == es.take(it.index() as int).filter(in_category(PropertyCategory::Misc)),
        {
            let ghost i = it.index() as int;
            let ghost pre = es.take(i);
            proof {
                assert(es.take(i + 1) =~= pre.push(e));
                assert(es.take(i + 1).drop_last() =~= pre);
                pre.lemma_filter_push(e, in_category(PropertyCategory::Transform));
                pre.lemma_filter_push(e, in_category(PropertyCategory::Rendering));
                pre.lemma_filter_push(e, in_category(PropertyCategory::Physics));
                pre.lemma_filter_push(e, in_category(PropertyCategory::Script));
                pre.lemma_filter_push(e, in_category(PropertyCategory::Misc));
            }
            let c = e.category;
            if !contains_category(&order, c) {
                order.push(c);
            }
            match c {
                PropertyCategory::Transform => bt.push(e),
                PropertyCategory::Rendering => br.push(e),
                PropertyCategory::Physics => bp.push(e),
                PropertyCategory::Script => bs.push(e),
                PropertyCategory::Misc => bm.push(e),
            }
        }
        let ghost cats = categories_in_order(es);
        proof {
            assert(es.take(es.len() as int) =~= es);
            lemma_categories_in_order(es);
            lemma_sum_filtered_all(es);
        }
        let mut sections: Vec<InspectorSection<V>> = Vec::new();
        let mut k: usize = 0;
        while k < order.len()
            invariant
                order@ == cats,
                cats == categories_in_order(es),
                cats.no_duplicates(),
                sum_filtered(es, cats) == es.len(),
                k <= cats.len(),
                sections@.len() == k,
                item_count(sections@) == sum_filtered(es, cats.take(k as int)),
                forall|i: int| #![trigger sections@[i]] 0 <= i < k ==> {
                    &&& sections@[i].kind() == cats[i]
                    &&& sections@[i].title() == category_title(cats[i])
                    &&& sections@[i].is_open()
                    &&& sections@[i].items() == es.filter(in_category(cats[i]))
                    &&& sections@[i].editors() == Seq::<CustomPropertyEditor>::empty()
                },
                !cats.take(k as int).contains(PropertyCategory::Transform) ==> bt@ == es.filter(in_category(PropertyCategory::Transform)),
                !cats.take(k as int).contains(PropertyCategory::Rendering) ==> br@ == es.filter(in_category(PropertyCategory::Rendering)),
                !cats.take(k as int).contains(PropertyCategory::Physics) ==> bp@ == es.filter(in_category(PropertyCategory::Physics)),
                !cats.take(k as int).contains(PropertyCategory::Script) ==> bs@ == es.filter(in_category(PropertyCategory::Script)),
                !cats.take(k as int).contains(PropertyCategory::Misc) ==> bm@ == es.filter(in_category(PropertyCategory::Misc)),
            decreases cats.len() - k,
        {
            let c = order[k];
            proof {
                assert(!cats.take(k as int).contains(c)) by {
                    if cats.take(k as int).contains(c) {
                        let j = choose|j: int| 0 <= j < k && cats.take(k as int)[j] == c;
                        assert(cats[j] == cats[k as int]);
                    }
                }
                assert(cats.take(k + 1) =~= cats.take(k as int).push(c));
                assert(cats.take(k + 1).drop_last() =~= cats.take(k as int));
            }
            let items = match c {
                PropertyCategory::Transform => take_entries(&mut bt),
                PropertyCategory::Rendering => take_entries(&mut br),
                PropertyCategory::Physics => take_entries(&mut bp),
                PropertyCategory::Script => take_entries(&mut bs),
                PropertyCategory::Misc => take_entries(&mut bm),
            };
            let section = InspectorSection {
                name: title_of(c),
                category: c,
                expanded: true,
                entries: items,
                properties: Vec::new(),
            };
            let ghost before = sections@;
            sections.push(section);
            proof {
                assert(sections@.drop_last() =~= before);
                assert(section.editors() =~= Seq::<CustomPropertyEditor>::empty());
                let pre = cats.take(k as int);
                vstd::seq_lib::lemma_seq_contains_after_push(pre, c, PropertyCategory::Transform);
                vstd::seq_lib::lemma_seq_contains_after_push(pre, c, PropertyCategory::Rendering);
                vstd::seq_lib::lemma_seq_contains_after_push(pre, c, PropertyCategory::Physics);
                vstd::seq_lib::lemma_seq_contains_after_push(pre, c, PropertyCategory::Script);
                vstd::seq_lib::lemma_seq_contains_after_push(pre, c, PropertyCategory::Misc);
            }
            k += 1;
        }
        assert(cats.take(cats.len() as int) =~= cats);
        SectionedInspector { sections }
    }

    /// The number of sections.
    pub fn section_count(&self) -> (r: usize)
        ensures
            r == self.parts().len(),
    {
        self.sections.len()
    }

    /// The number of entries in all the sections.
    pub fn total_property_count(&self) -> (r: usize)
        requires
            item_count(self.parts()) <= usize::MAX,
        ensures
            r == item_count(self.parts()),
    {
        let mut total: usize = 0;
        let mut i: usize = 0;
        while i < self.sections.len()
            invariant
                i <= self.parts().len(),
                item_count(self.parts()) <= usize::MAX,
                total == item_count(self.parts().take(i as int)),
            decreases self.parts().len() - i,
        {
            proof {
                assert(self.parts().take(i + 1).drop_last() =~= self.parts().take(i as int));
                lemma_item_count_prefix(self.parts(), i + 1);
            }
            total = total + self.sections[i].property_count();
            i += 1;
        }
        assert(self.parts().take(i as int) =~= self.parts());
        total
    }

    /// The number of entries in the expanded sections.
    pub fn visible_property_count(&self) -> (r: usize)
        requires
            item_count(self.parts()) <= usize::MAX,
        ensures
            r == visible_item_count(self.parts()),
    {
        let mut total: usize = 0;
        let mut i: usize = 0;
        while i < self.sections.len()
            invariant
                i <= self.parts().len(),
                item_count(self.parts()) <= usize::MAX,
                total == visible_item_count(self.parts().take(i as int)),
            decreases self.parts().len() - i,
        {
            proof {
                assert(self.parts().take(i + 1).drop_last() =~= self.parts().take(i as int));
                lemma_item_count_prefix(self.parts(), i + 1);
                lemma_visible_at_most_all(self.parts().take(i + 1));
            }
            if self.sections[i].is_expanded() {
                total = total + self.sections[i].property_count();
            }
            i += 1;
        }
        assert(self.parts().take(i as int) =~= self.parts());
        total
    }

    /// Collapses every section.
    pub fn collapse_all(&mut self)
        ensures
            final(self).parts().len() == old(self).parts().len(),
            forall|i: int| #![trigger final(self).parts()[i]] 0 <= i < final(self).parts().len() ==> {
                &&& !final(self).parts()[i].is_open()
                &&& final(self).parts()[i].items() == old(self).parts()[i].items()
                &&& final(self).parts()[i].title() == old(self).parts()[i].title()
                &&& final(self).parts()[i].kind() == old(self).parts()[i].kind()
                &&& final(self).parts()[i].editors() == old(self).parts()[i].editors()
            },
            item_count(final(self).parts()) == item_count(old(self).parts()),
            visible_item_count(final(self).parts()) == 0,
    {
        self.set_all_expanded(false);
    }

    /// Expands every section.
    pub fn expand_all(&mut self)
        ensures
            final(self).parts().len() == old(self).parts().len(),
            forall|i: int| #![trigger final(self).parts()[i]] 0 <= i < final(self).parts().len() ==> {
                &&& final(self).parts()[i].is_open()
                &&& final(self).parts()[i].items() == old(self).parts()[i].items()
                &&& final(self).parts()[i].title() == old(self).parts()[i].title()
                &&& final(self).parts()[i].kind() == old(self).parts()[i].kind()
                &&& final(self).parts()[i].editors() == old(self).parts()[i].editors()
            },
            item_count(final(self).parts()) == item_count(old(self).parts()),
            visible_item_count(final(self).parts()) == item_count(final(self).parts()),
    {
        self.set_all_expanded(true);
    }

    /// Expands or collapses every section.
    fn set_all_expanded(&mut self, open: bool)
        ensures
            final(self).parts().len() == old(self).parts().len(),
            forall|i: int| #![trigger final(self).parts()[i]] 0 <= i < final(self).parts().len() ==> {
                &&& final(self).parts()[i].is_open() == open
                &&& final(self).parts()[i].items() == old(self).parts()[i].items()
                &&& final(self).parts()[i].title() == old(self).parts()[i].title()
                &&& final(self).parts()[i].kind() == old(self).parts()[i].kind()
                &&& final(self).parts()[i].editors() == old(self).parts()[i].editors()
            },
            item_count(final(self).parts()) == item_count(old(self).parts()),
            open ==> visible_item_count(final(self).parts()) == item_count(final(self).parts()),
            !open ==> visible_item_count(final(self).parts()) == 0,
    {
        let mut i: usize = 0;
        while i < self.sections.len()
            invariant
                i <= self.parts().len(),
                self.parts().len() == old(self).parts().len(),
                forall|j: int| #![trigger self.parts()[j]] 0 <= j < self.parts().len() ==> {
                    &&& (j < i ==> self.parts()[j].is_open() == open)
                    &&& (j >= i ==> self.parts()[j] == old(self).parts()[j])
                    &&& self.parts()[j].items() == old(self).parts()[j].items()
                    &&& self.parts()[j].title() == old(self).parts()[j].title()
                    &&& self.parts()[j].kind() == old(self).parts()[j].kind()
                    &&& self.parts()[j].editors() == old(self).parts()[j].editors()
                },
            decreases self.parts().len() - i,
        {
            self.sections[i].set_expanded(open);
            i += 1;
        }
        proof {
            lemma_item_count_same(self.parts(), old(self).parts());
            if open {
                lemma_visible_all_open(self.parts());
            } else {
                lemma_visible_all_closed(self.parts());
            }
        }
    }

    /// The sections, in order.
    pub fn sections(&self) -> (r: &[InspectorSection<V>])
        ensures
            r@ == self.parts(),
    {
        self.sections.as_slice()
    }

    /// The first section of `category`, if any.
    pub fn section_by_category(&self, category: &PropertyCategory) -> (r: Option<&InspectorSection<V>>)
        ensures
            match r {
                Some(s) => exists|k: int| is_first_section(self.parts(), *category, k) && self.parts()[k] == *s,
                None => forall|k: int| 0 <= k < self.parts().len() ==> self.parts()[k].kind() != *category,
            },
    {
        let mut i: usize = 0;
        while i < self.sections.len()
            invariant
                i <= self.parts().len(),
                forall|j: int| 0 <= j < i ==> self.parts()[j].kind() != *category,
            decreases self.parts().len() - i,
        {
            if self.sections[i].category == *category {
                assert(is_first_section(self.parts(), *category, i as int));
                return Some(&self.sections[i]);
            }
            i += 1;
        }
        None
    }

    /// The first section of `category`, if any, for changing it in place.
    pub fn section_by_category_mut(&mut self, category: &PropertyCategory) -> (r: Option<&mut InspectorSection<V>>)
        ensures
            match r {
                Some(s) => exists|k: int| is_first_section(old(self).parts(), *category, k)
                    && *s == old(self).parts()[k]
                    && final(self).parts() == old(self).parts().update(k, *final(s)),
                None => final(self).parts() == old(self).parts()
                    && forall|k: int| 0 <= k < old(self).parts().len() ==> old(self).parts()[k].kind() != *category,
            },
    {
        let mut i: usize = 0;
        while i < self.sections.len()
            invariant
                i <= self.parts().len(),
                self.parts() == old(self).parts(),
                forall|j: int| 0 <= j < i ==> self.parts()[j].kind() != *category,
            decreases self.parts().len() - i,
        {
            if self.sections[i].category == *category {
                assert(is_first_section(self.parts(), *category, i as int));
                return Some(&mut self.sections[i]);
            }
            i += 1;
        }
        None
    }
}

/// The entry count of a prefix grows by the last section's entries.
proof fn lemma_item_count_prefix<V>(s: Seq<InspectorSection<V>>, n: int)
    requires
        0 < n <= s.len(),
    ensures
        item_count(s.take(n)) == item_count(s.take(n - 1)) + s[n - 1].items().len(),
        item_count(s.take(n)) <= item_count(s),
    decreases s.len() - n,
{
    assert(s.take(n).drop_last() =~= s.take(n - 1));
    if n < s.len() {
        lemma_item_count_prefix(s, n + 1);
    } else {
        assert(s.take(n) =~= s);
    }
}

/// Grouping keeps every entry exactly once: each section holds precisely
/// the entries of its category, the categories are listed once each, and
/// the sections together hold as many entries as were given.
pub proof fn law_grouping_keeps_every_entry<V>(entries: Seq<PropertyEntry<V>>, sections: Seq<InspectorSection<V>>)
    requires
        sections_of(entries, sections),
    ensures
        item_count(sections) == entries.len(),
        forall|i: int, j: int| 0 <= i < sections.len() && 0 <= j < sections.len() && i != j
            ==> #[trigger] sections[i].kind() != #[trigger] sections[j].kind(),
        forall|k: int| 0 <= k < entries.len() ==> exists|i: int| 0 <= i < sections.len()
            && #[trigger] sections[i].kind() == (#[trigger] entries[k]).category,
{
    let cats = categories_in_order(entries);
    lemma_categories_in_order(entries);
    lemma_sum_filtered_all(entries);
    lemma_sections_count(entries, sections, sections.len() as int);
    assert(sections.take(sections.len() as int) =~= sections);
    assert(cats.take(cats.len() as int) =~= cats);
    assert forall|k: int| 0 <= k < entries.len() implies exists|i: int| 0 <= i < sections.len()
        && #[trigger] sections[i].kind() == (#[trigger] entries[k]).category by {
        assert(cats.contains(entries[k].category));
        let i = choose|i: int| 0 <= i < cats.len() && cats[i] == entries[k].category;
        assert(sections[i].kind() == cats[i]);
    }
    assert forall|i: int, j: int| 0 <= i < sections.len() && 0 <= j < sections.len() && i != j
        implies #[trigger] sections[i].kind() != #[trigger] sections[j].kind() by {
        assert(sections[i].kind() == cats[i] && sections[j].kind() == cats[j]);
    }
}

/// The sections of a prefix of the category list hold the entries of
/// those categories.
proof fn lemma_sections_count<V>(entries: Seq<PropertyEntry<V>>, sections: Seq<InspectorSection<V>>, n: int)
    requires
        sections_of(entries, sections),
        0 <= n <= sections.len(),
    ensures
        item_count(sections.take(n)) == sum_filtered(entries, categories_in_order(entries).take(n)),
    decreases n,
{
    let cats = categories_in_order(entries);
    if n > 0 {
        lemma_sections_count(entries, sections, n - 1);
        assert(sections.take(n).drop_last() =~= sections.take(n - 1));
        assert(cats.take(n).drop_last() =~= cats.take(n - 1));
        assert(sections[n - 1].items() == entries.filter(in_category(cats[n - 1])));
    } else {
        assert(sections.take(0) =~= Seq::<InspectorSection<V>>::empty());
        assert(cats.take(0) =~= Seq::<PropertyCategory>::empty());
    }
}

} // verus!
