//! The group-management dialog of the node dock: the node it inspects, a
//! filter, the groups in use across the scene with their members, the
//! groups of the inspected node, and adding or removing that node's
//! membership. The scene is described by what it gives: each node, in tree
//! order, with the groups it belongs to; changing a membership is the
//! scene's own call, handed in by the caller.

use vstd::prelude::*;
use crate::inspector_history::NodeId;
use crate::input_map::names_sorted;
use crate::inspector_panel::{names_in_order, sorted_copy, string_seq};
use crate::paths::{path_less, path_lt, lemma_path_lt_asym, lemma_path_lt_total, lemma_path_lt_trans};
use crate::table::{string_find, string_set, string_views};
use crate::text::{chars_of, find_from, first_match, owned, push_str, str_eq, to_lowercase, unicode_lowercase};

verus! {

broadcast use vstd::string::group_string_axioms;

/// A group shown in the dialog.
#[derive(Debug, Clone, PartialEq, Eq)]
pub struct GroupEntry {
    /// The group name.
    pub name: String,
    /// Number of nodes in the group.
    pub member_count: usize,
    /// Whether the inspected node is a member.
    pub node_is_member: bool,
}

/// The result of a group action.
#[derive(Debug, Clone, PartialEq, Eq)]
pub struct GroupActionResult {
    /// The affected group.
    pub group_name: String,
    /// What happened, for display.
    pub description: String,
}

/// The node listed at `k` belongs to group `g`.
pub open spec fn lists_group(m: Seq<(NodeId, Vec<String>)>, k: int, g: Seq<char>) -> bool {
    string_set(m[k].1@).contains(g)
}

/// Some node among the first `n` listed belongs to group `g`.
pub open spec fn used_before(m: Seq<(NodeId, Vec<String>)>, n: int, g: Seq<char>) -> bool {
    exists|k: int| 0 <= k < n && #[trigger] lists_group(m, k, g)
}

/// Some node belongs to group `g`.
pub open spec fn in_use(m: Seq<(NodeId, Vec<String>)>, g: Seq<char>) -> bool {
    used_before(m, m.len() as int, g)
}

/// Node `id`, listed among the first `n`, belongs to group `g`.
pub open spec fn member_before(m: Seq<(NodeId, Vec<String>)>, n: int, g: Seq<char>, id: NodeId) -> bool {
    exists|k: int| 0 <= k < n && m[k].0 == id && #[trigger] lists_group(m, k, g)
}

/// Node `id` belongs to group `g`.
pub open spec fn is_member(m: Seq<(NodeId, Vec<String>)>, g: Seq<char>, id: NodeId) -> bool {
    member_before(m, m.len() as int, g, id)
}

/// The nodes that belong to group `g`.
pub open spec fn members_of(m: Seq<(NodeId, Vec<String>)>, g: Seq<char>) -> Set<NodeId> {
    Set::new(|id: NodeId| is_member(m, g, id))
}

/// The groups in use.
pub open spec fn groups_in_use(m: Seq<(NodeId, Vec<String>)>) -> Set<Seq<char>> {
    Set::new(|g: Seq<char>| in_use(m, g))
}

/// A group name passes the filter when the filter is empty in lowercase or
/// the lowercase name holds the lowercase filter.
pub open spec fn passes_filter(name: Seq<char>, filter: Seq<char>) -> bool {
    unicode_lowercase(filter).len() == 0 || first_match(unicode_lowercase(name), unicode_lowercase(filter), 0) is Some
}

/// The description of adding the node to group `g`.
pub open spec fn added_description(g: Seq<char>) -> Seq<char> {
    "Added node to group \""@ + g + "\""@
}

/// The description of removing the node from group `g`.
pub open spec fn removed_description(g: Seq<char>) -> Seq<char> {
    "Removed node from group \""@ + g + "\""@
}

/// Two different names in strictly increasing order are not equal.
proof fn lemma_sorted_no_dups(names: Seq<Seq<char>>)
    requires
        names_sorted(names),
    ensures
        names.no_duplicates(),
{
    assert forall|i: int, j: int| 0 <= i < names.len() && 0 <= j < names.len() && i != j implies names[i] != names[j] by {
        if i < j {
            assert(path_lt(names[i], names[j]));
            lemma_path_lt_asym(names[i], names[j]);
        } else {
            assert(path_lt(names[j], names[i]));
            lemma_path_lt_asym(names[j], names[i]);
        }
    }
}

/// The string set of `s` is the set of its views.
proof fn lemma_string_set_views(s: Seq<String>)
    ensures
        string_set(s) == string_views(s).to_set(),
{
    assert forall|k: Seq<char>| #[trigger] string_set(s).contains(k) == string_views(s).to_set().contains(k) by {
        if string_set(s).contains(k) {
            let i = choose|i: int| 0 <= i < s.len() && #[trigger] s[i]@ == k;
            assert(string_views(s)[i] == k);
        }
        if string_views(s).to_set().contains(k) {
            let i = choose|i: int| 0 <= i < string_views(s).len() && string_views(s)[i] == k;
            assert(s[i]@ == k);
        }
    }
    assert(string_set(s) =~= string_views(s).to_set());
}

/// Adds `x` to the strictly increasing names `t`, keeping them so.
fn insert_sorted_unique(t: &mut Vec<String>, x: &str)
    requires
        names_sorted(string_views(old(t)@)),
    ensures
        names_sorted(string_views(final(t)@)),
        string_set(final(t)@) == string_set(old(t)@).insert(x@),
{
    let key = chars_of(x);
    let ghost s = string_views(t@);
    let mut p: usize = 0;
    while p < t.len() && path_less(chars_of(t[p].as_str()).as_slice(), key.as_slice())
        invariant
            s == string_views(t@),
            p <= t@.len(),
            key@ == x@,
            forall|k: int| 0 <= k < p ==> path_lt(#[trigger] s[k], x@),
        decreases t@.len() - p,
    {
        p += 1;
    }
    if p < t.len() && str_eq(t[p].as_str(), x) {
        assert(string_set(t@).contains(x@)) by {
            assert(t@[p as int]@ == x@);
        }
        assert(string_set(t@).insert(x@) =~= string_set(t@));
        return;
    }
    let ghost old_t = t@;
    t.insert(p, owned(x));
    proof {
        assert(string_views(t@) =~= s.insert(p as int, x@));
        if p < s.len() {
            assert(!path_lt(s[p as int], x@));
            assert(s[p as int] != x@);
            lemma_path_lt_total(s[p as int], x@);
        }
        let u = s.insert(p as int, x@);
        assert forall|i: int, j: int| 0 <= i < j < u.len() implies path_lt(#[trigger] u[i], #[trigger] u[j]) by {
            if j < p {
                assert(u[i] == s[i] && u[j] == s[j]);
            } else if j == p {
                assert(u[i] == s[i] && u[j] == x@);
            } else if i == p {
                assert(u[i] == x@ && u[j] == s[j - 1]);
                if j - 1 > p {
                    assert(path_lt(s[p as int], s[j - 1]));
                    lemma_path_lt_trans(x@, s[p as int], s[j - 1]);
                }
            } else if i < p {
                assert(u[i] == s[i] && u[j] == s[j - 1]);
                if j - 1 == p {
                } else {
                }
            } else {
                assert(u[i] == s[i - 1] && u[j] == s[j - 1]);
            }
        }
        assert forall|k: Seq<char>| #[trigger] string_set(t@).contains(k) == string_set(old_t).insert(x@).contains(k) by {
            if string_set(t@).contains(k) {
                let i = choose|i: int| 0 <= i < t@.len() && #[trigger] t@[i]@ == k;
                if i < p {
                    assert(t@[i] == old_t[i]);
                } else if i > p {
                    assert(t@[i] == old_t[i - 1]);
                }
            }
            if string_set(old_t).contains(k) {
                let i = choose|i: int| 0 <= i < old_t.len() && #[trigger] old_t[i]@ == k;
                if i < p {
                    assert(t@[i] == old_t[i]);
                } else {
                    assert(t@[i + 1] == old_t[i]);
                }
            }
            if k == x@ {
                assert(t@[p as int]@ == x@);
            }
        }
        assert(string_set(t@) =~= string_set(old_t).insert(x@));
    }
}

/// The groups in use, each once, in name order.
fn group_names(m: &[(NodeId, Vec<String>)]) -> (r: Vec<String>)
    ensures
        names_sorted(string_views(r@)),
        string_set(r@) == groups_in_use(m@),
{
    let mut names: Vec<String> = Vec::new();
    let mut k: usize = 0;
    while k < m.len()
        invariant
            k <= m@.len(),
            names_sorted(string_views(names@)),
            forall|g: Seq<char>| #[trigger] string_set(names@).contains(g) <==> used_before(m@, k as int, g),
        decreases m@.len() - k,
    {
        let groups = &m[k].1;
        let mut l: usize = 0;
        while l < groups.len()
            invariant
                k < m@.len(),
                groups == m@[k as int].1,
                l <= groups@.len(),
                names_sorted(string_views(names@)),
                forall|g: Seq<char>| #[trigger] string_set(names@).contains(g) <==> (used_before(m@, k as int, g)
                    || string_set(groups@.take(l as int)).contains(g)),
            decreases groups@.len() - l,
        {
            insert_sorted_unique(&mut names, groups[l].as_str());
            proof {
                assert forall|g: Seq<char>| #[trigger] string_set(groups@.take(l + 1)).contains(g)
                    == (string_set(groups@.take(l as int)).contains(g) || g == groups@[l as int]@) by {
                    if string_set(groups@.take(l + 1)).contains(g) {
                        let i = choose|i: int| 0 <= i < l + 1 && #[trigger] groups@.take(l + 1)[i]@ == g;
                        if i < l {
                            assert(groups@.take(l as int)[i] == groups@.take(l + 1)[i]);
                        }
                    }
                    if string_set(groups@.take(l as int)).contains(g) {
                        let i = choose|i: int| 0 <= i < l && #[trigger] groups@.take(l as int)[i]@ == g;
                        assert(groups@.take(l + 1)[i] == groups@.take(l as int)[i]);
                    }
                    if g == groups@[l as int]@ {
                        assert(groups@.take(l + 1)[l as int] == groups@[l as int]);
                    }
                }
            }
            l += 1;
        }
        proof {
            assert(groups@.take(groups@.len() as int) =~= groups@);
            assert forall|g: Seq<char>| #[trigger] used_before(m@, k + 1, g)
                == (used_before(m@, k as int, g) || string_set(groups@).contains(g)) by {
                if used_before(m@, k + 1, g) {
                    let j = choose|j: int| 0 <= j < k + 1 && #[trigger] lists_group(m@, j, g);
                }
                if string_set(groups@).contains(g) {
                    assert(lists_group(m@, k as int, g));
                }
            }
        }
        k += 1;
    }
    proof {
        assert(string_set(names@) =~= groups_in_use(m@));
    }
    names
}

/// Whether `id` is among `ids`.
fn has_id(ids: &Vec<NodeId>, id: NodeId) -> (r: bool)
    ensures
        r == ids@.contains(id),
{
    let mut i: usize = 0;
    while i < ids.len()
        invariant
            i <= ids@.len(),
            forall|j: int| 0 <= j < i ==> ids@[j] != id,
        decreases ids@.len() - i,
    {
        if ids[i] == id {
            return true;
        }
        i += 1;
    }
    false
}

/// The nodes that belong to group `g`, each once, in tree order.
fn group_members(m: &[(NodeId, Vec<String>)], g: &str) -> (r: Vec<NodeId>)
    ensures
        r@.no_duplicates(),
        forall|id: NodeId| #[trigger] r@.contains(id) <==> is_member(m@, g@, id),
{
    let mut r: Vec<NodeId> = Vec::new();
    let mut k: usize = 0;
    while k < m.len()
        invariant
            k <= m@.len(),
            r@.no_duplicates(),
            forall|id: NodeId| #[trigger] r@.contains(id) <==> member_before(m@, k as int, g@, id),
        decreases m@.len() - k,
    {
        let id = m[k].0;
        let listed = string_find(&m[k].1, g).is_some();
        proof {
            if listed {
                let i = choose|i: int| 0 <= i < m@[k as int].1@.len() && m@[k as int].1@[i]@ == g@;
                assert(lists_group(m@, k as int, g@));
            }
        }
        let ghost r0 = r@;
        if listed && !has_id(&r, id) {
            r.push(id);
            proof {
                assert forall|a: int, b: int| 0 <= a < r@.len() && 0 <= b < r@.len() && a != b implies r@[a] != r@[b] by {
                    if a < r0.len() && b < r0.len() {
                        assert(r@[a] == r0[a] && r@[b] == r0[b]);
                    } else if a < r0.len() {
                        assert(r0.contains(r@[a]));
                    } else {
                        assert(r0.contains(r@[b]));
                    }
                }
            }
        }
        proof {
            assert forall|x: NodeId| #[trigger] r@.contains(x) <==> (r0.contains(x) || (listed && x == id)) by {
                if r@.contains(x) && r@ != r0 {
                    let i = choose|i: int| 0 <= i < r@.len() && r@[i] == x;
                    if i < r0.len() {
                        assert(r@[i] == r0[i]);
                    }
                }
                if r0.contains(x) && r@ != r0 {
                    let i = choose|i: int| 0 <= i < r0.len() && r0[i] == x;
                    assert(r@[i] == r0[i]);
                }
                if listed && x == id && r@ != r0 {
                    assert(r@[r0.len() as int] == id);
                }
            }
            if !listed {
                assert(!lists_group(m@, k as int, g@));
            }
            assert forall|x: NodeId| #[trigger] r@.contains(x) <==> member_before(m@, k + 1, g@, x) by {
                if member_before(m@, k + 1, g@, x) {
                    let j = choose|j: int| 0 <= j < k + 1 && m@[j].0 == x && #[trigger] lists_group(m@, j, g@);
                    if j < k {
                        assert(member_before(m@, k as int, g@, x));
                    }
                }
                if member_before(m@, k as int, g@, x) {
                    let j = choose|j: int| 0 <= j < k && m@[j].0 == x && #[trigger] lists_group(m@, j, g@);
                    assert(member_before(m@, k + 1, g@, x));
                }
                if listed && x == id {
                    assert(member_before(m@, k + 1, g@, x));
                }
            }
        }
        k += 1;
    }
    r
}

/// The names of the entries, in order.
pub open spec fn entry_names(s: Seq<GroupEntry>) -> Seq<Seq<char>> {
    s.map_values(|e: GroupEntry| e.name@)
}

/// `e` gives its group's member count and whether the inspected node
/// belongs to it.
pub open spec fn entry_describes(m: Seq<(NodeId, Vec<String>)>, inspected: Option<NodeId>, e: GroupEntry) -> bool {
    &&& e.member_count == members_of(m, e.name@).len()
    &&& e.node_is_member == match inspected {
        Some(id) => is_member(m, e.name@, id),
        None => false,
    }
}

/// The names that pass the filter `f`.
pub open spec fn shown_by(f: Seq<char>) -> spec_fn(Seq<char>) -> bool {
    |g: Seq<char>| passes_filter(g, f)
}

/// Filtering the first `i + 1` names adds the name at `i` when it passes.
proof fn lemma_filter_step(s: Seq<Seq<char>>, i: int, pred: spec_fn(Seq<char>) -> bool)
    requires
        0 <= i < s.len(),
    ensures
        s.take(i + 1).filter(pred) == if pred(s[i]) {
            s.take(i).filter(pred).push(s[i])
        } else {
            s.take(i).filter(pred)
        },
{
    reveal(Seq::filter);
    assert(s.take(i + 1).drop_last() =~= s.take(i));
}

/// Keeping some of a strictly increasing list of names keeps it so.
proof fn lemma_sorted_filter(s: Seq<Seq<char>>, pred: spec_fn(Seq<char>) -> bool)
    requires
        names_sorted(s),
    ensures
        names_sorted(s.filter(pred)),
    decreases s.len(),
{
    reveal(Seq::filter);
    if s.len() > 0 {
        let init = s.drop_last();
        assert forall|i: int, j: int| 0 <= i < j < init.len() implies path_lt(#[trigger] init[i], #[trigger] init[j]) by {
            assert(init[i] == s[i] && init[j] == s[j]);
        }
        lemma_sorted_filter(init, pred);
        let f = init.filter(pred);
        if pred(s.last()) {
            let g = f.push(s.last());
            assert forall|i: int, j: int| 0 <= i < j < g.len() implies path_lt(#[trigger] g[i], #[trigger] g[j]) by {
                if j == f.len() {
                    assert(f.contains(f[i]));
                    init.lemma_filter_contains_rev(pred, f[i]);
                    let a = choose|a: int| 0 <= a < init.len() && init[a] == f[i];
                    assert(s[a] == f[i]);
                    assert(path_lt(s[a], s[s.len() - 1]));
                } else {
                    assert(g[i] == f[i] && g[j] == f[j]);
                }
            }
        }
    }
}

/// The group-management dialog.
#[derive(Debug)]
pub struct GroupDialog {
    inspected_node: Option<NodeId>,
    visible: bool,
    filter_text: String,
}

impl GroupDialog {
    /// The node whose groups the dialog shows.
    pub closed spec fn inspected(&self) -> Option<NodeId> {
        self.inspected_node
    }

    /// Whether the dialog is shown.
    pub closed spec fn shown(&self) -> bool {
        self.visible
    }

    /// The filter text.
    pub closed spec fn filter(&self) -> Seq<char> {
        self.filter_text@
    }

    /// A closed dialog inspecting nothing, with an empty filter.
    pub fn new() -> (r: Self)
        ensures
            r.inspected() is None,
            !r.shown(),
            r.filter() == Seq::<char>::empty(),
    {
        GroupDialog { inspected_node: None, visible: false, filter_text: String::new() }
    }

    /// Opens the dialog on `node_id`, clearing the filter.
    pub fn open(&mut self, node_id: NodeId)
        ensures
            final(self).inspected() == Some(node_id),
            final(self).shown(),
            final(self).filter() == Seq::<char>::empty(),
    {
        self.inspected_node = Some(node_id);
        self.visible = true;
        self.filter_text = String::new();
    }

    /// Closes the dialog; the inspected node and the filter stay.
    pub fn close(&mut self)
        ensures
            !final(self).shown(),
            final(self).inspected() == old(self).inspected(),
            final(self).filter() == old(self).filter(),
    {
        self.visible = false;
    }

    /// Whether the dialog is shown.
    pub fn is_visible(&self) -> (r: bool)
        ensures
            r == self.shown(),
    {
        self.visible
    }

    /// The node whose groups the dialog shows.
    pub fn inspected_node(&self) -> (r: Option<NodeId>)
        ensures
            r == self.inspected(),
    {
        self.inspected_node
    }

    /// Sets the inspected node without opening or closing the dialog.
    pub fn set_inspected_node(&mut self, node_id: Option<NodeId>)
        ensures
            final(self).inspected() == node_id,
            final(self).shown() == old(self).shown(),
            final(self).filter() == old(self).filter(),
    {
        self.inspected_node = node_id;
    }

    /// Sets the filter text.
    pub fn set_filter(&mut self, text: &str)
        ensures
            final(self).filter() == text@,
            final(self).inspected() == old(self).inspected(),
            final(self).shown() == old(self).shown(),
    {
        self.filter_text = owned(text);
    }

    /// The filter text.
    pub fn filter_text(&self) -> (r: &str)
        ensures
            r@ == self.filter(),
    {
        self.filter_text.as_str()
    }

    /// Every group in use across the scene, in name order, each with the
    /// nodes that belong to it (each once). `memberships` lists the scene's
    /// nodes with their groups.
    pub fn collect_all_groups(&self, memberships: &[(NodeId, Vec<String>)]) -> (r: Vec<(String, Vec<NodeId>)>)
        ensures
            names_sorted(r@.map_values(|e: (String, Vec<NodeId>)| e.0@)),
            forall|g: Seq<char>| (exists|i: int| 0 <= i < r@.len() && #[trigger] r@[i].0@ == g) <==> in_use(memberships@, g),
            forall|i: int| 0 <= i < r@.len() ==> (#[trigger] r@[i]).1@.no_duplicates()
                && r@[i].1@.to_set() == members_of(memberships@, r@[i].0@),
    {
        let names = group_names(memberships);
        let mut r: Vec<(String, Vec<NodeId>)> = Vec::new();
        let mut i: usize = 0;
        while i < names.len()
            invariant
                i <= names@.len(),
                r@.len() == i,
                forall|j: int| 0 <= j < i ==> (#[trigger] r@[j]).0@ == names@[j]@,
                forall|j: int| 0 <= j < i ==> (#[trigger] r@[j]).1@.no_duplicates()
                    && r@[j].1@.to_set() == members_of(memberships@, r@[j].0@),
            decreases names@.len() - i,
        {
            let members = group_members(memberships, names[i].as_str());
            proof {
                assert(members@.to_set() =~= members_of(memberships@, names@[i as int]@));
            }
            r.push((names[i].clone(), members));
            proof {
                assert(r@[i as int].0@ == names@[i as int]@);
            }
            i += 1;
        }
        proof {
            let keys = r@.map_values(|e: (String, Vec<NodeId>)| e.0@);
            assert(keys =~= string_views(names@));
            assert forall|g: Seq<char>| (exists|j: int| 0 <= j < r@.len() && #[trigger] r@[j].0@ == g) <==> in_use(memberships@, g) by {
                if exists|j: int| 0 <= j < r@.len() && #[trigger] r@[j].0@ == g {
                    let j = choose|j: int| 0 <= j < r@.len() && #[trigger] r@[j].0@ == g;
                    assert(names@[j]@ == g);
                    assert(string_set(names@).contains(g));
                }
                if in_use(memberships@, g) {
                    assert(groups_in_use(memberships@).contains(g));
                    let j = choose|j: int| 0 <= j < names@.len() && #[trigger] names@[j]@ == g;
                    assert(r@[j].0@ == g);
                }
            }
        }
        r
    }

    /// The groups in use whose name passes the filter (case-insensitively),
    /// in name order, each with its member count and whether the inspected
    /// node belongs to it.
    pub fn filtered_groups(&self, memberships: &[(NodeId, Vec<String>)]) -> (r: Vec<GroupEntry>)
        ensures
            names_sorted(entry_names(r@)),
            forall|g: Seq<char>| #[trigger] entry_names(r@).contains(g)
                <==> (in_use(memberships@, g) && passes_filter(g, self.filter())),
            forall|j: int| 0 <= j < r@.len() ==> entry_describes(memberships@, self.inspected(), #[trigger] r@[j]),
            self.filter().len() == 0 ==> forall|g: Seq<char>| #[trigger] entry_names(r@).contains(g) <==> in_use(memberships@, g),
    {
        let names = group_names(memberships);
        let ghost keys = string_views(names@);
        let ghost pred = shown_by(self.filter());
        let filter_lower = to_lowercase(self.filter_text.as_str());
        let needle = chars_of(filter_lower.as_str());
        let mut r: Vec<GroupEntry> = Vec::new();
        let mut i: usize = 0;
        while i < names.len()
            invariant
                i <= names@.len(),
                keys == string_views(names@),
                pred == shown_by(self.filter()),
                needle@ == unicode_lowercase(self.filter()),
                entry_names(r@) == keys.take(i as int).filter(pred),
                forall|j: int| 0 <= j < r@.len() ==> entry_describes(memberships@, self.inspected(), #[trigger] r@[j]),
            decreases names@.len() - i,
        {
            let name = &names[i];
            let shown = if needle.len() == 0 {
                true
            } else {
                let hay = chars_of(to_lowercase(name.as_str()).as_str());
                find_from(hay.as_slice(), needle.as_slice(), 0).is_some()
            };
            proof {
                assert(keys[i as int] == name@);
                assert(shown == pred(keys[i as int]));
                lemma_filter_step(keys, i as int, pred);
            }
            if shown {
                let members = group_members(memberships, name.as_str());
                let is_member = match self.inspected_node {
                    Some(id) => has_id(&members, id),
                    None => false,
                };
                proof {
                    members@.unique_seq_to_set();
                    assert(members@.to_set() =~= members_of(memberships@, name@));
                }
                let ghost r0 = r@;
                r.push(GroupEntry { name: name.clone(), member_count: members.len(), node_is_member: is_member });
                proof {
                    assert(entry_names(r@) =~= entry_names(r0).push(name@));
                    assert forall|j: int| 0 <= j < r@.len() implies entry_describes(memberships@, self.inspected(), #[trigger] r@[j]) by {
                        if j < r0.len() {
                            assert(r@[j] == r0[j]);
                        }
                    }
                }
            }
            i += 1;
        }
        proof {
            assert(keys.take(names@.len() as int) =~= keys);
            lemma_sorted_filter(keys, pred);
            assert(entry_names(r@) == keys.filter(pred));
            assert forall|g: Seq<char>| #[trigger] entry_names(r@).contains(g)
                <==> (in_use(memberships@, g) && passes_filter(g, self.filter())) by {
                if keys.filter(pred).contains(g) {
                    keys.lemma_filter_contains_rev(pred, g);
                    let b = choose|b: int| 0 <= b < keys.filter(pred).len() && keys.filter(pred)[b] == g;
                    keys.lemma_filter_pred(pred, b);
                }
                if keys.contains(g) && pred(g) {
                    let a = choose|a: int| 0 <= a < keys.len() && keys[a] == g;
                    keys.lemma_filter_contains(pred, a);
                }
                if keys.contains(g) {
                    let a = choose|a: int| 0 <= a < keys.len() && keys[a] == g;
                    assert(names@[a]@ == g);
                    assert(string_set(names@).contains(g));
                }
                if in_use(memberships@, g) {
                    assert(groups_in_use(memberships@).contains(g));
                    assert(string_set(names@).contains(g));
                    let a = choose|a: int| 0 <= a < names@.len() && #[trigger] names@[a]@ == g;
                    assert(keys[a] == g);
                }
            }
        }
        r
    }

    /// The groups of the inspected node, in name order; none when nothing
    /// is inspected or the node is not listed.
    pub fn node_groups(&self, memberships: &[(NodeId, Vec<String>)]) -> (r: Vec<String>)
        ensures
            names_in_order(string_seq(r@)),
            match self.inspected() {
                None => r@.len() == 0,
                Some(id) => match first_listed(memberships@, id) {
                    None => r@.len() == 0,
                    Some(k) => string_seq(r@).to_multiset() == string_seq(memberships@[k].1@).to_multiset(),
                },
            },
    {
        let id = match self.inspected_node {
            Some(id) => id,
            None => return Vec::new(),
        };
        let mut k: usize = 0;
        while k < memberships.len()
            invariant
                self.inspected() == Some(id),
                k <= memberships@.len(),
                forall|j: int| 0 <= j < k ==> (#[trigger] memberships@[j]).0 != id,
            decreases memberships@.len() - k,
        {
            if memberships[k].0 == id {
                proof {
                    lemma_first_listed(memberships@, id, k as int);
                }
                return sorted_copy(&memberships[k].1);
            }
            k += 1;
        }
        proof {
            lemma_first_listed_none(memberships@, id);
        }
        Vec::new()
    }

    /// Adds the inspected node to `group` through `apply`, the scene's own
    /// call. Refused, without calling it, when nothing is inspected or the
    /// name is empty; the scene's error is passed on.
    pub fn add_to_group<F: FnOnce(NodeId, &str) -> Result<(), String>>(&self, group: &str, apply: F) -> (r: Result<GroupActionResult, String>)
        requires
            forall|id: NodeId| call_requires(apply, (id, group)),
        ensures
            match self.inspected() {
                None => r matches Err(e) && e@ == "no node inspected"@,
                Some(id) => if group@.len() == 0 {
                    r matches Err(e) && e@ == "group name cannot be empty"@
                } else {
                    match r {
                        Ok(res) => (exists|o: Result<(), String>| #[trigger] call_ensures(apply, (id, group), o) && o is Ok)
                            && res.group_name@ == group@
                            && res.description@ == added_description(group@),
                        Err(e) => call_ensures(apply, (id, group), Err(e)),
                    }
                },
            },
    {
        let node_id = match self.inspected_node {
            Some(id) => id,
            None => return Err(owned("no node inspected")),
        };
        if chars_of(group).len() == 0 {
            return Err(owned("group name cannot be empty"));
        }
        match apply(node_id, group) {
            Ok(()) => {
                let mut description = owned("Added node to group \"");
                push_str(&mut description, group);
                push_str(&mut description, "\"");
                Ok(GroupActionResult { group_name: owned(group), description })
            },
            Err(e) => Err(e),
        }
    }

    /// Removes the inspected node from `group` through `apply`, the scene's
    /// own call. Refused, without calling it, when nothing is inspected; the
    /// scene's error is passed on.
    pub fn remove_from_group<F: FnOnce(NodeId, &str) -> Result<(), String>>(&self, group: &str, apply: F) -> (r: Result<GroupActionResult, String>)
        requires
            forall|id: NodeId| call_requires(apply, (id, group)),
        ensures
            match self.inspected() {
                None => r matches Err(e) && e@ == "no node inspected"@,
                Some(id) => match r {
                    Ok(res) => (exists|o: Result<(), String>| #[trigger] call_ensures(apply, (id, group), o) && o is Ok)
                            && res.group_name@ == group@
                        && res.description@ == removed_description(group@),
                    Err(e) => call_ensures(apply, (id, group), Err(e)),
                },
            },
    {
        let node_id = match self.inspected_node {
            Some(id) => id,
            None => return Err(owned("no node inspected")),
        };
        match apply(node_id, group) {
            Ok(()) => {
                let mut description = owned("Removed node from group \"");
                push_str(&mut description, group);
                push_str(&mut description, "\"");
                Ok(GroupActionResult { group_name: owned(group), description })
            },
            Err(e) => Err(e),
        }
    }

    /// Creates `group` by adding the inspected node to it; the same as
    /// `add_to_group`.
    pub fn create_group<F: FnOnce(NodeId, &str) -> Result<(), String>>(&self, group: &str, apply: F) -> (r: Result<GroupActionResult, String>)
        requires
            forall|id: NodeId| call_requires(apply, (id, group)),
        ensures
            match self.inspected() {
                None => r matches Err(e) && e@ == "no node inspected"@,
                Some(id) => if group@.len() == 0 {
                    r matches Err(e) && e@ == "group name cannot be empty"@
                } else {
                    match r {
                        Ok(res) => (exists|o: Result<(), String>| #[trigger] call_ensures(apply, (id, group), o) && o is Ok)
                            && res.group_name@ == group@
                            && res.description@ == added_description(group@),
                        Err(e) => call_ensures(apply, (id, group), Err(e)),
                    }
                },
            },
    {
        self.add_to_group(group, apply)
    }

    /// The number of groups in use.
    pub fn group_count(&self, memberships: &[(NodeId, Vec<String>)]) -> (r: usize)
        ensures
            r == groups_in_use(memberships@).len(),
    {
        let names = group_names(memberships);
        proof {
            lemma_sorted_no_dups(string_views(names@));
            string_views(names@).unique_seq_to_set();
            lemma_string_set_views(names@);
        }
        names.len()
    }

    /// The number of nodes in `group`.
    pub fn members_in_group(&self, memberships: &[(NodeId, Vec<String>)], group: &str) -> (r: usize)
        ensures
            r == members_of(memberships@, group@).len(),
    {
        let members = group_members(memberships, group);
        proof {
            members@.unique_seq_to_set();
            assert(members@.to_set() =~= members_of(memberships@, group@));
        }
        members.len()
    }
}

impl Default for GroupDialog {
    fn default() -> (r: Self)
        ensures
            r.inspected() is None,
            !r.shown(),
            r.filter() == Seq::<char>::empty(),
    {
        GroupDialog::new()
    }
}

/// The position of the first listing of node `id`, if it is listed.
pub open spec fn first_listed(m: Seq<(NodeId, Vec<String>)>, id: NodeId) -> Option<int> {
    if exists|k: int| 0 <= k < m.len() && m[k].0 == id && forall|j: int| 0 <= j < k ==> m[j].0 != id {
        Some(choose|k: int| 0 <= k < m.len() && m[k].0 == id && forall|j: int| 0 <= j < k ==> m[j].0 != id)
    } else {
        None
    }
}

proof fn lemma_first_listed(m: Seq<(NodeId, Vec<String>)>, id: NodeId, k: int)
    requires
        0 <= k < m.len(),
        m[k].0 == id,
        forall|j: int| 0 <= j < k ==> (#[trigger] m[j]).0 != id,
    ensures
        first_listed(m, id) == Some(k),
{
    let c = choose|c: int| 0 <= c < m.len() && m[c].0 == id && forall|j: int| 0 <= j < c ==> m[j].0 != id;
    if c < k {
        assert(m[c].0 != id);
    } else if c > k {
        assert(m[k].0 != id);
    }
}

proof fn lemma_first_listed_none(m: Seq<(NodeId, Vec<String>)>, id: NodeId)
    requires
        forall|j: int| 0 <= j < m.len() ==> (#[trigger] m[j]).0 != id,
    ensures
        first_listed(m, id) is None,
{
}

} // verus!
