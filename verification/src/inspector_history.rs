//! Browser-like back/forward navigation for the inspector: every inspected
//! node or drilled-into sub-resource is pushed onto a bounded stack with a
//! cursor, and the toolbar above the property list keeps a breadcrumb trail
//! in step with it.

use vstd::prelude::*;
use crate::inspector::ResourceAction;
use crate::text::{owned, push_char, push_str, str_eq};

verus! {

broadcast use vstd::string::group_string_axioms;

/// The handle of a node in the edited scene.
#[derive(Debug, Clone, Copy, PartialEq, Eq, Structural, Hash)]
pub struct NodeId(pub u64);

/// The characters of an optional string.
pub open spec fn opt_chars(o: Option<String>) -> Option<Seq<char>> {
    match o {
        Some(s) => Some(s@),
        None => None,
    }
}

/// An entry in the inspector navigation history.
#[derive(Debug, Clone)]
pub struct InspectorHistoryEntry {
    /// The node being inspected.
    pub node_id: NodeId,
    /// The sub-resource path drilled into (such as `material` or
    /// `material/albedo_texture`), if any.
    pub subresource_path: Option<String>,
}

/// An entry as plain values: the node handle and the sub-resource path.
pub type EntryView = (u64, Option<Seq<char>>);

impl View for InspectorHistoryEntry {
    type V = EntryView;

    open spec fn view(&self) -> EntryView {
        (self.node_id.0, opt_chars(self.subresource_path))
    }
}

impl InspectorHistoryEntry {
    /// An entry for a node itself.
    pub fn node(node_id: NodeId) -> (r: Self)
        ensures
            r@ == (node_id.0, None::<Seq<char>>),
    {
        InspectorHistoryEntry { node_id, subresource_path: None }
    }

    /// An entry for the sub-resource at `path` of a node.
    pub fn subresource(node_id: NodeId, path: &str) -> (r: Self)
        ensures
            r@ == (node_id.0, Some(path@)),
    {
        InspectorHistoryEntry { node_id, subresource_path: Some(owned(path)) }
    }

    /// A copy of this entry.
    pub fn duplicate(&self) -> (r: Self)
        ensures
            r@ == self@,
    {
        let path = match &self.subresource_path {
            Some(p) => Some(p.clone()),
            None => None,
        };
        InspectorHistoryEntry { node_id: self.node_id, subresource_path: path }
    }

    /// Whether two entries name the same node and sub-resource.
    pub fn same_as(&self, other: &Self) -> (r: bool)
        ensures
            r == (self@ == other@),
    {
        if self.node_id.0 != other.node_id.0 {
            return false;
        }
        match (&self.subresource_path, &other.subresource_path) {
            (Some(a), Some(b)) => str_eq(a.as_str(), b.as_str()),
            (None, None) => true,
            _ => false,
        }
    }
}

/// The views of a sequence of entries.
pub open spec fn entry_views(s: Seq<InspectorHistoryEntry>) -> Seq<EntryView> {
    s.map_values(|e: InspectorHistoryEntry| e@)
}

/// The stack after pushing `e` with the cursor at `cursor`: the entries
/// after the cursor are dropped, `e` is appended, and the oldest entries
/// beyond `cap` are dropped.
pub open spec fn stack_after_push(stack: Seq<EntryView>, cursor: nat, e: EntryView, cap: nat) -> Seq<EntryView> {
    let t = stack.take(cursor as int).push(e);
    if t.len() > cap {
        t.skip(t.len() - cap)
    } else {
        t
    }
}

/// The entry under the cursor (the cursor counts entries, so the current
/// entry is the one before it), if there is one.
pub open spec fn entry_at_cursor(stack: Seq<EntryView>, cursor: nat) -> Option<EntryView> {
    if 0 < cursor <= stack.len() {
        Some(stack[cursor - 1])
    } else {
        None
    }
}

/// The cursor after stepping back: one entry earlier, unless it is on the
/// first entry (or the history is empty).
pub open spec fn pos_after_back(pos: nat) -> nat {
    if pos > 1 {
        (pos - 1) as nat
    } else {
        pos
    }
}

/// The cursor after stepping forward: one entry later, unless it is on the
/// last entry.
pub open spec fn pos_after_forward(len: nat, pos: nat) -> nat {
    if pos < len {
        pos + 1
    } else {
        pos
    }
}

/// The view of an optional entry.
pub open spec fn opt_entry(o: Option<InspectorHistoryEntry>) -> Option<EntryView> {
    match o {
        Some(e) => Some(e@),
        None => None,
    }
}

/// `k` is the last position of a plain node entry for `id`.
pub open spec fn is_last_node_entry(stack: Seq<EntryView>, id: u64, k: int) -> bool {
    &&& 0 <= k < stack.len()
    &&& stack[k] == (id, None::<Seq<char>>)
    &&& forall|j: int| k < j < stack.len() ==> stack[j] != (id, None::<Seq<char>>)
}

/// The bounded back/forward navigation stack of the inspector.
#[derive(Debug, Clone)]
pub struct InspectorHistory {
    entries: Vec<InspectorHistoryEntry>,
    cursor: usize,
    max_depth: usize,
}

impl InspectorHistory {
    /// The entries, oldest first.
    pub closed spec fn stack(&self) -> Seq<EntryView> {
        entry_views(self.entries@)
    }

    /// The number of entries up to and including the current one.
    pub closed spec fn pos(&self) -> nat {
        self.cursor as nat
    }

    /// The most entries the stack keeps.
    pub closed spec fn cap(&self) -> nat {
        self.max_depth as nat
    }

    /// The cursor lies within the stack and is past the first entry once
    /// there is one, and the stack keeps to its bound.
    pub open spec fn wf(&self) -> bool {
        &&& self.pos() <= self.stack().len()
        &&& self.stack().len() > 0 ==> self.pos() >= 1
        &&& self.stack().len() <= self.cap()
        &&& self.cap() >= 1
    }

    /// An empty history keeping at most 64 entries.
    pub fn new() -> (r: Self)
        ensures
            r.wf(),
            r.stack() == Seq::<EntryView>::empty(),
            r.pos() == 0,
            r.cap() == 64,
    {
        let r = InspectorHistory { entries: Vec::new(), cursor: 0, max_depth: 64 };
        assert(r.stack() =~= Seq::<EntryView>::empty());
        r
    }

    /// Pushes `entry`, dropping the forward history and, beyond the bound,
    /// the oldest entries; the cursor moves to the new entry.
    pub fn push(&mut self, entry: InspectorHistoryEntry)
        requires
            old(self).wf(),
        ensures
            final(self).wf(),
            final(self).cap() == old(self).cap(),
            final(self).stack() == stack_after_push(old(self).stack(), old(self).pos(), entry@, old(self).cap()),
            final(self).pos() == final(self).stack().len(),
    {
        let ghost old_stack = self.stack();
        let ghost ev = entry@;
        if self.cursor < self.entries.len() {
            self.entries.truncate(self.cursor);
        }
        assert(entry_views(self.entries@) =~= old_stack.take(self.cursor as int));
        self.entries.push(entry);
        assert(entry_views(self.entries@) =~= old_stack.take(self.cursor as int).push(ev));
        self.cursor = self.entries.len();
        if self.entries.len() > self.max_depth {
            let excess = self.entries.len() - self.max_depth;
            let ghost full = self.entries@;
            let mut kept: Vec<InspectorHistoryEntry> = Vec::new();
            let mut i: usize = excess;
            let n = self.entries.len();
            while i < n
                invariant
                    n == self.entries@.len(),
                    self.entries@ == full,
                    excess <= i <= n,
                    entry_views(kept@) == entry_views(full).subrange(excess as int, i as int),
                decreases n - i,
            {
                let e = self.entries[i].duplicate();
                let ghost prev = entry_views(kept@);
                let ghost ev_i = e@;
                kept.push(e);
                assert(entry_views(kept@) =~= prev.push(ev_i));
                assert(entry_views(full)[i as int] == ev_i);
                assert(entry_views(kept@) =~= entry_views(full).subrange(excess as int, i + 1));
                i += 1;
            }
            self.entries = kept;
            self.cursor = self.entries.len();
            assert(entry_views(full).subrange(excess as int, n as int) =~= entry_views(full).skip(excess as int));
        }
    }

    /// Steps back: the previous entry becomes current and is returned;
    /// `None` (and no change) at the start.
    pub fn back(&mut self) -> (r: Option<InspectorHistoryEntry>)
        requires
            old(self).wf(),
        ensures
            final(self).wf(),
            final(self).stack() == old(self).stack(),
            final(self).cap() == old(self).cap(),
            final(self).pos() == pos_after_back(old(self).pos()),
            opt_entry(r) == if old(self).pos() > 1 {
                entry_at_cursor(final(self).stack(), final(self).pos())
            } else {
                None
            },
    {
        if self.cursor > 1 {
            self.cursor -= 1;
            Some(self.entries[self.cursor - 1].duplicate())
        } else {
            None
        }
    }

    /// Steps forward: the next entry becomes current and is returned;
    /// `None` (and no change) at the end.
    pub fn forward(&mut self) -> (r: Option<InspectorHistoryEntry>)
        requires
            old(self).wf(),
        ensures
            final(self).wf(),
            final(self).stack() == old(self).stack(),
            final(self).cap() == old(self).cap(),
            final(self).pos() == pos_after_forward(old(self).stack().len(), old(self).pos()),
            opt_entry(r) == if old(self).pos() < old(self).stack().len() {
                entry_at_cursor(final(self).stack(), final(self).pos())
            } else {
                None
            },
    {
        if self.cursor < self.entries.len() {
            self.cursor += 1;
            Some(self.entries[self.cursor - 1].duplicate())
        } else {
            None
        }
    }

    /// The current entry, if the history is not empty.
    pub fn current(&self) -> (r: Option<&InspectorHistoryEntry>)
        ensures
            match r {
                Some(e) => entry_at_cursor(self.stack(), self.pos()) == Some(e@),
                None => entry_at_cursor(self.stack(), self.pos()) is None,
            },
    {
        if self.cursor > 0 && self.cursor <= self.entries.len() {
            Some(&self.entries[self.cursor - 1])
        } else {
            None
        }
    }

    /// Whether there is an entry to step back to.
    pub fn can_go_back(&self) -> (r: bool)
        ensures
            r == (self.pos() > 1),
    {
        self.cursor > 1
    }

    /// Whether there is an entry to step forward to.
    pub fn can_go_forward(&self) -> (r: bool)
        ensures
            r == (self.pos() < self.stack().len()),
    {
        self.cursor < self.entries.len()
    }

    /// The entries, most recent first (the history drop-down).
    pub fn entries_recent_first(&self) -> (r: Vec<InspectorHistoryEntry>)
        ensures
            entry_views(r@) == self.stack().reverse(),
    {
        let mut out: Vec<InspectorHistoryEntry> = Vec::new();
        let n = self.entries.len();
        let mut i: usize = n;
        while i > 0
            invariant
                n == self.entries@.len(),
                i <= n,
                entry_views(out@) == self.stack().reverse().take(n - i),
            decreases i,
        {
            i -= 1;
            let e = self.entries[i].duplicate();
            let ghost prev = entry_views(out@);
            let ghost ev_i = e@;
            out.push(e);
            assert(entry_views(out@) =~= prev.push(ev_i));
            assert(self.stack()[i as int] == ev_i);
            assert(self.stack().reverse()[n - i - 1] == ev_i);
            assert(entry_views(out@) =~= self.stack().reverse().take(n - i));
        }
        assert(self.stack().reverse().take(n as int) =~= self.stack().reverse());
        out
    }

    /// Moves the cursor to the most recent plain entry of `node_id` and
    /// returns it; `None` (and no change) if the node has no such entry.
    pub fn jump_to_node(&mut self, node_id: NodeId) -> (r: Option<InspectorHistoryEntry>)
        requires
            old(self).wf(),
        ensures
            final(self).wf(),
            final(self).stack() == old(self).stack(),
            final(self).cap() == old(self).cap(),
            match r {
                Some(e) => is_last_node_entry(old(self).stack(), node_id.0, final(self).pos() - 1)
                    && e@ == (node_id.0, None::<Seq<char>>),
                None => final(self).pos() == old(self).pos()
                    && forall|k: int| 0 <= k < old(self).stack().len() ==> old(self).stack()[k] != (node_id.0, None::<Seq<char>>),
            },
    {
        let mut i: usize = self.entries.len();
        while i > 0
            invariant
                self.wf(),
                self.stack() == old(self).stack(),
                self.pos() == old(self).pos(),
                self.cap() == old(self).cap(),
                i <= self.entries@.len(),
                forall|j: int| i <= j < self.stack().len() ==> self.stack()[j] != (node_id.0, None::<Seq<char>>),
            decreases i,
        {
            i -= 1;
            let hit = self.entries[i].node_id.0 == node_id.0 && self.entries[i].subresource_path.is_none();
            assert(hit == (self.stack()[i as int] == (node_id.0, None::<Seq<char>>)));
            if hit {
                self.cursor = i + 1;
                return Some(self.entries[i].duplicate());
            }
        }
        None
    }

    /// The number of entries.
    pub fn len(&self) -> (r: usize)
        ensures
            r == self.stack().len(),
    {
        self.entries.len()
    }

    /// Whether the history is empty.
    pub fn is_empty(&self) -> (r: bool)
        ensures
            r == (self.stack().len() == 0),
    {
        self.entries.len() == 0
    }

    /// Forgets every entry.
    pub fn clear(&mut self)
        requires
            old(self).wf(),
        ensures
            final(self).wf(),
            final(self).stack() == Seq::<EntryView>::empty(),
            final(self).pos() == 0,
            final(self).cap() == old(self).cap(),
    {
        self.entries.clear();
        self.cursor = 0;
        assert(self.stack() =~= Seq::<EntryView>::empty());
    }
}

impl Default for InspectorHistory {
    fn default() -> (r: Self)
        ensures
            r.wf(),
            r.stack() == Seq::<EntryView>::empty(),
            r.pos() == 0,
            r.cap() == 64,
    {
        InspectorHistory::new()
    }
}

/// A segment of the breadcrumb trail for sub-resource navigation.
#[derive(Debug, Clone)]
pub struct BreadcrumbSegment {
    /// The label shown (such as `Player (Node2D)` or `albedo_texture`).
    pub label: String,
    /// The history entry the breadcrumb leads to.
    pub entry: InspectorHistoryEntry,
}

/// The breadcrumbs as plain values: each label with its entry.
pub open spec fn crumb_views(s: Seq<BreadcrumbSegment>) -> Seq<(Seq<char>, EntryView)> {
    s.map_values(|b: BreadcrumbSegment| (b.label@, b.entry@))
}

/// The label of a node's breadcrumb: its name, then its class in brackets.
pub open spec fn node_label(name: Seq<char>, class_name: Seq<char>) -> Seq<char> {
    name + seq![' ', '('] + class_name + seq![')']
}

/// `k` is the first breadcrumb leading to `e`.
pub open spec fn is_first_crumb(crumbs: Seq<(Seq<char>, EntryView)>, e: EntryView, k: int) -> bool {
    &&& 0 <= k < crumbs.len()
    &&& crumbs[k].1 == e
    &&& forall|j: int| 0 <= j < k ==> crumbs[j].1 != e
}

/// The breadcrumbs after stepping back to `e`: cut after the first one that
/// leads to `e`, or left as they are when none does.
pub open spec fn crumbs_after_back(crumbs: Seq<(Seq<char>, EntryView)>, e: EntryView) -> Seq<(Seq<char>, EntryView)> {
    if exists|k: int| is_first_crumb(crumbs, e, k) {
        crumbs.take((choose|k: int| is_first_crumb(crumbs, e, k)) + 1)
    } else {
        crumbs
    }
}

/// The resource actions offered for a current entry: all six for a
/// sub-resource, none for a plain node or an empty history.
pub open spec fn actions_for(current: Option<EntryView>) -> Seq<ResourceAction> {
    match current {
        Some(e) => if e.1 is Some {
            seq![ResourceAction::Edit, ResourceAction::Load, ResourceAction::Clear, ResourceAction::SaveAs,
                ResourceAction::Copy, ResourceAction::Paste]
        } else {
            Seq::empty()
        },
        None => Seq::empty(),
    }
}

/// The header bar above the property list: the inspected object's class and
/// name, the breadcrumb trail and the navigation history.
#[derive(Debug, Clone)]
pub struct InspectorToolbar {
    /// The class of the inspected object (such as `Node2D`).
    pub object_class: String,
    /// The name of the inspected object (such as `Player`).
    pub object_name: String,
    /// The breadcrumb trail for sub-resource navigation.
    pub breadcrumbs: Vec<BreadcrumbSegment>,
    /// The navigation history.
    pub history: InspectorHistory,
}

impl InspectorToolbar {
    /// The breadcrumb trail as plain values.
    pub open spec fn crumbs(&self) -> Seq<(Seq<char>, EntryView)> {
        crumb_views(self.breadcrumbs@)
    }

    /// An empty toolbar with an empty history.
    pub fn new() -> (r: Self)
        ensures
            r.object_class@ == Seq::<char>::empty(),
            r.object_name@ == Seq::<char>::empty(),
            r.crumbs() == Seq::<(Seq<char>, EntryView)>::empty(),
            r.history.wf(),
            r.history.stack() == Seq::<EntryView>::empty(),
            r.history.pos() == 0,
            r.history.cap() == 64,
    {
        let r = InspectorToolbar {
            object_class: String::new(),
            object_name: String::new(),
            breadcrumbs: Vec::new(),
            history: InspectorHistory::new(),
        };
        assert(r.crumbs() =~= Seq::<(Seq<char>, EntryView)>::empty());
        r
    }

    /// Inspects a node: the header shows its name and class, the trail
    /// restarts at the node, and the node is pushed onto the history.
    pub fn inspect_node(&mut self, node_id: NodeId, name: &str, class_name: &str)
        requires
            old(self).history.wf(),
        ensures
            final(self).object_class@ == class_name@,
            final(self).object_name@ == name@,
            final(self).crumbs() == seq![(node_label(name@, class_name@), (node_id.0, None::<Seq<char>>))],
            final(self).history.wf(),
            final(self).history.cap() == old(self).history.cap(),
            final(self).history.stack() == stack_after_push(old(self).history.stack(), old(self).history.pos(),
                (node_id.0, None::<Seq<char>>), old(self).history.cap()),
            final(self).history.pos() == final(self).history.stack().len(),
    {
        self.object_class = owned(class_name);
        self.object_name = owned(name);
        let mut label = String::new();
        push_str(&mut label, name);
        push_char(&mut label, ' ');
        push_char(&mut label, '(');
        push_str(&mut label, class_name);
        push_char(&mut label, ')');
        assert(label@ =~= node_label(name@, class_name@));
        self.breadcrumbs = Vec::new();
        self.breadcrumbs.push(BreadcrumbSegment { label, entry: InspectorHistoryEntry::node(node_id) });
        assert(self.crumbs() =~= seq![(node_label(name@, class_name@), (node_id.0, None::<Seq<char>>))]);
        self.history.push(InspectorHistoryEntry::node(node_id));
    }

    /// Drills into the sub-resource at `property_path` of a node: a
    /// breadcrumb labelled `display_label` is appended and the sub-resource
    /// is pushed onto the history.
    pub fn drill_into_subresource(&mut self, node_id: NodeId, property_path: &str, display_label: &str)
        requires
            old(self).history.wf(),
        ensures
            final(self).object_class == old(self).object_class,
            final(self).object_name == old(self).object_name,
            final(self).crumbs() == old(self).crumbs().push((display_label@, (node_id.0, Some(property_path@)))),
            final(self).history.wf(),
            final(self).history.cap() == old(self).history.cap(),
            final(self).history.stack() == stack_after_push(old(self).history.stack(), old(self).history.pos(),
                (node_id.0, Some(property_path@)), old(self).history.cap()),
            final(self).history.pos() == final(self).history.stack().len(),
    {
        let entry = InspectorHistoryEntry::subresource(node_id, property_path);
        let ghost before = self.crumbs();
        self.breadcrumbs.push(BreadcrumbSegment { label: owned(display_label), entry: entry.duplicate() });
        assert(self.crumbs() =~= before.push((display_label@, (node_id.0, Some(property_path@)))));
        self.history.push(entry);
    }

    /// Steps back in the history; the trail is cut after the first
    /// breadcrumb leading to the entry stepped back to.
    pub fn navigate_back(&mut self) -> (r: Option<InspectorHistoryEntry>)
        requires
            old(self).history.wf(),
        ensures
            final(self).object_class == old(self).object_class,
            final(self).object_name == old(self).object_name,
            final(self).history.wf(),
            final(self).history.stack() == old(self).history.stack(),
            final(self).history.cap() == old(self).history.cap(),
            final(self).history.pos() == pos_after_back(old(self).history.pos()),
            opt_entry(r) == if old(self).history.pos() > 1 {
                entry_at_cursor(final(self).history.stack(), final(self).history.pos())
            } else {
                None
            },
            match r {
                Some(e) => final(self).crumbs() == crumbs_after_back(old(self).crumbs(), e@),
                None => final(self).crumbs() == old(self).crumbs(),
            },
    {
        match self.history.back() {
            Some(entry) => {
                let ghost cs = self.crumbs();
                let ghost h = self.history;
                let mut k: usize = 0;
                while k < self.breadcrumbs.len()
                    invariant
                        cs == self.crumbs(),
                        cs == old(self).crumbs(),
                        h == self.history,
                        h.wf(),
                        h.stack() == old(self).history.stack(),
                        h.cap() == old(self).history.cap(),
                        h.pos() == pos_after_back(old(self).history.pos()),
                        Some(entry@) == if old(self).history.pos() > 1 {
                            entry_at_cursor(h.stack(), h.pos())
                        } else {
                            None
                        },
                        self.object_class == old(self).object_class,
                        self.object_name == old(self).object_name,
                        k <= cs.len(),
                        forall|j: int| 0 <= j < k ==> cs[j].1 != entry@,
                    decreases cs.len() - k,
                {
                    if self.breadcrumbs[k].entry.same_as(&entry) {
                        assert(is_first_crumb(cs, entry@, k as int));
                        proof {
                            let c = choose|c: int| is_first_crumb(cs, entry@, c);
                            if c < k {
                            } else if c > k {
                                assert(cs[k as int].1 == entry@);
                            }
                        }
                        self.breadcrumbs.truncate(k + 1);
                        assert(self.crumbs() =~= cs.take(k + 1));
                        return Some(entry);
                    }
                    k += 1;
                }
                assert(!exists|c: int| is_first_crumb(cs, entry@, c));
                Some(entry)
            },
            None => None,
        }
    }

    /// Steps forward in the history.
    pub fn navigate_forward(&mut self) -> (r: Option<InspectorHistoryEntry>)
        requires
            old(self).history.wf(),
        ensures
            final(self).object_class == old(self).object_class,
            final(self).object_name == old(self).object_name,
            final(self).crumbs() == old(self).crumbs(),
            final(self).history.wf(),
            final(self).history.stack() == old(self).history.stack(),
            final(self).history.cap() == old(self).history.cap(),
            final(self).history.pos() == pos_after_forward(old(self).history.stack().len(), old(self).history.pos()),
            opt_entry(r) == if old(self).history.pos() < old(self).history.stack().len() {
                entry_at_cursor(final(self).history.stack(), final(self).history.pos())
            } else {
                None
            },
    {
        self.history.forward()
    }

    /// The history drop-down: the recently inspected entries, most recent
    /// first.
    pub fn history_dropdown(&self) -> (r: Vec<InspectorHistoryEntry>)
        ensures
            entry_views(r@) == self.history.stack().reverse(),
    {
        self.history.entries_recent_first()
    }

    /// Selects a node from the history drop-down, moving the history to its
    /// most recent plain entry; `None` if it has none.
    pub fn select_from_history(&mut self, node_id: NodeId) -> (r: Option<InspectorHistoryEntry>)
        requires
            old(self).history.wf(),
        ensures
            final(self).object_class == old(self).object_class,
            final(self).object_name == old(self).object_name,
            final(self).crumbs() == old(self).crumbs(),
            final(self).history.wf(),
            final(self).history.stack() == old(self).history.stack(),
            final(self).history.cap() == old(self).history.cap(),
            match r {
                Some(e) => is_last_node_entry(old(self).history.stack(), node_id.0, final(self).history.pos() - 1)
                    && e@ == (node_id.0, None::<Seq<char>>),
                None => final(self).history.pos() == old(self).history.pos()
                    && forall|k: int| 0 <= k < old(self).history.stack().len()
                        ==> old(self).history.stack()[k] != (node_id.0, None::<Seq<char>>),
            },
    {
        self.history.jump_to_node(node_id)
    }

    /// The resource actions for the current entry: edit, load, clear, save
    /// as, copy and paste while a sub-resource is inspected, none otherwise.
    pub fn resource_actions(&self) -> (r: Vec<ResourceAction>)
        ensures
            r@ == actions_for(entry_at_cursor(self.history.stack(), self.history.pos())),
    {
        match self.history.current() {
            Some(e) => {
                if e.subresource_path.is_some() {
                    let v = vec![ResourceAction::Edit, ResourceAction::Load, ResourceAction::Clear,
                        ResourceAction::SaveAs, ResourceAction::Copy, ResourceAction::Paste];
                    assert(v@ =~= actions_for(entry_at_cursor(self.history.stack(), self.history.pos())));
                    v
                } else {
                    let v: Vec<ResourceAction> = Vec::new();
                    assert(v@ =~= actions_for(entry_at_cursor(self.history.stack(), self.history.pos())));
                    v
                }
            },
            None => {
                let v: Vec<ResourceAction> = Vec::new();
                assert(v@ =~= actions_for(entry_at_cursor(self.history.stack(), self.history.pos())));
                v
            },
        }
    }

    /// Goes to breadcrumb `index`: the trail is cut after it and its entry
    /// is pushed onto the history and returned; `None` (and no change) if
    /// there is no such breadcrumb.
    pub fn navigate_to_breadcrumb(&mut self, index: usize) -> (r: Option<InspectorHistoryEntry>)
        requires
            old(self).history.wf(),
        ensures
            final(self).object_class == old(self).object_class,
            final(self).object_name == old(self).object_name,
            final(self).history.wf(),
            final(self).history.cap() == old(self).history.cap(),
            index < old(self).crumbs().len() ==> (r matches Some(e) && e@ == old(self).crumbs()[index as int].1
                && final(self).crumbs() == old(self).crumbs().take(index + 1)
                && final(self).history.stack() == stack_after_push(old(self).history.stack(),
                    old(self).history.pos(), e@, old(self).history.cap())
                && final(self).history.pos() == final(self).history.stack().len()),
            index >= old(self).crumbs().len() ==> (r is None && final(self).crumbs() == old(self).crumbs()
                && final(self).history.stack() == old(self).history.stack()
                && final(self).history.pos() == old(self).history.pos()),
    {
        if index < self.breadcrumbs.len() {
            let entry = self.breadcrumbs[index].entry.duplicate();
            let ghost cs = self.crumbs();
            self.breadcrumbs.truncate(index + 1);
            assert(self.crumbs() =~= cs.take(index + 1));
            self.history.push(entry.duplicate());
            Some(entry)
        } else {
            None
        }
    }

    /// The number of breadcrumbs.
    pub fn breadcrumb_depth(&self) -> (r: usize)
        ensures
            r == self.crumbs().len(),
    {
        self.breadcrumbs.len()
    }

    /// Whether the toolbar can step back.
    pub fn can_go_back(&self) -> (r: bool)
        ensures
            r == (self.history.pos() > 1),
    {
        self.history.can_go_back()
    }

    /// Whether the toolbar can step forward.
    pub fn can_go_forward(&self) -> (r: bool)
        ensures
            r == (self.history.pos() < self.history.stack().len()),
    {
        self.history.can_go_forward()
    }
}

impl Default for InspectorToolbar {
    fn default() -> (r: Self)
        ensures
            r.object_class@ == Seq::<char>::empty(),
            r.object_name@ == Seq::<char>::empty(),
            r.crumbs() == Seq::<(Seq<char>, EntryView)>::empty(),
            r.history.wf(),
            r.history.stack() == Seq::<EntryView>::empty(),
            r.history.pos() == 0,
            r.history.cap() == 64,
    {
        InspectorToolbar::new()
    }
}

/// Stepping back and then forward returns to the same entry, and stepping
/// forward and then back returns to the same place.
pub proof fn law_back_forward_round_trip(stack: Seq<EntryView>, pos: nat)
    requires
        pos <= stack.len(),
    ensures
        pos > 1 ==> pos_after_forward(stack.len(), pos_after_back(pos)) == pos
            && entry_at_cursor(stack, pos_after_forward(stack.len(), pos_after_back(pos))) == entry_at_cursor(stack, pos),
        1 <= pos < stack.len() ==> pos_after_back(pos_after_forward(stack.len(), pos)) == pos,
{
}

/// After a push the pushed entry is current, nothing lies ahead of it, and
/// the stack keeps to its bound.
pub proof fn law_push_makes_current(stack: Seq<EntryView>, pos: nat, e: EntryView, cap: nat)
    requires
        pos <= stack.len(),
        stack.len() <= cap,
        cap >= 1,
    ensures
        stack_after_push(stack, pos, e, cap).len() >= 1,
        stack_after_push(stack, pos, e, cap).len() <= cap,
        entry_at_cursor(stack_after_push(stack, pos, e, cap), stack_after_push(stack, pos, e, cap).len()) == Some(e),
        stack_after_push(stack, pos, e, cap).len() <= pos + 1,
{
}

} // verus!
