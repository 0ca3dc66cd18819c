//! The editor's selection: the ordered set of selected nodes shared by the
//! scene dock, the viewport and the inspector (the last one is the active
//! selection), click, ctrl-click and shift-click selection, and pinning the
//! inspector to one node while the selection moves on. The edited scene
//! tree is carried as the caller holds it.

use vstd::prelude::*;
use crate::inspector_history::NodeId;
use crate::text::{chars_of, decimal, lemma_decimal_injective, owned, push_decimal, str_eq, string_from_chars};
use vstd::set_lib::{lemma_int_range, lemma_len_subset, set_int_range};

verus! {

/// `k` is the first position of `x` in `s`.
pub open spec fn is_first_pos(s: Seq<NodeId>, x: NodeId, k: int) -> bool {
    &&& 0 <= k < s.len()
    &&& s[k] == x
    &&& forall|j: int| 0 <= j < k ==> s[j] != x
}

/// The first position of `x` in `s`, if it occurs.
pub open spec fn first_pos(s: Seq<NodeId>, x: NodeId) -> Option<int> {
    if exists|k: int| is_first_pos(s, x, k) {
        Some(choose|k: int| is_first_pos(s, x, k))
    } else {
        None
    }
}

/// The selection after shift-clicking `target` with `anchor` active: the
/// rows of `order` from the anchor to the target (so the target ends up
/// last), or just the target when either is not among the rows.
pub open spec fn range_selection(order: Seq<NodeId>, anchor: NodeId, target: NodeId) -> Seq<NodeId> {
    match (first_pos(order, anchor), first_pos(order, target)) {
        (Some(a), Some(t)) => if a <= t {
            order.subrange(a, t + 1)
        } else {
            order.subrange(t, a + 1).reverse()
        },
        _ => seq![target],
    }
}

/// `ids` with repeats dropped, keeping each first occurrence, in order.
pub open spec fn without_repeats(ids: Seq<NodeId>) -> Seq<NodeId>
    decreases ids.len(),
{
    if ids.len() == 0 {
        Seq::empty()
    } else {
        let r = without_repeats(ids.drop_last());
        if r.contains(ids.last()) {
            r
        } else {
            r.push(ids.last())
        }
    }
}

/// The first position of `x` in `s`, if it occurs.
fn position(s: &[NodeId], x: NodeId) -> (r: Option<usize>)
    ensures
        match r {
            Some(k) => is_first_pos(s@, x, k as int) && first_pos(s@, x) == Some(k as int),
            None => first_pos(s@, x) is None && !s@.contains(x),
        },
{
    let mut i: usize = 0;
    while i < s.len()
        invariant
            i <= s@.len(),
            forall|j: int| 0 <= j < i ==> s@[j] != x,
        decreases s@.len() - i,
    {
        if s[i] == x {
            proof {
                assert(is_first_pos(s@, x, i as int));
                let c = choose|k: int| is_first_pos(s@, x, k);
                if c < i {
                } else if c > i {
                    assert(s@[i as int] == x);
                }
            }
            return Some(i);
        }
        i += 1;
    }
    proof {
        if exists|k: int| is_first_pos(s@, x, k) {
            let k = choose|k: int| is_first_pos(s@, x, k);
            assert(s@[k] == x);
        }
    }
    None
}

/// The history after the change `done` is applied: it goes on top of the
/// undo history, and nothing is left to redo.
pub open spec fn executed<C>(h: (Seq<C>, Seq<C>), done: C) -> (Seq<C>, Seq<C>) {
    (h.0.push(done), Seq::empty())
}

/// The history after the change on top of the undo history is undone: it
/// moves to the top of the redo history.
pub open spec fn undone<C>(h: (Seq<C>, Seq<C>)) -> (Seq<C>, Seq<C>) {
    (h.0.drop_last(), h.1.push(h.0.last()))
}

/// The history after the change on top of the redo history is applied
/// again, as `done`: it goes back on top of the undo history.
pub open spec fn redone<C>(h: (Seq<C>, Seq<C>), done: C) -> (Seq<C>, Seq<C>) {
    (h.0.push(done), h.1.drop_last())
}

/// What an editor operation can fail with.
#[derive(Debug, Clone, PartialEq, Eq)]
pub enum EditorError {
    /// The scene refused the change; the message says why.
    Engine(String),
    /// No node is selected.
    NoSelection,
    /// The undo history is empty.
    NothingToUndo,
    /// The redo history is empty.
    NothingToRedo,
    /// The node has no attached script to open.
    NoScript,
    /// The node is not an instanced scene with a source to open.
    NotSceneInstance,
}

/// A reversible change to an edited scene tree `T`: it applies itself,
/// recording what undoing it needs, and reverses itself. Each operation takes
/// the tree and gives it back changed, with whether it succeeded (a failed
/// change may have changed the tree in part).
pub trait SceneCommand<T>: Sized {
    /// Applies the change to `tree`; gives back the command (now recording
    /// what undoing it needs), the tree and the outcome.
    fn execute(self, tree: T) -> (Self, T, Result<(), EditorError>);

    /// Reverses the change on `tree`; gives back the tree and the outcome.
    fn undo(&self, tree: T) -> (T, Result<(), EditorError>);

    /// The name the undo history shows for this change.
    fn label(&self) -> String;

    /// Whether this change continues `prev`, so that the two make one undo
    /// step (the same property of the same node set again).
    fn continues(&self, prev: &Self) -> bool;

    /// Applies this change to `tree` as the continuation of `prev`, keeping
    /// what `prev` recorded of the state before it; gives back the merged
    /// command, the tree and the outcome.
    fn absorb(self, prev: Self, tree: T) -> (Self, T, Result<(), EditorError>);

    /// One change made of `commands`, applied in order and undone in reverse,
    /// shown under `label`.
    fn group(label: String, commands: Vec<Self>) -> Self;
}

/// The editor's scene, selection and undo history.
#[derive(Debug)]
pub struct Editor<T, C> {
    tree: T,
    selection: Vec<NodeId>,
    inspector_pin: Option<NodeId>,
    undo_stack: Vec<C>,
    redo_stack: Vec<C>,
}

impl<T, C> Editor<T, C> {
    /// The applied changes, oldest first (the last one is undone next).
    pub closed spec fn undos(&self) -> Seq<C> {
        self.undo_stack@
    }

    /// The undone changes, oldest first (the last one is redone next).
    pub closed spec fn redos(&self) -> Seq<C> {
        self.redo_stack@
    }

    /// The undo and the redo history.
    pub open spec fn history(&self) -> (Seq<C>, Seq<C>) {
        (self.undos(), self.redos())
    }

    /// `self` and `other` hold the same undo history.
    pub open spec fn same_history(&self, other: &Self) -> bool {
        self.undos() == other.undos() && self.redos() == other.redos()
    }

    /// The edited scene tree.
    pub closed spec fn scene(&self) -> T {
        self.tree
    }

    /// The selected nodes, in selection order (the last one is active).
    pub closed spec fn chosen(&self) -> Seq<NodeId> {
        self.selection@
    }

    /// The node the inspector is pinned to, if any.
    pub closed spec fn pin(&self) -> Option<NodeId> {
        self.inspector_pin
    }

    /// The node the inspector shows: the pinned node, else the active
    /// selection.
    pub open spec fn shown(&self) -> Option<NodeId> {
        match self.pin() {
            Some(id) => Some(id),
            None => if self.chosen().len() > 0 { Some(self.chosen().last()) } else { None },
        }
    }

    /// An editor for `tree`, with nothing selected and the inspector not
    /// pinned.
    pub fn new(tree: T) -> (r: Self)
        ensures
            r.scene() == tree,
            r.chosen() == Seq::<NodeId>::empty(),
            r.pin() is None,
            r.undos() == Seq::<C>::empty(),
            r.redos() == Seq::<C>::empty(),
    {
        Editor { tree, selection: Vec::new(), inspector_pin: None, undo_stack: Vec::new(), redo_stack: Vec::new() }
    }

    /// The edited scene tree.
    pub fn tree(&self) -> (r: &T)
        ensures
            *r == self.scene(),
    {
        &self.tree
    }

    /// The edited scene tree, for changing it.
    pub fn tree_mut(&mut self) -> (r: &mut T)
        ensures
            *r == old(self).scene(),
            final(self).scene() == *final(r),
            final(self).chosen() == old(self).chosen(),
            final(self).pin() == old(self).pin(),
            final(self).same_history(old(self)),
    {
        &mut self.tree
    }

    /// Selects just `id` (a plain click).
    pub fn select_node(&mut self, id: NodeId)
        ensures
            final(self).chosen() == seq![id],
            final(self).pin() == old(self).pin(),
            final(self).scene() == old(self).scene(),
            final(self).same_history(old(self)),
    {
        self.selection = vec![id];
    }

    /// Clears the selection.
    pub fn deselect(&mut self)
        ensures
            final(self).chosen() == Seq::<NodeId>::empty(),
            final(self).pin() == old(self).pin(),
            final(self).scene() == old(self).scene(),
            final(self).same_history(old(self)),
    {
        self.selection.clear();
    }

    /// The active selection: the most recently selected node, if any.
    pub fn selected_node(&self) -> (r: Option<NodeId>)
        ensures
            r == if self.chosen().len() > 0 { Some(self.chosen().last()) } else { None::<NodeId> },
    {
        if self.selection.len() > 0 {
            Some(self.selection[self.selection.len() - 1])
        } else {
            None
        }
    }

    /// The selected nodes, in selection order.
    pub fn selected_nodes(&self) -> (r: &[NodeId])
        ensures
            r@ == self.chosen(),
    {
        self.selection.as_slice()
    }

    /// Whether `id` is selected.
    pub fn is_selected(&self, id: NodeId) -> (r: bool)
        ensures
            r == self.chosen().contains(id),
    {
        position(self.selection.as_slice(), id).is_some()
    }

    /// Selects `ids` in their order, each once (the first occurrence kept).
    pub fn select_nodes(&mut self, ids: &[NodeId])
        ensures
            final(self).chosen() == without_repeats(ids@),
            final(self).pin() == old(self).pin(),
            final(self).scene() == old(self).scene(),
            final(self).same_history(old(self)),
    {
        let mut next: Vec<NodeId> = Vec::new();
        let mut i: usize = 0;
        while i < ids.len()
            invariant
                i <= ids@.len(),
                next@ == without_repeats(ids@.take(i as int)),
            decreases ids@.len() - i,
        {
            let id = ids[i];
            assert(ids@.take(i + 1).drop_last() =~= ids@.take(i as int));
            if position(next.as_slice(), id).is_none() {
                next.push(id);
            }
            i += 1;
        }
        assert(ids@.take(ids@.len() as int) =~= ids@);
        self.selection = next;
    }

    /// Ctrl-click: removes `id` if selected, else appends it as the active
    /// selection. Returns whether it ends up selected.
    pub fn toggle_select(&mut self, id: NodeId) -> (r: bool)
        ensures
            r == !old(self).chosen().contains(id),
            final(self).chosen() == match first_pos(old(self).chosen(), id) {
                Some(k) => old(self).chosen().remove(k),
                None => old(self).chosen().push(id),
            },
            final(self).pin() == old(self).pin(),
            final(self).scene() == old(self).scene(),
            final(self).same_history(old(self)),
    {
        match position(self.selection.as_slice(), id) {
            Some(k) => {
                self.selection.remove(k);
                false
            },
            None => {
                self.selection.push(id);
                true
            },
        }
    }

    /// Shift-click: selects the rows of `order` from the active selection to
    /// `target`, `target` last; selects just `target` when nothing is
    /// selected or either end is not among the rows.
    pub fn select_range(&mut self, target: NodeId, order: &[NodeId])
        ensures
            final(self).chosen() == if old(self).chosen().len() == 0 {
                seq![target]
            } else {
                range_selection(order@, old(self).chosen().last(), target)
            },
            final(self).pin() == old(self).pin(),
            final(self).scene() == old(self).scene(),
            final(self).same_history(old(self)),
    {
        let anchor = match self.selected_node() {
            Some(a) => a,
            None => {
                self.select_node(target);
                return;
            },
        };
        let ai = position(order, anchor);
        let ti = position(order, target);
        match (ai, ti) {
            (Some(a), Some(t)) => {
                let (lo, hi) = if a <= t { (a, t) } else { (t, a) };
                let mut range: Vec<NodeId> = Vec::new();
                let mut i: usize = lo;
                while i <= hi
                    invariant
                        lo <= i <= hi + 1,
                        hi < order@.len(),
                        range@ == order@.subrange(lo as int, i as int),
                    decreases hi + 1 - i,
                {
                    range.push(order[i]);
                    i += 1;
                    assert(range@ =~= order@.subrange(lo as int, i as int));
                }
                if a > t {
                    let ghost fwd = range@;
                    let mut rev: Vec<NodeId> = Vec::new();
                    let mut j: usize = range.len();
                    while j > 0
                        invariant
                            j <= fwd.len(),
                            fwd == range@,
                            rev@ == fwd.reverse().take(fwd.len() - j),
                        decreases j,
                    {
                        j -= 1;
                        rev.push(range[j]);
                        assert(rev@ =~= fwd.reverse().take(fwd.len() - j));
                    }
                    assert(fwd.reverse().take(fwd.len() as int) =~= fwd.reverse());
                    range = rev;
                }
                self.selection = range;
            },
            _ => self.select_node(target),
        }
    }

    /// The node the inspector shows: the pinned node, else the active
    /// selection.
    pub fn inspected_node(&self) -> (r: Option<NodeId>)
        ensures
            r == self.shown(),
    {
        match self.inspector_pin {
            Some(id) => Some(id),
            None => self.selected_node(),
        }
    }

    /// Pins the inspector to the node it shows now (nothing is pinned when
    /// it shows nothing).
    pub fn pin_inspector(&mut self)
        ensures
            final(self).pin() == old(self).shown(),
            final(self).chosen() == old(self).chosen(),
            final(self).scene() == old(self).scene(),
            final(self).same_history(old(self)),
    {
        self.inspector_pin = self.inspected_node();
    }

    /// Unpins the inspector, which follows the selection again.
    pub fn unpin_inspector(&mut self)
        ensures
            final(self).pin() is None,
            final(self).chosen() == old(self).chosen(),
            final(self).scene() == old(self).scene(),
            final(self).same_history(old(self)),
    {
        self.inspector_pin = None;
    }

    /// Whether the inspector is pinned.
    pub fn is_inspector_pinned(&self) -> (r: bool)
        ensures
            r == (self.pin() is Some),
    {
        self.inspector_pin.is_some()
    }
}

/// `execute` took `e0` to `e1` with result `r`: the command's own
/// `execute` ran on `e0`'s scene and gave back `out`; `r` is its outcome,
/// `e1`'s scene its tree, and on success the command it gave back is the new
/// step to undo and nothing is left to redo, while on failure the history
/// stays.
pub open spec fn execute_step<T, C: SceneCommand<T>>(e0: Editor<T, C>, command: C, e1: Editor<T, C>, r: Result<(), EditorError>) -> bool {
    exists|out: (C, T, Result<(), EditorError>)| {
        &&& #[trigger] call_ensures(C::execute, (command, e0.scene()), out)
        &&& r == out.2
        &&& e1.scene() == out.1
        &&& out.2 is Ok ==> e1.history() == executed(e0.history(), out.0)
        &&& out.2 is Err ==> e1.history() == e0.history()
    }
}

/// `undo` took `e0` to `e1` with result `r`: the last change's own `undo`
/// ran on `e0`'s scene and gave back `out`; `r` is its outcome, `e1`'s scene
/// its tree, the change left the undo history, and it went to the redo
/// history on success.
pub open spec fn undo_step<T, C: SceneCommand<T>>(e0: Editor<T, C>, e1: Editor<T, C>, r: Result<(), EditorError>) -> bool {
    exists|out: (T, Result<(), EditorError>)| {
        &&& #[trigger] call_ensures(C::undo, (&e0.undos().last(), e0.scene()), out)
        &&& r == out.1
        &&& e1.scene() == out.0
        &&& out.1 is Ok ==> e1.history() == undone(e0.history())
        &&& out.1 is Err ==> e1.undos() == e0.undos().drop_last() && e1.redos() == e0.redos()
    }
}

/// `redo` took `e0` to `e1` with result `r`: the last undone change's own
/// `execute` ran on `e0`'s scene and gave back `out`; `r` is its outcome,
/// `e1`'s scene its tree, the change left the redo history, and what it gave
/// back went on the undo history on success.
pub open spec fn redo_step<T, C: SceneCommand<T>>(e0: Editor<T, C>, e1: Editor<T, C>, r: Result<(), EditorError>) -> bool {
    exists|out: (C, T, Result<(), EditorError>)| {
        &&& #[trigger] call_ensures(C::execute, (e0.redos().last(), e0.scene()), out)
        &&& r == out.2
        &&& e1.scene() == out.1
        &&& out.2 is Ok ==> e1.history() == redone(e0.history(), out.0)
        &&& out.2 is Err ==> e1.undos() == e0.undos() && e1.redos() == e0.redos().drop_last()
    }
}

/// `merge_into_last` took `e0` to `e1` with result `r`: the command's own
/// `absorb` of the last change ran on `e0`'s scene and gave back `out`; `r`
/// is its outcome, `e1`'s scene its tree, the last change left the undo
/// history, and on success the merged command took its place and nothing is
/// left to redo.
pub open spec fn merge_step<T, C: SceneCommand<T>>(e0: Editor<T, C>, command: C, e1: Editor<T, C>, r: Result<(), EditorError>) -> bool {
    exists|out: (C, T, Result<(), EditorError>)| {
        &&& #[trigger] call_ensures(C::absorb, (command, e0.undos().last(), e0.scene()), out)
        &&& r == out.2
        &&& e1.scene() == out.1
        &&& out.2 is Ok ==> e1.undos() == e0.undos().drop_last().push(out.0) && e1.redos() == Seq::<C>::empty()
        &&& out.2 is Err ==> e1.undos() == e0.undos().drop_last() && e1.redos() == e0.redos()
    }
}

impl<T: Default, C: SceneCommand<T>> Editor<T, C> {
    /// Takes the tree out for a command to work on, leaving a placeholder.
    fn take_tree(&mut self) -> (t: T)
        ensures
            t == old(self).scene(),
            final(self).chosen() == old(self).chosen(),
            final(self).pin() == old(self).pin(),
            final(self).same_history(old(self)),
    {
        let mut t = T::default();
        std::mem::swap(&mut t, &mut self.tree);
        t
    }

    /// Applies `command` to the scene through its own `execute` and, when it
    /// succeeds, records what it gave back as the step to undo next; a new
    /// change clears what could be redone. The scene becomes the tree the
    /// command gave back; a failed command is dropped and the history stays.
    pub fn execute(&mut self, command: C) -> (r: Result<(), EditorError>)
        ensures
            execute_step(*old(self), command, *final(self), r),
            final(self).chosen() == old(self).chosen(),
            final(self).pin() == old(self).pin(),
    {
        let ghost e0 = *self;
        let tree = self.take_tree();
        let out = command.execute(tree);
        let ghost gout = out;
        let (done, tree, res) = out;
        self.tree = tree;
        if res.is_ok() {
            self.undo_stack.push(done);
            self.redo_stack.clear();
        }
        assert(call_ensures(C::execute, (command, e0.scene()), gout));
        res
    }

    /// Reverses the most recent change through its own `undo` on the scene
    /// and, when that succeeds, moves it to the redo history; a change whose
    /// undo fails is dropped. The scene becomes the tree the undo gave back.
    pub fn undo(&mut self) -> (r: Result<(), EditorError>)
        ensures
            old(self).undos().len() == 0 ==> {
                &&& r == Err::<(), EditorError>(EditorError::NothingToUndo)
                &&& final(self).same_history(old(self))
                &&& final(self).scene() == old(self).scene()
            },
            old(self).undos().len() > 0 ==> undo_step(*old(self), *final(self), r),
            final(self).chosen() == old(self).chosen(),
            final(self).pin() == old(self).pin(),
    {
        let ghost e0 = *self;
        match self.undo_stack.pop() {
            None => Err(EditorError::NothingToUndo),
            Some(command) => {
                let tree = self.take_tree();
                let out = command.undo(tree);
                let ghost gout = out;
                let (tree, res) = out;
                self.tree = tree;
                if res.is_ok() {
                    self.redo_stack.push(command);
                }
                assert(call_ensures(C::undo, (&e0.undos().last(), e0.scene()), gout));
                res
            },
        }
    }

    /// Applies the most recently undone change again through its own
    /// `execute` and, when that succeeds, records what it gave back as the
    /// step to undo next; a change that fails is dropped. The scene becomes
    /// the tree the command gave back.
    pub fn redo(&mut self) -> (r: Result<(), EditorError>)
        ensures
            old(self).redos().len() == 0 ==> {
                &&& r == Err::<(), EditorError>(EditorError::NothingToRedo)
                &&& final(self).same_history(old(self))
                &&& final(self).scene() == old(self).scene()
            },
            old(self).redos().len() > 0 ==> redo_step(*old(self), *final(self), r),
            final(self).chosen() == old(self).chosen(),
            final(self).pin() == old(self).pin(),
    {
        let ghost e0 = *self;
        match self.redo_stack.pop() {
            None => Err(EditorError::NothingToRedo),
            Some(command) => {
                let tree = self.take_tree();
                let out = command.execute(tree);
                let ghost gout = out;
                let (done, tree, res) = out;
                self.tree = tree;
                if res.is_ok() {
                    self.undo_stack.push(done);
                }
                assert(call_ensures(C::execute, (e0.redos().last(), e0.scene()), gout));
                res
            },
        }
    }

    /// The number of changes that can be undone.
    pub fn undo_depth(&self) -> (r: usize)
        ensures
            r == self.undos().len(),
    {
        self.undo_stack.len()
    }

    /// The number of changes that can be redone.
    pub fn redo_depth(&self) -> (r: usize)
        ensures
            r == self.redos().len(),
    {
        self.redo_stack.len()
    }

    /// The change that would be undone next.
    pub fn undo_stack_last(&self) -> (r: Option<&C>)
        ensures
            r == if self.undos().len() > 0 { Some(&self.undos().last()) } else { None::<&C> },
    {
        if self.undo_stack.len() > 0 {
            Some(&self.undo_stack[self.undo_stack.len() - 1])
        } else {
            None
        }
    }

    /// Whether there is a change to undo.
    pub fn can_undo(&self) -> (r: bool)
        ensures
            r == (self.undos().len() > 0),
    {
        self.undo_stack.len() > 0
    }

    /// Whether there is a change to redo.
    pub fn can_redo(&self) -> (r: bool)
        ensures
            r == (self.redos().len() > 0),
    {
        self.redo_stack.len() > 0
    }

    /// Forgets both the undo and the redo history.
    pub fn clear_history(&mut self)
        ensures
            final(self).undos() == Seq::<C>::empty(),
            final(self).redos() == Seq::<C>::empty(),
            final(self).scene() == old(self).scene(),
            final(self).chosen() == old(self).chosen(),
            final(self).pin() == old(self).pin(),
    {
        self.undo_stack.clear();
        self.redo_stack.clear();
    }

    /// The labels of the changes that can be undone, most recent first.
    pub fn undo_history(&self) -> (r: Vec<String>)
        ensures
            r@.len() == self.undos().len(),
    {
        labels_most_recent_first(self.undo_stack.as_slice())
    }

    /// The labels of the changes that can be redone, most recent first.
    pub fn redo_history(&self) -> (r: Vec<String>)
        ensures
            r@.len() == self.redos().len(),
    {
        labels_most_recent_first(self.redo_stack.as_slice())
    }

    /// Undoes up to `count` changes, stopping at the first that fails or
    /// when none is left; returns how many were undone. The undone changes
    /// move to the redo history in the order they were undone; one that
    /// failed is dropped.
    pub fn undo_many(&mut self, count: usize) -> (r: usize)
        ensures
            r <= count,
            r <= old(self).undos().len(),
            final(self).undos() == old(self).undos().take(
                old(self).undos().len() - r - (if r < count && r < old(self).undos().len() { 1int } else { 0int }),
            ),
            final(self).redos() == old(self).redos() + old(self).undos().subrange(
                old(self).undos().len() - r,
                old(self).undos().len() as int,
            ).reverse(),
            final(self).chosen() == old(self).chosen(),
            final(self).pin() == old(self).pin(),
    {
        let ghost u0 = self.undos();
        let ghost r0 = self.redos();
        let mut undone: usize = 0;
        let mut i: usize = 0;
        while i < count
            invariant_except_break
                undone == i,
                i <= count,
                undone <= u0.len(),
                self.undos() == u0.take(u0.len() - undone),
                self.redos() == r0 + u0.subrange(u0.len() - undone, u0.len() as int).reverse(),
                self.chosen() == old(self).chosen(),
                self.pin() == old(self).pin(),
            ensures
                undone <= count,
                undone <= u0.len(),
                self.undos() == u0.take(
                    u0.len() - undone - (if undone < count && undone < u0.len() { 1int } else { 0int }),
                ),
                self.redos() == r0 + u0.subrange(u0.len() - undone, u0.len() as int).reverse(),
                self.chosen() == old(self).chosen(),
                self.pin() == old(self).pin(),
            decreases count - i,
        {
            let ghost before = self.undos();
            if self.undo().is_ok() {
                proof {
                    let k = u0.len() - undone;
                    assert(u0.take(k).drop_last() =~= u0.take(k - 1));
                    assert(before.last() == u0[k - 1]);
                    assert(r0 + u0.subrange(k - 1, u0.len() as int).reverse() =~= (r0 + u0.subrange(
                        k,
                        u0.len() as int,
                    ).reverse()).push(u0[k - 1]));
                }
                undone += 1;
                i += 1;
            } else {
                proof {
                    if before.len() > 0 {
                        let k = u0.len() - undone;
                        assert(u0.take(k).drop_last() =~= u0.take(k - 1));
                    }
                }
                break;
            }
        }
        undone
    }

    /// Redoes up to `count` changes, stopping at the first that fails or
    /// when none is left; returns how many were redone. The redone changes
    /// go back on the undo history; one that failed is dropped.
    pub fn redo_many(&mut self, count: usize) -> (r: usize)
        ensures
            r <= count,
            r <= old(self).redos().len(),
            final(self).redos() == old(self).redos().take(
                old(self).redos().len() - r - (if r < count && r < old(self).redos().len() { 1int } else { 0int }),
            ),
            final(self).undos().len() == old(self).undos().len() + r,
            final(self).undos().take(old(self).undos().len() as int) == old(self).undos(),
            final(self).chosen() == old(self).chosen(),
            final(self).pin() == old(self).pin(),
    {
        let ghost u0 = self.undos();
        let ghost r0 = self.redos();
        let mut redone: usize = 0;
        let mut i: usize = 0;
        while i < count
            invariant_except_break
                redone == i,
                i <= count,
                redone <= r0.len(),
                self.redos() == r0.take(r0.len() - redone),
                self.undos().len() == u0.len() + redone,
                self.undos().take(u0.len() as int) == u0,
                self.chosen() == old(self).chosen(),
                self.pin() == old(self).pin(),
            ensures
                redone <= count,
                redone <= r0.len(),
                self.redos() == r0.take(
                    r0.len() - redone - (if redone < count && redone < r0.len() { 1int } else { 0int }),
                ),
                self.undos().len() == u0.len() + redone,
                self.undos().take(u0.len() as int) == u0,
                self.chosen() == old(self).chosen(),
                self.pin() == old(self).pin(),
            decreases count - i,
        {
            let ghost before_r = self.redos();
            let ghost before_u = self.undos();
            if self.redo().is_ok() {
                proof {
                    let k = r0.len() - redone;
                    assert(r0.take(k).drop_last() =~= r0.take(k - 1));
                    assert(self.undos().take(u0.len() as int) =~= before_u.take(u0.len() as int));
                }
                redone += 1;
                i += 1;
            } else {
                proof {
                    if before_r.len() > 0 {
                        let k = r0.len() - redone;
                        assert(r0.take(k).drop_last() =~= r0.take(k - 1));
                    }
                }
                break;
            }
        }
        redone
    }

    /// Applies `command` through its own `absorb` as the continuation of
    /// the change that would be undone next, so that the two make one undo
    /// step: that change leaves the history, and on success the merged
    /// command takes its place and the redo history is cleared. The scene
    /// becomes the tree `absorb` gave back.
    pub fn merge_into_last(&mut self, command: C) -> (r: Result<(), EditorError>)
        requires
            old(self).undos().len() > 0,
        ensures
            merge_step(*old(self), command, *final(self), r),
            final(self).chosen() == old(self).chosen(),
            final(self).pin() == old(self).pin(),
    {
        let ghost e0 = *self;
        let prev = self.undo_stack.pop().unwrap();
        let tree = self.take_tree();
        let out = command.absorb(prev, tree);
        let ghost gout = out;
        let (merged, tree, res) = out;
        self.tree = tree;
        if res.is_ok() {
            self.undo_stack.push(merged);
            self.redo_stack.clear();
        }
        assert(call_ensures(C::absorb, (command, e0.undos().last(), e0.scene()), gout));
        res
    }

    /// Applies `command`, merged into the change that would be undone next
    /// when `continues_last` (the command continues that change) and there is
    /// such a change, so that the two make one undo step; otherwise applies
    /// it as `execute` does.
    pub fn merge_or_execute_with(&mut self, command: C, continues_last: bool) -> (r: Result<(), EditorError>)
        ensures
            continues_last && old(self).undos().len() > 0 ==> merge_step(*old(self), command, *final(self), r),
            !(continues_last && old(self).undos().len() > 0) ==> execute_step(*old(self), command, *final(self), r),
            final(self).chosen() == old(self).chosen(),
            final(self).pin() == old(self).pin(),
    {
        if continues_last && self.undo_stack.len() > 0 {
            self.merge_into_last(command)
        } else {
            self.execute(command)
        }
    }

    /// Applies `command`, merging it into the change that would be undone
    /// next when it continues that change (the same property of the same
    /// node set again, as the command's `continues` says), so that dragging
    /// a slider makes one undo step; otherwise applies it as `execute` does.
    pub fn merge_or_execute(&mut self, command: C) -> (r: Result<(), EditorError>)
        ensures
            old(self).undos().len() == 0 ==> execute_step(*old(self), command, *final(self), r),
            old(self).undos().len() > 0 ==> exists|b: bool|
                #[trigger] call_ensures(C::continues, (&command, &old(self).undos().last()), b)
                    && (b ==> merge_step(*old(self), command, *final(self), r))
                    && (!b ==> execute_step(*old(self), command, *final(self), r)),
            final(self).chosen() == old(self).chosen(),
            final(self).pin() == old(self).pin(),
    {
        let merge = match self.undo_stack.last() {
            Some(prev) => command.continues(prev),
            None => false,
        };
        self.merge_or_execute_with(command, merge)
    }

    /// Applies `commands` as one undo step shown under `label`: the
    /// command's own `group` makes one change of them, which is applied as
    /// `execute` does.
    pub fn execute_group(&mut self, label: &str, commands: Vec<C>) -> (r: Result<(), EditorError>)
        ensures
            exists|l: String, g: C| {
                &&& l@ == label@
                &&& #[trigger] call_ensures(C::group, (l, commands), g)
                &&& execute_step(*old(self), g, *final(self), r)
            },
            final(self).chosen() == old(self).chosen(),
            final(self).pin() == old(self).pin(),
    {
        let l = owned(label);
        let ghost gl = l;
        let group = C::group(l, commands);
        assert(call_ensures(C::group, (gl, commands), group));
        self.execute(group)
    }
}

/// The labels of `stack`, from its last entry to its first.
fn labels_most_recent_first<T, C: SceneCommand<T>>(stack: &[C]) -> (r: Vec<String>)
    ensures
        r@.len() == stack@.len(),
{
    let mut out: Vec<String> = Vec::new();
    let mut j: usize = stack.len();
    while j > 0
        invariant
            j <= stack@.len(),
            out@.len() == stack@.len() - j,
        decreases j,
    {
        j -= 1;
        out.push(stack[j].label());
    }
    out
}

/// Undoing right after a successful `execute` runs the command's own `undo`
/// on exactly what its `execute` gave back: the recorded command and the
/// scene it left. The scene after the undo is what that `undo` returns.
pub proof fn law_undo_follows_execute<T, C: SceneCommand<T>>(
    e0: Editor<T, C>,
    command: C,
    e1: Editor<T, C>,
    r1: Result<(), EditorError>,
    e2: Editor<T, C>,
    r2: Result<(), EditorError>,
)
    requires
        execute_step(e0, command, e1, r1),
        r1 is Ok,
        undo_step(e1, e2, r2),
    ensures
        exists|out: (C, T, Result<(), EditorError>), back: (T, Result<(), EditorError>)| {
            &&& #[trigger] call_ensures(C::execute, (command, e0.scene()), out)
            &&& out.2 is Ok
            &&& #[trigger] call_ensures(C::undo, (&out.0, out.1), back)
            &&& r2 == back.1
            &&& e2.scene() == back.0
        },
{
    let out = choose|out: (C, T, Result<(), EditorError>)| {
        &&& #[trigger] call_ensures(C::execute, (command, e0.scene()), out)
        &&& r1 == out.2
        &&& e1.scene() == out.1
        &&& out.2 is Ok ==> e1.history() == executed(e0.history(), out.0)
        &&& out.2 is Err ==> e1.history() == e0.history()
    };
    let back = choose|back: (T, Result<(), EditorError>)| {
        &&& #[trigger] call_ensures(C::undo, (&e1.undos().last(), e1.scene()), back)
        &&& r2 == back.1
        &&& e2.scene() == back.0
        &&& back.1 is Ok ==> e2.history() == undone(e1.history())
        &&& back.1 is Err ==> e2.undos() == e1.undos().drop_last() && e2.redos() == e1.redos()
    };
    assert(e1.undos().last() == out.0);
    assert(call_ensures(C::undo, (&out.0, out.1), back));
}

/// Undoing right after a successful `execute` hands the command's own
/// `undo` exactly what its `execute` gave back: the recorded command and the
/// scene it left. So when the command's undo reverses its execute, the
/// scene is back as it was before the execute; and the undo history is back
/// as it was, with the change alone on the redo history.
pub proof fn law_undo_restores_scene<T, C: SceneCommand<T>>(
    e0: Editor<T, C>,
    command: C,
    e1: Editor<T, C>,
    r1: Result<(), EditorError>,
    e2: Editor<T, C>,
    r2: Result<(), EditorError>,
)
    requires
        execute_step(e0, command, e1, r1),
        r1 is Ok,
        undo_step(e1, e2, r2),
        r2 is Ok,
        forall|out: (C, T, Result<(), EditorError>), back: (T, Result<(), EditorError>)|
            #![trigger call_ensures(C::execute, (command, e0.scene()), out), call_ensures(C::undo, (&out.0, out.1), back)]
            call_ensures(C::execute, (command, e0.scene()), out) && out.2 is Ok && call_ensures(C::undo, (&out.0, out.1), back)
                && back.1 is Ok ==> back.0 == e0.scene(),
    ensures
        e2.scene() == e0.scene(),
        e2.undos() == e0.undos(),
        e2.redos().len() == 1,
{
    let out = choose|out: (C, T, Result<(), EditorError>)| {
        &&& #[trigger] call_ensures(C::execute, (command, e0.scene()), out)
        &&& r1 == out.2
        &&& e1.scene() == out.1
        &&& out.2 is Ok ==> e1.history() == executed(e0.history(), out.0)
        &&& out.2 is Err ==> e1.history() == e0.history()
    };
    let back = choose|back: (T, Result<(), EditorError>)| {
        &&& #[trigger] call_ensures(C::undo, (&e1.undos().last(), e1.scene()), back)
        &&& r2 == back.1
        &&& e2.scene() == back.0
        &&& back.1 is Ok ==> e2.history() == undone(e1.history())
        &&& back.1 is Err ==> e2.undos() == e1.undos().drop_last() && e2.redos() == e1.redos()
    };
    assert(e1.undos().last() == out.0);
    assert(e1.undos().drop_last() =~= e0.undos());
}

/// Undoing a change just applied gives back the undo history as it was
/// before, with that change as the one to redo.
pub proof fn law_undo_reverses_execute<C>(h: (Seq<C>, Seq<C>), done: C)
    ensures
        undone(executed(h, done)) == (h.0, seq![done]),
{
    assert(h.0.push(done).drop_last() =~= h.0);
    assert(Seq::<C>::empty().push(done) =~= seq![done]);
}

/// Redoing a change just undone, when applying it again records the same,
/// gives back the history as it was before the undo.
pub proof fn law_redo_reverses_undo<C>(h: (Seq<C>, Seq<C>))
    requires
        h.0.len() > 0,
    ensures
        redone(undone(h), h.0.last()) == h,
{
    assert(h.0.drop_last().push(h.0.last()) =~= h.0);
    assert(h.1.push(h.0.last()).drop_last() =~= h.1);
}

/// Undoing and redoing move changes between the two histories and lose
/// none: the total count stays the same.
pub proof fn law_undo_redo_keep_count<C>(h: (Seq<C>, Seq<C>), done: C)
    requires
        h.0.len() > 0,
        h.1.len() > 0,
    ensures
        undone(h).0.len() + undone(h).1.len() == h.0.len() + h.1.len(),
        redone(h, done).0.len() + redone(h, done).1.len() == h.0.len() + h.1.len(),
{
}

/// `s` without its trailing ASCII digits.
pub open spec fn without_trailing_digits(s: Seq<char>) -> Seq<char>
    decreases s.len(),
{
    if s.len() > 0 && '0' <= s.last() && s.last() <= '9' {
        without_trailing_digits(s.drop_last())
    } else {
        s
    }
}

/// What a name's numbered variants are built on: the name without its
/// trailing digits, or the whole name when that leaves nothing.
pub open spec fn name_stem(base: Seq<char>) -> Seq<char> {
    if without_trailing_digits(base).len() == 0 {
        base
    } else {
        without_trailing_digits(base)
    }
}

/// The name `stem` numbered `n`.
pub open spec fn numbered(stem: Seq<char>, n: nat) -> Seq<char> {
    stem + decimal(n)
}

/// `n` is the smallest number from 2 on that numbers `stem` into a name
/// none of `names` has.
pub open spec fn first_free_suffix(names: Seq<Seq<char>>, stem: Seq<char>, n: nat) -> bool {
    &&& n >= 2
    &&& !names.contains(numbered(stem, n))
    &&& forall|j: nat| 2 <= j < n ==> names.contains(#[trigger] numbered(stem, j))
}

/// A name for a duplicate of `base` that none of `names` has: `base` itself
/// when free, else its stem numbered with the first free number from 2 on.
pub open spec fn unique_name(base: Seq<char>, names: Seq<Seq<char>>) -> Seq<char> {
    if !names.contains(base) {
        base
    } else {
        numbered(name_stem(base), choose|n: nat| first_free_suffix(names, name_stem(base), n))
    }
}

/// Among the numbered names `stem 2` .. `stem (m - 1)`, all taken by
/// `names`, there are at most as many as there are names.
proof fn lemma_taken_numbers_bound(names: Seq<Seq<char>>, stem: Seq<char>, m: int)
    requires
        m >= 2,
        forall|j: nat| 2 <= j < m ==> names.contains(#[trigger] numbered(stem, j)),
    ensures
        m - 2 <= names.len(),
{
    let x = set_int_range(2, m);
    let f = |j: int| numbered(stem, j as nat);
    let y = x.map(f);
    lemma_int_range(2, m);
    assert forall|a: int, b: int| x.contains(a) && x.contains(b) && #[trigger] f(a) == #[trigger] f(b) implies a == b by {
        let k = stem.len() as int;
        assert(numbered(stem, a as nat).subrange(k, numbered(stem, a as nat).len() as int) =~= decimal(a as nat));
        assert(numbered(stem, b as nat).subrange(k, numbered(stem, b as nat).len() as int) =~= decimal(b as nat));
        lemma_decimal_injective(a as nat, b as nat);
    }
    vstd::set_lib::lemma_map_size(x, y, f);
    assert forall|t: Seq<char>| y.contains(t) implies names.to_set().contains(t) by {
        let j = choose|j: int| x.contains(j) && f(j) == t;
        assert(names.contains(numbered(stem, j as nat)));
    }
    names.lemma_cardinality_of_set();
    lemma_len_subset(y, names.to_set());
}

/// Whether some name of `names` is `name`.
fn name_taken(names: &[String], name: &str) -> (r: bool)
    ensures
        r == names@.map_values(|s: String| s@).contains(name@),
{
    let ghost views = names@.map_values(|s: String| s@);
    let mut i: usize = 0;
    while i < names.len()
        invariant
            views == names@.map_values(|s: String| s@),
            i <= names@.len(),
            forall|j: int| 0 <= j < i ==> views[j] != name@,
        decreases names@.len() - i,
    {
        if str_eq(names[i].as_str(), name) {
            assert(views[i as int] == name@);
            return true;
        }
        i += 1;
    }
    false
}

/// A name for a duplicate of the node named `base` that none of its
/// siblings (`siblings`) has: `base` when free, otherwise `base` without its
/// trailing digits (or `base` itself when it is all digits) followed by the
/// first free number from 2 on, so that `Enemy2` duplicated beside `Enemy2`
/// becomes `Enemy3`.
pub fn unique_sibling_name(base: &str, siblings: &[String]) -> (r: String)
    requires
        siblings@.len() + 3 <= u64::MAX,
    ensures
        r@ == unique_name(base@, siblings@.map_values(|s: String| s@)),
{
    let ghost names = siblings@.map_values(|s: String| s@);
    if !name_taken(siblings, base) {
        return owned(base);
    }
    let cs = chars_of(base);
    let mut end: usize = cs.len();
    assert(cs@.take(end as int) =~= base@);
    while end > 0 && '0' <= cs[end - 1] && cs[end - 1] <= '9'
        invariant
            cs@ == base@,
            end <= cs@.len(),
            without_trailing_digits(cs@.take(end as int)) == without_trailing_digits(base@),
        decreases end,
    {
        assert(cs@.take(end - 1) =~= cs@.take(end as int).drop_last());
        end -= 1;
    }
    assert(without_trailing_digits(cs@.take(end as int)) == cs@.take(end as int));
    let stem = if end == 0 {
        owned(base)
    } else {
        string_from_chars(crate::paths::slice_chars(cs.as_slice(), 0, end).as_slice())
    };
    assert(stem@ == name_stem(base@));
    let n = siblings.len() as u64;
    let mut i: u64 = 2;
    loop
        invariant
            names == siblings@.map_values(|s: String| s@),
            names.contains(base@),
            stem@ == name_stem(base@),
            n == names.len(),
            n + 3 <= u64::MAX,
            2 <= i,
            forall|j: nat| 2 <= j < i ==> names.contains(#[trigger] numbered(stem@, j)),
        decreases n + 3 - i,
    {
        proof {
            lemma_taken_numbers_bound(names, stem@, i as int);
        }
        let mut candidate = owned(stem.as_str());
        push_decimal(&mut candidate, i);
        if !name_taken(siblings, candidate.as_str()) {
            proof {
                assert(first_free_suffix(names, stem@, i as nat));
                let c = choose|c: nat| first_free_suffix(names, stem@, c);
                if c < i {
                    assert(names.contains(numbered(stem@, c)));
                } else if c > i {
                    assert(names.contains(numbered(stem@, i as nat)));
                }
            }
            return candidate;
        }
        proof {
            lemma_taken_numbers_bound(names, stem@, i + 1);
        }
        i += 1;
    }
}

/// Ctrl-clicking a node that is not selected twice leaves the selection as
/// it was.
pub proof fn law_toggle_twice_restores(sel: Seq<NodeId>, id: NodeId)
    requires
        !sel.contains(id),
    ensures
        first_pos(sel, id) is None,
        first_pos(sel.push(id), id) == Some(sel.len() as int),
        sel.push(id).remove(sel.len() as int) == sel,
{
    if exists|k: int| is_first_pos(sel, id, k) {
        let k = choose|k: int| is_first_pos(sel, id, k);
        assert(sel[k] == id);
    }
    let s2 = sel.push(id);
    assert(is_first_pos(s2, id, sel.len() as int));
    let c = choose|k: int| is_first_pos(s2, id, k);
    if c < sel.len() {
        assert(sel[c] == id);
    }
    assert(s2.remove(sel.len() as int) =~= sel);
}

/// A shift-click range starts at the anchor and ends at the target, so the
/// target becomes the active selection.
pub proof fn law_range_ends_at_target(order: Seq<NodeId>, anchor: NodeId, target: NodeId)
    ensures
        range_selection(order, anchor, target).len() > 0,
        range_selection(order, anchor, target).last() == target,
        (first_pos(order, anchor) is Some && first_pos(order, target) is Some)
            ==> range_selection(order, anchor, target)[0] == anchor,
{
    match (first_pos(order, anchor), first_pos(order, target)) {
        (Some(a), Some(t)) => {
            let ka = choose|k: int| is_first_pos(order, anchor, k);
            let kt = choose|k: int| is_first_pos(order, target, k);
            assert(is_first_pos(order, anchor, ka));
            assert(is_first_pos(order, target, kt));
            if a <= t {
                assert(order.subrange(a, t + 1)[t - a] == order[t]);
            } else {
                let f = order.subrange(t, a + 1);
                assert(f.reverse()[f.len() - 1] == f[0]);
                assert(f.reverse()[0] == f[f.len() - 1]);
            }
        },
        _ => {},
    }
}

/// Selecting a list keeps no node twice.
pub proof fn law_select_nodes_no_repeats(ids: Seq<NodeId>)
    ensures
        without_repeats(ids).no_duplicates(),
        forall|x: NodeId| #[trigger] without_repeats(ids).contains(x) <==> ids.contains(x),
    decreases ids.len(),
{
    if ids.len() > 0 {
        let init = ids.drop_last();
        law_select_nodes_no_repeats(init);
        let r = without_repeats(init);
        let x = ids.last();
        assert forall|y: NodeId| #[trigger] without_repeats(ids).contains(y) <==> ids.contains(y) by {
            vstd::seq_lib::lemma_seq_contains_after_push(r, x, y);
            vstd::seq_lib::lemma_seq_contains_after_push(init, x, y);
            assert(init.push(x) =~= ids);
        }
        if !r.contains(x) {
            let w = r.push(x);
            assert forall|a: int, b: int| 0 <= a < w.len() && 0 <= b < w.len() && a != b implies w[a] != w[b] by {
                if a < r.len() && b < r.len() {
                } else if a == r.len() {
                    assert(r.contains(w[b]));
                } else {
                    assert(r.contains(w[a]));
                }
            }
        }
    }
}

} // verus!
