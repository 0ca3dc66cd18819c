//! The project's Input Map: named actions, each with an analog deadzone and
//! the input events bound to it, kept in name order; which actions an event
//! triggers; and the projection to and from the editor's runtime table of
//! action names to key names.

use vstd::prelude::*;
use crate::paths::{path_lt, path_less, lemma_path_lt_asym, lemma_path_lt_trans, lemma_path_lt_total};
use crate::text::{chars_of, owned, str_eq};

verus! {

broadcast use vstd::string::group_string_axioms;

/// An input event that can be bound to an action.
#[derive(Debug, Clone, PartialEq, Eq)]
pub enum InputEvent {
    /// A keyboard key, by keycode name (such as `"Space"`).
    Key(String),
    /// A mouse button, by index.
    MouseButton(u32),
    /// A joypad button, by index.
    JoyButton(u32),
}

/// An input event as plain values.
pub enum EventView {
    /// A keyboard key, by keycode name.
    Key(Seq<char>),
    /// A mouse button, by index.
    MouseButton(u32),
    /// A joypad button, by index.
    JoyButton(u32),
}

impl View for InputEvent {
    type V = EventView;

    open spec fn view(&self) -> EventView {
        match self {
            InputEvent::Key(k) => EventView::Key(k@),
            InputEvent::MouseButton(b) => EventView::MouseButton(*b),
            InputEvent::JoyButton(b) => EventView::JoyButton(*b),
        }
    }
}

impl InputEvent {
    /// A copy of this event.
    pub fn duplicate(&self) -> (r: Self)
        ensures
            r@ == self@,
    {
        match self {
            InputEvent::Key(k) => InputEvent::Key(k.clone()),
            InputEvent::MouseButton(b) => InputEvent::MouseButton(*b),
            InputEvent::JoyButton(b) => InputEvent::JoyButton(*b),
        }
    }

    /// Whether two events are the same event.
    pub fn same_as(&self, other: &Self) -> (r: bool)
        ensures
            r == (self@ == other@),
    {
        match (self, other) {
            (InputEvent::Key(a), InputEvent::Key(b)) => str_eq(a.as_str(), b.as_str()),
            (InputEvent::MouseButton(a), InputEvent::MouseButton(b)) => *a == *b,
            (InputEvent::JoyButton(a), InputEvent::JoyButton(b)) => *a == *b,
            _ => false,
        }
    }
}

/// The views of a sequence of events.
pub open spec fn event_views(s: Seq<InputEvent>) -> Seq<EventView> {
    s.map_values(|e: InputEvent| e@)
}

/// A single input action: its deadzone and the events bound to it. The
/// deadzone is carried as the caller represents it.
#[derive(Debug, Clone, PartialEq)]
pub struct Action<D> {
    /// The analog deadzone.
    pub deadzone: D,
    /// The events bound to the action, in the order they were bound.
    pub events: Vec<InputEvent>,
}

/// An action as plain values: its deadzone and its events.
pub open spec fn action_view<D>(a: Action<D>) -> (D, Seq<EventView>) {
    (a.deadzone, event_views(a.events@))
}

/// The rows of an input map as plain values: each action name with its
/// deadzone and events.
pub open spec fn row_views<D>(s: Seq<(String, Action<D>)>) -> Seq<(Seq<char>, (D, Seq<EventView>))> {
    s.map_values(|r: (String, Action<D>)| (r.0@, action_view(r.1)))
}

/// The names of a sequence of rows.
pub open spec fn row_names<D>(s: Seq<(Seq<char>, (D, Seq<EventView>))>) -> Seq<Seq<char>> {
    s.map_values(|r: (Seq<char>, (D, Seq<EventView>))| r.0)
}

/// The map from action names to actions that a sequence of rows describes.
pub open spec fn rows_map<D>(rows: Seq<(Seq<char>, (D, Seq<EventView>))>) -> Map<Seq<char>, (D, Seq<EventView>)>
    decreases rows.len(),
{
    if rows.len() == 0 {
        Map::empty()
    } else {
        rows_map(rows.drop_last()).insert(rows.last().0, rows.last().1)
    }
}

/// The characters of each string slice.
pub open spec fn str_views(s: Seq<&str>) -> Seq<Seq<char>> {
    s.map_values(|x: &str| x@)
}

/// The names come in strictly increasing order.
pub open spec fn names_sorted(names: Seq<Seq<char>>) -> bool {
    forall|i: int, j: int| 0 <= i < j < names.len() ==> path_lt(#[trigger] names[i], #[trigger] names[j])
}

/// The map after adding the action `name` with deadzone `d` and no events;
/// unchanged if it exists.
pub open spec fn with_action<D>(m: Map<Seq<char>, (D, Seq<EventView>)>, name: Seq<char>, d: D) -> Map<Seq<char>, (D, Seq<EventView>)> {
    if m.contains_key(name) {
        m
    } else {
        m.insert(name, (d, Seq::empty()))
    }
}

/// The map after binding `ev` to the action `name` (appended unless already
/// bound); unchanged if the action does not exist.
pub open spec fn with_binding<D>(m: Map<Seq<char>, (D, Seq<EventView>)>, name: Seq<char>, ev: EventView) -> Map<Seq<char>, (D, Seq<EventView>)> {
    if m.contains_key(name) {
        m.insert(name, (m[name].0, if m[name].1.contains(ev) { m[name].1 } else { m[name].1.push(ev) }))
    } else {
        m
    }
}

/// Keeps the events other than `ev`.
pub open spec fn other_than(ev: EventView) -> spec_fn(EventView) -> bool {
    |x: EventView| x != ev
}

/// The map after unbinding `ev` from the action `name`; unchanged if the
/// action does not exist.
pub open spec fn without_binding<D>(m: Map<Seq<char>, (D, Seq<EventView>)>, name: Seq<char>, ev: EventView) -> Map<Seq<char>, (D, Seq<EventView>)> {
    if m.contains_key(name) {
        m.insert(name, (m[name].0, m[name].1.filter(other_than(ev))))
    } else {
        m
    }
}

/// The map after binding each key of `keys`, in order, to the action `name`.
pub open spec fn with_keys<D>(m: Map<Seq<char>, (D, Seq<EventView>)>, name: Seq<char>, keys: Seq<Seq<char>>) -> Map<Seq<char>, (D, Seq<EventView>)>
    decreases keys.len(),
{
    if keys.len() == 0 {
        m
    } else {
        with_binding(with_keys(m, name, keys.drop_last()), name, EventView::Key(keys.last()))
    }
}

/// The runtime table (action names with key names) as plain values.
pub open spec fn runtime_views(rt: Seq<(String, Vec<String>)>) -> Seq<(Seq<char>, Seq<Seq<char>>)> {
    rt.map_values(|r: (String, Vec<String>)| (r.0@, r.1@.map_values(|k: String| k@)))
}

/// The action names of a runtime table.
pub open spec fn runtime_names(rt: Seq<(Seq<char>, Seq<Seq<char>>)>) -> Seq<Seq<char>> {
    rt.map_values(|e: (Seq<char>, Seq<Seq<char>>)| e.0)
}

/// The input map built from a runtime table: each action added in turn
/// (with deadzone `d`) and each of its key names bound to it as a key event.
pub open spec fn runtime_model<D>(rt: Seq<(Seq<char>, Seq<Seq<char>>)>, d: D) -> Map<Seq<char>, (D, Seq<EventView>)>
    decreases rt.len(),
{
    if rt.len() == 0 {
        Map::empty()
    } else {
        with_keys(with_action(runtime_model(rt.drop_last(), d), rt.last().0, d), rt.last().0, rt.last().1)
    }
}

/// The key names among `evs`, in order (mouse and joypad events dropped).
pub open spec fn key_names(evs: Seq<EventView>) -> Seq<Seq<char>>
    decreases evs.len(),
{
    if evs.len() == 0 {
        Seq::empty()
    } else {
        match evs.last() {
            EventView::Key(k) => key_names(evs.drop_last()).push(k),
            _ => key_names(evs.drop_last()),
        }
    }
}

/// Unique names give each row's name its row's action, and a name is in
/// the map exactly when some row has it.
proof fn lemma_rows_map<D>(s: Seq<(Seq<char>, (D, Seq<EventView>))>)
    requires
        names_sorted(row_names(s)),
    ensures
        forall|k: Seq<char>| #[trigger] rows_map(s).contains_key(k) <==> exists|i: int| 0 <= i < s.len() && s[i].0 == k,
        forall|i: int| 0 <= i < s.len() ==> rows_map(s)[#[trigger] s[i].0] == s[i].1,
    decreases s.len(),
{
    if s.len() > 0 {
        let t = s.drop_last();
        assert(names_sorted(row_names(t))) by {
            assert forall|i: int, j: int| 0 <= i < j < row_names(t).len() implies path_lt(#[trigger] row_names(t)[i], #[trigger] row_names(t)[j]) by {
                assert(row_names(t)[i] == row_names(s)[i] && row_names(t)[j] == row_names(s)[j]);
            }
        }
        lemma_rows_map(t);
        assert forall|k: Seq<char>| #[trigger] rows_map(s).contains_key(k) <==> exists|i: int| 0 <= i < s.len() && s[i].0 == k by {
            if exists|i: int| 0 <= i < s.len() && s[i].0 == k {
                let i = choose|i: int| 0 <= i < s.len() && s[i].0 == k;
                if i < t.len() {
                    assert(t[i].0 == k);
                }
            }
            if rows_map(t).contains_key(k) {
                let i = choose|i: int| 0 <= i < t.len() && t[i].0 == k;
                assert(s[i].0 == k);
            }
        }
        assert forall|i: int| 0 <= i < s.len() implies rows_map(s)[#[trigger] s[i].0] == s[i].1 by {
            if i < s.len() - 1 {
                assert(path_lt(row_names(s)[i], row_names(s)[s.len() - 1]));
                lemma_path_lt_asym(s[i].0, s[i].0);
                assert(t[i] == s[i]);
            }
        }
    }
}

/// Strictly increasing names are distinct.
proof fn lemma_sorted_distinct(names: Seq<Seq<char>>, i: int, j: int)
    requires
        names_sorted(names),
        0 <= i < names.len(),
        0 <= j < names.len(),
        i != j,
    ensures
        names[i] != names[j],
{
    if i < j {
        assert(path_lt(names[i], names[j]));
        lemma_path_lt_asym(names[i], names[i]);
    } else {
        assert(path_lt(names[j], names[i]));
        lemma_path_lt_asym(names[j], names[j]);
    }
}

/// Inserting a row for a new name at its place in the order adds the
/// action to the map and keeps the order.
proof fn lemma_rows_insert<D>(s: Seq<(Seq<char>, (D, Seq<EventView>))>, p: int, row: (Seq<char>, (D, Seq<EventView>)))
    requires
        names_sorted(row_names(s)),
        0 <= p <= s.len(),
        forall|j: int| 0 <= j < p ==> path_lt(#[trigger] s[j].0, row.0),
        forall|j: int| p <= j < s.len() ==> path_lt(row.0, #[trigger] s[j].0),
    ensures
        names_sorted(row_names(s.insert(p, row))),
        rows_map(s.insert(p, row)) == rows_map(s).insert(row.0, row.1),
{
    let t = s.insert(p, row);
    assert forall|i: int, j: int| 0 <= i < j < row_names(t).len() implies path_lt(#[trigger] row_names(t)[i], #[trigger] row_names(t)[j]) by {
        if j < p {
            assert(path_lt(row_names(s)[i], row_names(s)[j]));
        } else if j == p {
            assert(path_lt(s[i].0, row.0));
        } else if i < p {
            assert(path_lt(s[i].0, row.0));
            assert(path_lt(row.0, s[j - 1].0));
            lemma_path_lt_trans(s[i].0, row.0, s[j - 1].0);
        } else if i == p {
            assert(path_lt(row.0, s[j - 1].0));
        } else {
            assert(path_lt(row_names(s)[i - 1], row_names(s)[j - 1]));
        }
    }
    lemma_rows_map(s);
    lemma_rows_map(t);
    let a = rows_map(t);
    let b = rows_map(s).insert(row.0, row.1);
    assert forall|k: Seq<char>| a.contains_key(k) <==> b.contains_key(k) by {
        if a.contains_key(k) {
            let i = choose|i: int| 0 <= i < t.len() && t[i].0 == k;
            if i < p {
                assert(s[i].0 == k);
            } else if i > p {
                assert(s[i - 1].0 == k);
            }
        }
        if rows_map(s).contains_key(k) {
            let i = choose|i: int| 0 <= i < s.len() && s[i].0 == k;
            if i < p {
                assert(t[i].0 == k);
            } else {
                assert(t[i + 1].0 == k);
            }
        }
        if k == row.0 {
            assert(t[p].0 == k);
        }
    }
    assert forall|k: Seq<char>| a.contains_key(k) implies a[k] == b[k] by {
        let i = choose|i: int| 0 <= i < t.len() && t[i].0 == k;
        assert(a[t[i].0] == t[i].1);
        if i < p {
            assert(s[i] == t[i]);
            lemma_path_lt_asym(s[i].0, s[i].0);
        } else if i > p {
            assert(s[i - 1] == t[i]);
            lemma_path_lt_asym(row.0, row.0);
        }
    }
    assert(a =~= b);
}

/// Replacing the action of a row keeps the order and updates the map.
proof fn lemma_rows_update<D>(s: Seq<(Seq<char>, (D, Seq<EventView>))>, i: int, v: (D, Seq<EventView>))
    requires
        names_sorted(row_names(s)),
        0 <= i < s.len(),
    ensures
        names_sorted(row_names(s.update(i, (s[i].0, v)))),
        rows_map(s.update(i, (s[i].0, v))) == rows_map(s).insert(s[i].0, v),
{
    let t = s.update(i, (s[i].0, v));
    assert(row_names(t) =~= row_names(s));
    lemma_rows_map(s);
    lemma_rows_map(t);
    let a = rows_map(t);
    let b = rows_map(s).insert(s[i].0, v);
    assert forall|k: Seq<char>| a.contains_key(k) <==> b.contains_key(k) by {
        if a.contains_key(k) {
            let j = choose|j: int| 0 <= j < t.len() && t[j].0 == k;
            assert(s[j].0 == k);
        }
        if rows_map(s).contains_key(k) {
            let j = choose|j: int| 0 <= j < s.len() && s[j].0 == k;
            assert(t[j].0 == k);
        }
    }
    assert forall|k: Seq<char>| a.contains_key(k) implies a[k] == b[k] by {
        let j = choose|j: int| 0 <= j < t.len() && t[j].0 == k;
        assert(a[t[j].0] == t[j].1);
        if j != i {
            lemma_sorted_distinct(row_names(s), i, j);
            assert(s[j] == t[j]);
        }
    }
    assert(a =~= b);
}

/// Removing a row keeps the order and drops its action from the map.
proof fn lemma_rows_remove<D>(s: Seq<(Seq<char>, (D, Seq<EventView>))>, i: int)
    requires
        names_sorted(row_names(s)),
        0 <= i < s.len(),
    ensures
        names_sorted(row_names(s.remove(i))),
        rows_map(s.remove(i)) == rows_map(s).remove(s[i].0),
{
    let t = s.remove(i);
    assert forall|a: int, b: int| 0 <= a < b < row_names(t).len() implies path_lt(#[trigger] row_names(t)[a], #[trigger] row_names(t)[b]) by {
        let a2 = if a < i { a } else { a + 1 };
        let b2 = if b < i { b } else { b + 1 };
        assert(path_lt(row_names(s)[a2], row_names(s)[b2]));
    }
    lemma_rows_map(s);
    lemma_rows_map(t);
    let m = rows_map(t);
    let n = rows_map(s).remove(s[i].0);
    assert forall|k: Seq<char>| m.contains_key(k) <==> n.contains_key(k) by {
        if m.contains_key(k) {
            let j = choose|j: int| 0 <= j < t.len() && t[j].0 == k;
            let j2 = if j < i { j } else { j + 1 };
            assert(s[j2].0 == k);
            lemma_sorted_distinct(row_names(s), i, j2);
        }
        if n.contains_key(k) {
            let j = choose|j: int| 0 <= j < s.len() && s[j].0 == k;
            if j < i {
                assert(t[j].0 == k);
            } else {
                assert(t[j - 1].0 == k);
            }
        }
    }
    assert forall|k: Seq<char>| m.contains_key(k) implies m[k] == n[k] by {
        let j = choose|j: int| 0 <= j < t.len() && t[j].0 == k;
        assert(m[t[j].0] == t[j].1);
        let j2 = if j < i { j } else { j + 1 };
        assert(s[j2] == t[j]);
    }
    assert(m =~= n);
}

/// Whether `ev` is among `evs`.
fn events_contain(evs: &[InputEvent], ev: &InputEvent) -> (r: bool)
    ensures
        r == event_views(evs@).contains(ev@),
{
    let mut i: usize = 0;
    while i < evs.len()
        invariant
            i <= evs@.len(),
            forall|j: int| 0 <= j < i ==> event_views(evs@)[j] != ev@,
        decreases evs@.len() - i,
    {
        if evs[i].same_as(ev) {
            assert(event_views(evs@)[i as int] == ev@);
            return true;
        }
        i += 1;
    }
    false
}

/// The input map: actions by name, in name order, and the deadzone that a
/// newly added action gets.
#[derive(Debug, Clone, PartialEq)]
pub struct InputMap<D> {
    actions: Vec<(String, Action<D>)>,
    default_deadzone: D,
}

impl<D: Copy> InputMap<D> {
    /// The actions as plain rows, in name order.
    pub closed spec fn rows(&self) -> Seq<(Seq<char>, (D, Seq<EventView>))> {
        row_views(self.actions@)
    }

    /// The actions by name.
    pub closed spec fn model(&self) -> Map<Seq<char>, (D, Seq<EventView>)> {
        rows_map(self.rows())
    }

    /// The deadzone a newly added action gets.
    pub closed spec fn fresh_deadzone(&self) -> D {
        self.default_deadzone
    }

    /// The actions are kept in strictly increasing name order.
    pub closed spec fn wf(&self) -> bool {
        names_sorted(row_names(self.rows()))
    }

    /// An empty input map whose new actions get `default_deadzone`.
    pub fn new(default_deadzone: D) -> (r: Self)
        ensures
            r.wf(),
            r.model() == Map::<Seq<char>, (D, Seq<EventView>)>::empty(),
            r.fresh_deadzone() == default_deadzone,
    {
        let r = InputMap { actions: Vec::new(), default_deadzone };
        assert(r.rows() =~= Seq::<(Seq<char>, (D, Seq<EventView>))>::empty());
        r
    }

    /// Where `name` is: `Ok` with its row, or `Err` with the row before
    /// which it belongs.
    fn locate(&self, name: &str) -> (r: Result<usize, usize>)
        requires
            self.wf(),
        ensures
            match r {
                Ok(i) => i < self.rows().len() && self.rows()[i as int].0 == name@
                    && self.model().contains_key(name@) && self.model()[name@] == self.rows()[i as int].1,
                Err(p) => p <= self.rows().len() && !self.model().contains_key(name@)
                    && (forall|j: int| 0 <= j < p ==> path_lt(#[trigger] self.rows()[j].0, name@))
                    && (forall|j: int| p <= j < self.rows().len() ==> path_lt(name@, #[trigger] self.rows()[j].0)),
            },
    {
        proof {
            lemma_rows_map(self.rows());
            lemma_path_lt_asym(name@, name@);
        }
        let key = chars_of(name);
        let mut i: usize = 0;
        while i < self.actions.len()
            invariant
                self.wf(),
                key@ == name@,
                !path_lt(name@, name@),
                i <= self.rows().len(),
                forall|j: int| 0 <= j < i ==> path_lt(#[trigger] self.rows()[j].0, name@),
                forall|k: Seq<char>| #[trigger] self.model().contains_key(k) <==> exists|j: int| 0 <= j < self.rows().len() && self.rows()[j].0 == k,
                forall|j: int| 0 <= j < self.rows().len() ==> self.model()[#[trigger] self.rows()[j].0] == self.rows()[j].1,
            decreases self.rows().len() - i,
        {
            let here = chars_of(self.actions[i].0.as_str());
            assert(here@ == self.rows()[i as int].0);
            if path_less(here.as_slice(), key.as_slice()) {
                i += 1;
            } else {
                proof {
                    lemma_path_lt_total(here@, key@);
                }
                if !path_less(key.as_slice(), here.as_slice()) {
                    return Ok(i);
                }
                proof {
                    assert forall|j: int| i <= j < self.rows().len() implies path_lt(name@, #[trigger] self.rows()[j].0) by {
                        if j > i {
                            assert(path_lt(row_names(self.rows())[i as int], row_names(self.rows())[j]));
                            lemma_path_lt_trans(name@, self.rows()[i as int].0, self.rows()[j].0);
                        }
                    }
                }
                proof {
                    if self.model().contains_key(name@) {
                        let j = choose|j: int| 0 <= j < self.rows().len() && self.rows()[j].0 == name@;
                        if j < i {
                            assert(path_lt(self.rows()[j].0, name@));
                        } else {
                            assert(path_lt(name@, self.rows()[j].0));
                        }
                    }
                }
                return Err(i);
            }
        }
        proof {
            if self.model().contains_key(name@) {
                let j = choose|j: int| 0 <= j < self.rows().len() && self.rows()[j].0 == name@;
                assert(path_lt(self.rows()[j].0, name@));
            }
        }
        Err(i)
    }

    /// The action names, in name order.
    pub fn actions(&self) -> (r: Vec<&str>)
        requires
            self.wf(),
        ensures
            names_sorted(str_views(r@)),
            forall|k: Seq<char>| #[trigger] str_views(r@).contains(k) <==> self.model().contains_key(k),
    {
        let mut out: Vec<&str> = Vec::new();
        let mut i: usize = 0;
        while i < self.actions.len()
            invariant
                i <= self.rows().len(),
                str_views(out@) == row_names(self.rows()).take(i as int),
            decreases self.rows().len() - i,
        {
            let ghost prev = str_views(out@);
            let nm = self.actions[i].0.as_str();
            assert(nm@ == row_names(self.rows())[i as int]);
            out.push(nm);
            assert(str_views(out@) =~= prev.push(nm@));
            assert(str_views(out@) =~= row_names(self.rows()).take(i + 1));
            i += 1;
        }
        proof {
            let v = str_views(out@);
            assert(v =~= row_names(self.rows()));
            lemma_rows_map(self.rows());
            assert forall|k: Seq<char>| #[trigger] v.contains(k) <==> self.model().contains_key(k) by {
                if v.contains(k) {
                    let i = choose|i: int| 0 <= i < v.len() && v[i] == k;
                    assert(self.rows()[i].0 == k);
                }
                if self.model().contains_key(k) {
                    let i = choose|i: int| 0 <= i < self.rows().len() && self.rows()[i].0 == k;
                    assert(v[i] == k);
                }
            }
        }
        out
    }

    /// Whether an action named `name` exists.
    pub fn has_action(&self, name: &str) -> (r: bool)
        requires
            self.wf(),
        ensures
            r == self.model().contains_key(name@),
    {
        match self.locate(name) {
            Ok(_) => true,
            Err(_) => false,
        }
    }
}

impl<D: Copy> InputMap<D> {
    /// Adds an action named `name` with the map's default deadzone and no
    /// events. Returns `false` (and changes nothing) if it exists.
    pub fn add_action(&mut self, name: &str) -> (r: bool)
        requires
            old(self).wf(),
        ensures
            final(self).wf(),
            final(self).fresh_deadzone() == old(self).fresh_deadzone(),
            r == !old(self).model().contains_key(name@),
            final(self).model() == with_action(old(self).model(), name@, old(self).fresh_deadzone()),
    {
        match self.locate(name) {
            Ok(_) => false,
            Err(p) => {
                let ghost s = self.rows();
                let row = (owned(name), Action { deadzone: self.default_deadzone, events: Vec::new() });
                let ghost rv = (name@, (self.default_deadzone, Seq::<EventView>::empty()));
                assert(action_view(row.1) == rv.1) by {
                    assert(event_views(row.1.events@) =~= Seq::<EventView>::empty());
                }
                self.actions.insert(p, row);
                assert(self.rows() =~= s.insert(p as int, rv));
                proof {
                    lemma_rows_insert(s, p as int, rv);
                }
                true
            },
        }
    }

    /// Removes the action named `name`. Returns whether it existed.
    pub fn remove_action(&mut self, name: &str) -> (r: bool)
        requires
            old(self).wf(),
        ensures
            final(self).wf(),
            final(self).fresh_deadzone() == old(self).fresh_deadzone(),
            r == old(self).model().contains_key(name@),
            final(self).model() == old(self).model().remove(name@),
    {
        match self.locate(name) {
            Ok(i) => {
                let ghost s = self.rows();
                self.actions.remove(i);
                assert(self.rows() =~= s.remove(i as int));
                proof {
                    lemma_rows_remove(s, i as int);
                }
                true
            },
            Err(_) => {
                assert(self.model().remove(name@) =~= self.model());
                false
            },
        }
    }

    /// The deadzone of the action named `name`, if it exists.
    pub fn deadzone(&self, name: &str) -> (r: Option<D>)
        requires
            self.wf(),
        ensures
            r == if self.model().contains_key(name@) { Some(self.model()[name@].0) } else { None::<D> },
    {
        match self.locate(name) {
            Ok(i) => Some(self.actions[i].1.deadzone),
            Err(_) => None,
        }
    }

    /// Sets the deadzone of the action named `name`. Returns whether the
    /// action exists (and changes nothing if it does not).
    pub fn set_deadzone(&mut self, name: &str, value: D) -> (r: bool)
        requires
            old(self).wf(),
        ensures
            final(self).wf(),
            final(self).fresh_deadzone() == old(self).fresh_deadzone(),
            r == old(self).model().contains_key(name@),
            final(self).model() == if r {
                old(self).model().insert(name@, (value, old(self).model()[name@].1))
            } else {
                old(self).model()
            },
    {
        match self.locate(name) {
            Ok(i) => {
                let ghost s = self.rows();
                let (n, mut a) = self.actions.remove(i);
                a.deadzone = value;
                self.actions.insert(i, (n, a));
                assert(self.rows() =~= s.update(i as int, (s[i as int].0, (value, s[i as int].1.1))));
                proof {
                    lemma_rows_update(s, i as int, (value, s[i as int].1.1));
                }
                true
            },
            Err(_) => false,
        }
    }

    /// The events bound to the action named `name`, if it exists.
    pub fn events(&self, name: &str) -> (r: Option<&[InputEvent]>)
        requires
            self.wf(),
        ensures
            match r {
                Some(es) => self.model().contains_key(name@) && event_views(es@) == self.model()[name@].1,
                None => !self.model().contains_key(name@),
            },
    {
        match self.locate(name) {
            Ok(i) => Some(self.actions[i].1.events.as_slice()),
            Err(_) => None,
        }
    }

    /// Binds `event` to the action named `action` (ignoring an event that is
    /// already bound). Returns whether the action exists.
    pub fn bind(&mut self, action: &str, event: InputEvent) -> (r: bool)
        requires
            old(self).wf(),
        ensures
            final(self).wf(),
            final(self).fresh_deadzone() == old(self).fresh_deadzone(),
            r == old(self).model().contains_key(action@),
            final(self).model() == with_binding(old(self).model(), action@, event@),
    {
        match self.locate(action) {
            Ok(i) => {
                let ghost s = self.rows();
                if events_contain(self.actions[i].1.events.as_slice(), &event) {
                    assert(self.model().insert(action@, self.model()[action@]) =~= self.model());
                    return true;
                }
                let ghost ev = event@;
                let (n, mut a) = self.actions.remove(i);
                let ghost before = event_views(a.events@);
                a.events.push(event);
                assert(event_views(a.events@) =~= before.push(ev));
                self.actions.insert(i, (n, a));
                assert(self.rows() =~= s.update(i as int, (s[i as int].0, (s[i as int].1.0, s[i as int].1.1.push(ev)))));
                proof {
                    lemma_rows_update(s, i as int, (s[i as int].1.0, s[i as int].1.1.push(ev)));
                }
                true
            },
            Err(_) => false,
        }
    }

    /// Unbinds `event` from the action named `action`. Returns whether an
    /// event was removed.
    pub fn unbind(&mut self, action: &str, event: &InputEvent) -> (r: bool)
        requires
            old(self).wf(),
        ensures
            final(self).wf(),
            final(self).fresh_deadzone() == old(self).fresh_deadzone(),
            r == (old(self).model().contains_key(action@) && old(self).model()[action@].1.contains(event@)),
            final(self).model() == without_binding(old(self).model(), action@, event@),
    {
        match self.locate(action) {
            Ok(i) => {
                let ghost s = self.rows();
                let (n, mut a) = self.actions.remove(i);
                let ghost evs = event_views(a.events@);
                let ghost keep = other_than(event@);
                let before = a.events.len();
                let mut kept: Vec<InputEvent> = Vec::new();
                let mut j: usize = 0;
                assert(evs.take(0).filter(keep) =~= Seq::<EventView>::empty()) by {
                    reveal(Seq::filter);
                }
                while j < a.events.len()
                    invariant
                        evs == event_views(a.events@),
                        keep == other_than(event@),
                        j <= evs.len(),
                        event_views(kept@) == evs.take(j as int).filter(keep),
                        kept@.len() <= j,
                        (kept@.len() == j) == !evs.take(j as int).contains(event@),
                    decreases evs.len() - j,
                {
                    proof {
                        assert(evs.take(j + 1) =~= evs.take(j as int).push(evs[j as int]));
                        evs.take(j as int).lemma_filter_push(evs[j as int], keep);
                        vstd::seq_lib::lemma_seq_contains_after_push(evs.take(j as int), evs[j as int], event@);
                    }
                    if !a.events[j].same_as(event) {
                        let ghost prev = event_views(kept@);
                        let e = a.events[j].duplicate();
                        kept.push(e);
                        assert(event_views(kept@) =~= prev.push(evs[j as int]));
                    }
                    j += 1;
                }
                assert(evs.take(evs.len() as int) =~= evs);
                let removed = kept.len() != before;
                a.events = kept;
                self.actions.insert(i, (n, a));
                assert(self.rows() =~= s.update(i as int, (s[i as int].0, (s[i as int].1.0, evs.filter(keep)))));
                proof {
                    lemma_rows_update(s, i as int, (s[i as int].1.0, evs.filter(keep)));
                }
                removed
            },
            Err(_) => false,
        }
    }

    /// Whether `event` is bound to the action named `action`.
    pub fn action_has(&self, action: &str, event: &InputEvent) -> (r: bool)
        requires
            self.wf(),
        ensures
            r == (self.model().contains_key(action@) && self.model()[action@].1.contains(event@)),
    {
        match self.locate(action) {
            Ok(i) => events_contain(self.actions[i].1.events.as_slice(), event),
            Err(_) => false,
        }
    }

    /// The names of the actions that `event` triggers, in name order.
    pub fn actions_for_event(&self, event: &InputEvent) -> (r: Vec<&str>)
        requires
            self.wf(),
        ensures
            names_sorted(str_views(r@)),
            forall|k: Seq<char>| #[trigger] str_views(r@).contains(k) <==> (self.model().contains_key(k)
                && self.model()[k].1.contains(event@)),
    {
        let ghost s = self.rows();
        let mut out: Vec<&str> = Vec::new();
        let mut i: usize = 0;
        while i < self.actions.len()
            invariant
                s == self.rows(),
                names_sorted(row_names(s)),
                i <= s.len(),
                names_sorted(str_views(out@)),
                str_views(out@).len() > 0 ==> forall|j: int| i <= j < s.len()
                    ==> path_lt(str_views(out@).last(), #[trigger] s[j].0),
                forall|k: Seq<char>| #[trigger] str_views(out@).contains(k) <==> exists|j: int| 0 <= j < i
                    && s[j].0 == k && s[j].1.1.contains(event@),
            decreases s.len() - i,
        {
            if events_contain(self.actions[i].1.events.as_slice(), event) {
                let ghost prev = str_views(out@);
                let nm = self.actions[i].0.as_str();
                out.push(nm);
                proof {
                    let v = str_views(out@);
                    assert(v =~= prev.push(s[i as int].0));
                    assert forall|a: int, b: int| 0 <= a < b < v.len() implies path_lt(#[trigger] v[a], #[trigger] v[b]) by {
                        if b < prev.len() {
                            assert(path_lt(prev[a], prev[b]));
                        } else {
                            assert(prev.contains(prev[a]));
                            let j = choose|j: int| 0 <= j < i && s[j].0 == prev[a] && s[j].1.1.contains(event@);
                            assert(path_lt(row_names(s)[j], row_names(s)[i as int]));
                        }
                    }
                    assert forall|j: int| i + 1 <= j < s.len() implies path_lt(v.last(), #[trigger] s[j].0) by {
                        assert(path_lt(row_names(s)[i as int], row_names(s)[j]));
                    }
                    assert forall|k: Seq<char>| #[trigger] v.contains(k) <==> exists|j: int| 0 <= j < i + 1
                        && s[j].0 == k && s[j].1.1.contains(event@) by {
                        vstd::seq_lib::lemma_seq_contains_after_push(prev, s[i as int].0, k);
                    }
                }
            } else {
                proof {
                    let v = str_views(out@);
                    if v.len() > 0 {
                        assert forall|j: int| i + 1 <= j < s.len() implies path_lt(v.last(), #[trigger] s[j].0) by {
                            assert(path_lt(v.last(), s[i as int].0));
                            assert(path_lt(row_names(s)[i as int], row_names(s)[j]));
                            lemma_path_lt_trans(v.last(), s[i as int].0, s[j].0);
                        }
                    }
                    assert forall|k: Seq<char>| #[trigger] v.contains(k) <==> exists|j: int| 0 <= j < i + 1
                        && s[j].0 == k && s[j].1.1.contains(event@) by {
                        if exists|j: int| 0 <= j < i + 1 && s[j].0 == k && s[j].1.1.contains(event@) {
                            let j = choose|j: int| 0 <= j < i + 1 && s[j].0 == k && s[j].1.1.contains(event@);
                            assert(j != i);
                        }
                    }
                }
            }
            i += 1;
        }
        proof {
            lemma_rows_map(s);
            let v = str_views(out@);
            assert forall|k: Seq<char>| #[trigger] v.contains(k) <==> (self.model().contains_key(k)
                && self.model()[k].1.contains(event@)) by {
                if v.contains(k) {
                    let j = choose|j: int| 0 <= j < i && s[j].0 == k && s[j].1.1.contains(event@);
                    assert(self.model()[s[j].0] == s[j].1);
                }
                if self.model().contains_key(k) && self.model()[k].1.contains(event@) {
                    let j = choose|j: int| 0 <= j < s.len() && s[j].0 == k;
                    assert(self.model()[s[j].0] == s[j].1);
                }
            }
        }
        out
    }

    /// Builds an input map from the editor's runtime table of action names
    /// to key names: each action is added (with deadzone `default_deadzone`)
    /// and each of its key names bound to it as a key event.
    pub fn from_runtime_map(runtime: &[(String, Vec<String>)], default_deadzone: D) -> (r: Self)
        ensures
            r.wf(),
            r.fresh_deadzone() == default_deadzone,
            r.model() == runtime_model(runtime_views(runtime@), default_deadzone),
    {
        let ghost rt = runtime_views(runtime@);
        let mut map = InputMap::new(default_deadzone);
        let mut i: usize = 0;
        while i < runtime.len()
            invariant
                rt == runtime_views(runtime@),
                i <= rt.len(),
                map.wf(),
                map.fresh_deadzone() == default_deadzone,
                map.model() == runtime_model(rt.take(i as int), default_deadzone),
            decreases rt.len() - i,
        {
            let action = runtime[i].0.as_str();
            let keys = &runtime[i].1;
            let ghost ks = rt[i as int].1;
            map.add_action(action);
            let ghost base = map.model();
            let mut j: usize = 0;
            while j < keys.len()
                invariant
                    ks == keys@.map_values(|k: String| k@),
                    action@ == rt[i as int].0,
                    j <= ks.len(),
                    map.wf(),
                    map.fresh_deadzone() == default_deadzone,
                    map.model() == with_keys(base, action@, ks.take(j as int)),
                decreases ks.len() - j,
            {
                let key = keys[j].clone();
                map.bind(action, InputEvent::Key(key));
                assert(ks.take(j + 1).drop_last() =~= ks.take(j as int));
                j += 1;
            }
            assert(ks.take(ks.len() as int) =~= ks);
            assert(rt.take(i + 1).drop_last() =~= rt.take(i as int));
            i += 1;
        }
        assert(rt.take(rt.len() as int) =~= rt);
        map
    }

    /// Projects the map onto the runtime table: each action name, in name
    /// order, with the key names bound to it (mouse and joypad events are
    /// left out).
    pub fn to_runtime_map(&self) -> (r: Vec<(String, Vec<String>)>)
        requires
            self.wf(),
        ensures
            names_sorted(runtime_names(runtime_views(r@))),
            forall|k: Seq<char>| #[trigger] runtime_names(runtime_views(r@)).contains(k)
                <==> self.model().contains_key(k),
            forall|i: int| 0 <= i < r@.len() ==> #[trigger] runtime_views(r@)[i].1
                == key_names(self.model()[runtime_views(r@)[i].0].1),
    {
        let ghost s = self.rows();
        let mut out: Vec<(String, Vec<String>)> = Vec::new();
        let mut i: usize = 0;
        while i < self.actions.len()
            invariant
                s == self.rows(),
                i <= s.len(),
                runtime_views(out@).len() == i,
                forall|j: int| 0 <= j < i ==> #[trigger] runtime_views(out@)[j] == (s[j].0, key_names(s[j].1.1)),
            decreases s.len() - i,
        {
            let evs = &self.actions[i].1.events;
            let ghost ev = s[i as int].1.1;
            let mut keys: Vec<String> = Vec::new();
            let mut j: usize = 0;
            while j < evs.len()
                invariant
                    ev == event_views(evs@),
                    j <= ev.len(),
                    keys@.map_values(|k: String| k@) == key_names(ev.take(j as int)),
                decreases ev.len() - j,
            {
                assert(ev.take(j + 1).drop_last() =~= ev.take(j as int));
                match &evs[j] {
                    InputEvent::Key(k) => {
                        let ghost prev = keys@.map_values(|k: String| k@);
                        keys.push(k.clone());
                        assert(keys@.map_values(|k: String| k@) =~= prev.push(k@));
                    },
                    _ => {},
                }
                j += 1;
            }
            assert(ev.take(ev.len() as int) =~= ev);
            let ghost prev_out = runtime_views(out@);
            out.push((self.actions[i].0.clone(), keys));
            assert(runtime_views(out@) =~= prev_out.push((s[i as int].0, key_names(s[i as int].1.1))));
            i += 1;
        }
        proof {
            lemma_rows_map(s);
            let v = runtime_names(runtime_views(out@));
            assert(v =~= row_names(s));
            assert forall|k: Seq<char>| #[trigger] v.contains(k) <==> self.model().contains_key(k) by {
                if v.contains(k) {
                    let j = choose|j: int| 0 <= j < v.len() && v[j] == k;
                    assert(s[j].0 == k);
                }
                if self.model().contains_key(k) {
                    let j = choose|j: int| 0 <= j < s.len() && s[j].0 == k;
                    assert(v[j] == k);
                }
            }
            assert forall|j: int| 0 <= j < out@.len() implies #[trigger] runtime_views(out@)[j].1
                == key_names(self.model()[runtime_views(out@)[j].0].1) by {
                assert(self.model()[s[j].0] == s[j].1);
            }
        }
        out
    }
}

/// Key events for each key name, in order.
pub open spec fn key_events(keys: Seq<Seq<char>>) -> Seq<EventView> {
    keys.map_values(|k: Seq<char>| EventView::Key(k))
}

/// The key names of key events are the names themselves.
proof fn lemma_key_names_of_keys(keys: Seq<Seq<char>>)
    ensures
        key_names(key_events(keys)) == keys,
    decreases keys.len(),
{
    if keys.len() > 0 {
        lemma_key_names_of_keys(keys.drop_last());
        assert(key_events(keys).drop_last() =~= key_events(keys.drop_last()));
        assert(keys.drop_last().push(keys.last()) =~= keys);
    } else {
        assert(key_events(keys) =~= Seq::<EventView>::empty());
        assert(keys =~= Seq::<Seq<char>>::empty());
    }
}

/// Binding distinct keys to an action without events binds exactly them,
/// in order, and touches nothing else.
proof fn lemma_with_keys_fresh<D>(m: Map<Seq<char>, (D, Seq<EventView>)>, name: Seq<char>, keys: Seq<Seq<char>>)
    requires
        m.contains_key(name),
        m[name].1 == Seq::<EventView>::empty(),
        keys.no_duplicates(),
    ensures
        with_keys(m, name, keys) == m.insert(name, (m[name].0, key_events(keys))),
    decreases keys.len(),
{
    if keys.len() == 0 {
        assert(key_events(keys) =~= Seq::<EventView>::empty());
        assert(m.insert(name, (m[name].0, key_events(keys))) =~= m);
    } else {
        let init = keys.drop_last();
        assert(init.no_duplicates());
        lemma_with_keys_fresh(m, name, init);
        let prev = with_keys(m, name, init);
        let last = EventView::Key(keys.last());
        assert(!key_events(init).contains(last)) by {
            if key_events(init).contains(last) {
                let j = choose|j: int| 0 <= j < key_events(init).len() && key_events(init)[j] == last;
                assert(keys[j] == keys[keys.len() - 1]);
            }
        }
        assert(key_events(keys) =~= key_events(init).push(last));
        assert(with_keys(m, name, keys) =~= m.insert(name, (m[name].0, key_events(keys))));
    }
}

/// Removing nothing leaves a sequence of events as it is.
proof fn lemma_filter_other_absent(evs: Seq<EventView>, ev: EventView)
    requires
        !evs.contains(ev),
    ensures
        evs.filter(other_than(ev)) == evs,
    decreases evs.len(),
{
    reveal(Seq::filter);
    if evs.len() > 0 {
        let init = evs.drop_last();
        assert(!init.contains(ev)) by {
            if init.contains(ev) {
                let j = choose|j: int| 0 <= j < init.len() && init[j] == ev;
                assert(evs[j] == ev);
            }
        }
        lemma_filter_other_absent(init, ev);
        assert(evs.last() != ev);
        assert(init.push(evs.last()) =~= evs);
    }
}

/// Binding an event that was not bound and then unbinding it gives back
/// the map as it was.
pub proof fn law_bind_then_unbind<D>(m: Map<Seq<char>, (D, Seq<EventView>)>, name: Seq<char>, ev: EventView)
    requires
        m.contains_key(name),
        !m[name].1.contains(ev),
    ensures
        without_binding(with_binding(m, name, ev), name, ev) == m,
{
    let evs = m[name].1;
    lemma_filter_other_absent(evs, ev);
    evs.lemma_filter_push(ev, other_than(ev));
    assert(without_binding(with_binding(m, name, ev), name, ev) =~= m);
}

/// Binding the same event twice is the same as binding it once.
pub proof fn law_bind_is_idempotent<D>(m: Map<Seq<char>, (D, Seq<EventView>)>, name: Seq<char>, ev: EventView)
    ensures
        with_binding(with_binding(m, name, ev), name, ev) == with_binding(m, name, ev),
{
    if m.contains_key(name) {
        let once = with_binding(m, name, ev);
        assert(once[name].1.contains(ev)) by {
            if !m[name].1.contains(ev) {
                assert(m[name].1.push(ev)[m[name].1.len() as int] == ev);
            }
        }
        assert(with_binding(once, name, ev) =~= once);
    }
}

/// Adding a new action and removing it again gives back the map.
pub proof fn law_add_then_remove<D>(m: Map<Seq<char>, (D, Seq<EventView>)>, name: Seq<char>, d: D)
    requires
        !m.contains_key(name),
    ensures
        with_action(m, name, d).remove(name) == m,
{
    assert(with_action(m, name, d).remove(name) =~= m);
}

/// Building the map from a runtime table with distinct action names and
/// distinct keys per action keeps exactly those actions, and each action's
/// key names come back as they were given.
pub proof fn law_runtime_round_trip<D>(rt: Seq<(Seq<char>, Seq<Seq<char>>)>, d: D)
    requires
        runtime_names(rt).no_duplicates(),
        forall|i: int| 0 <= i < rt.len() ==> (#[trigger] rt[i]).1.no_duplicates(),
    ensures
        forall|k: Seq<char>| #[trigger] runtime_model(rt, d).contains_key(k) <==> runtime_names(rt).contains(k),
        forall|i: int| 0 <= i < rt.len() ==> key_names(runtime_model(rt, d)[(#[trigger] rt[i]).0].1) == rt[i].1,
    decreases rt.len(),
{
    if rt.len() > 0 {
        let init = rt.drop_last();
        assert(runtime_names(init) =~= runtime_names(rt).drop_last());
        assert(runtime_names(init).no_duplicates());
        assert forall|i: int| 0 <= i < init.len() implies (#[trigger] init[i]).1.no_duplicates() by {
            assert(init[i] == rt[i]);
        }
        law_runtime_round_trip(init, d);
        let prev = runtime_model(init, d);
        let (a, ks) = rt.last();
        assert(!prev.contains_key(a)) by {
            if prev.contains_key(a) {
                let j = choose|j: int| 0 <= j < runtime_names(init).len() && runtime_names(init)[j] == a;
                assert(runtime_names(rt)[j] == runtime_names(rt)[rt.len() - 1]);
            }
        }
        let added = with_action(prev, a, d);
        lemma_with_keys_fresh(added, a, ks);
        lemma_key_names_of_keys(ks);
        let m = runtime_model(rt, d);
        assert(m == prev.insert(a, (d, key_events(ks))));
        assert forall|k: Seq<char>| #[trigger] m.contains_key(k) <==> runtime_names(rt).contains(k) by {
            vstd::seq_lib::lemma_seq_contains_after_push(runtime_names(init), a, k);
            assert(runtime_names(init).push(a) =~= runtime_names(rt));
        }
        assert forall|i: int| 0 <= i < rt.len() implies key_names(m[(#[trigger] rt[i]).0].1) == rt[i].1 by {
            if i < rt.len() - 1 {
                assert(init[i] == rt[i]);
                assert(runtime_names(rt)[i] != runtime_names(rt)[rt.len() - 1]);
            }
        }
    }
}

} // verus!
