//! Keyboard shortcuts for menu actions: pressing a bound shortcut fires its
//! action, and the shortcut's accelerator text (such as `Ctrl+S`) is shown
//! beside the item's label.

use vstd::prelude::*;
use vstd::std_specs::cmp::PartialEqSpec;
use crate::text::{ascii_lower, ascii_upper, char_ascii_lower, char_ascii_upper, owned, push_char, push_str};

verus! {

broadcast use vstd::string::group_string_axioms;

/// A keyboard shortcut: a base key plus modifier flags.
#[derive(Debug, Clone, Copy, PartialEq, Eq, Structural)]
pub struct KeyShortcut {
    /// Control modifier.
    pub ctrl: bool,
    /// Shift modifier.
    pub shift: bool,
    /// Alt modifier.
    pub alt: bool,
    /// The base key.
    pub key: char,
}

/// The accelerator text of a shortcut: the held modifiers in the order
/// Ctrl, Shift, Alt, each followed by `+`, then the key in ASCII uppercase.
pub open spec fn accel_text(k: KeyShortcut) -> Seq<char> {
    (if k.ctrl { "Ctrl+"@ } else { Seq::empty() })
        + (if k.shift { "Shift+"@ } else { Seq::empty() })
        + (if k.alt { "Alt+"@ } else { Seq::empty() })
        + seq![ascii_upper(k.key)]
}

impl KeyShortcut {
    /// A shortcut with explicit modifiers.
    pub fn new(ctrl: bool, shift: bool, alt: bool, key: char) -> (r: Self)
        ensures
            r == (KeyShortcut { ctrl, shift, alt, key }),
    {
        KeyShortcut { ctrl, shift, alt, key }
    }

    /// A `Ctrl+<key>` shortcut.
    pub fn ctrl(key: char) -> (r: Self)
        ensures
            r == (KeyShortcut { ctrl: true, shift: false, alt: false, key }),
    {
        Self::new(true, false, false, key)
    }

    /// The accelerator text shown in the menu, such as `Ctrl+Shift+S`.
    pub fn accelerator_text(&self) -> (r: String)
        ensures
            r@ == accel_text(*self),
    {
        let mut s = String::new();
        if self.ctrl {
            push_str(&mut s, "Ctrl+");
        }
        if self.shift {
            push_str(&mut s, "Shift+");
        }
        if self.alt {
            push_str(&mut s, "Alt+");
        }
        push_char(&mut s, char_ascii_upper(self.key));
        assert(s@ =~= accel_text(*self));
        s
    }
}

/// One bound menu item.
#[derive(Debug, Clone)]
struct ShortcutItem<A> {
    action: A,
    label: String,
    shortcut: KeyShortcut,
}

/// A menu's bindings of actions to shortcuts, in binding order.
#[derive(Debug, Clone)]
pub struct ShortcutMenu<A> {
    items: Vec<ShortcutItem<A>>,
}

/// A press of `pressed` matches the shortcut `bound`: the same modifiers and
/// the same key, ignoring ASCII case.
pub open spec fn matches_press(bound: KeyShortcut, pressed: KeyShortcut) -> bool {
    &&& bound.ctrl == pressed.ctrl
    &&& bound.shift == pressed.shift
    &&& bound.alt == pressed.alt
    &&& ascii_lower(bound.key) == ascii_lower(pressed.key)
}

/// The position of the first binding whose shortcut `pressed` matches.
pub open spec fn first_bound_to<A>(es: Seq<(A, Seq<char>, KeyShortcut)>, pressed: KeyShortcut, k: int) -> bool {
    &&& 0 <= k < es.len()
    &&& matches_press(es[k].2, pressed)
    &&& forall|j: int| 0 <= j < k ==> !matches_press((#[trigger] es[j]).2, pressed)
}

/// The position of the first binding whose action equals `action`.
pub open spec fn first_for_action<A: PartialEq>(es: Seq<(A, Seq<char>, KeyShortcut)>, action: A, k: int) -> bool {
    &&& 0 <= k < es.len()
    &&& es[k].0.eq_spec(&action)
    &&& forall|j: int| 0 <= j < k ==> !(#[trigger] es[j]).0.eq_spec(&action)
}

impl<A: Clone + PartialEq> ShortcutMenu<A> {
    /// The bindings as (action, label, shortcut), in binding order.
    pub closed spec fn entries(&self) -> Seq<(A, Seq<char>, KeyShortcut)> {
        self.items@.map_values(|i: ShortcutItem<A>| (i.action, i.label@, i.shortcut))
    }

    /// An empty shortcut menu.
    pub fn new() -> (r: Self)
        ensures
            r.entries() == Seq::<(A, Seq<char>, KeyShortcut)>::empty(),
    {
        let r = ShortcutMenu { items: Vec::new() };
        assert(r.entries() =~= Seq::<(A, Seq<char>, KeyShortcut)>::empty());
        r
    }

    /// Binds `action`, shown as `label`, to `shortcut`.
    pub fn bind(&mut self, action: A, label: &str, shortcut: KeyShortcut)
        ensures
            final(self).entries() == old(self).entries().push((action, label@, shortcut)),
    {
        self.items.push(ShortcutItem { action, label: owned(label), shortcut });
        assert(self.entries() =~= old(self).entries().push((action, label@, shortcut)));
    }

    /// The action fired by pressing `pressed`: that of the first binding
    /// with the same modifiers and the same key (ignoring ASCII case), or
    /// `None`.
    pub fn fire(&self, pressed: KeyShortcut) -> (r: Option<A>)
        ensures
            match r {
                None => forall|k: int| 0 <= k < self.entries().len() ==> !matches_press((#[trigger] self.entries()[k]).2, pressed),
                Some(a) => exists|k: int|
                    first_bound_to(self.entries(), pressed, k) && cloned(#[trigger] self.entries()[k].0, a),
            },
    {
        let mut i: usize = 0;
        while i < self.items.len()
            invariant
                i <= self.items@.len(),
                self.entries().len() == self.items@.len(),
                forall|k: int| 0 <= k < i ==> !matches_press((#[trigger] self.entries()[k]).2, pressed),
            decreases self.items@.len() - i,
        {
            let b = self.items[i].shortcut;
            assert(self.entries()[i as int].2 == b);
            if b.ctrl == pressed.ctrl && b.shift == pressed.shift && b.alt == pressed.alt
                && char_ascii_lower(b.key) == char_ascii_lower(pressed.key) {
                let a = self.items[i].action.clone();
                assert(self.entries()[i as int].0 == self.items@[i as int].action);
                assert(first_bound_to(self.entries(), pressed, i as int));
                assert(cloned(self.entries()[i as int].0, a));
                return Some(a);
            }
            i += 1;
        }
        None
    }

    /// Index of the first binding for `action`, where `A`'s `==` follows its
    /// specification.
    fn position_of(&self, action: &A) -> (r: Option<usize>)
        ensures
            self.entries().len() == self.items@.len(),
            r matches Some(k) ==> k < self.items@.len(),
            A::obeys_eq_spec() ==> match r {
                None => forall|k: int| 0 <= k < self.entries().len() ==> !(#[trigger] self.entries()[k]).0.eq_spec(action),
                Some(k) => first_for_action(self.entries(), *action, k as int),
            },
    {
        let mut i: usize = 0;
        while i < self.items.len()
            invariant
                i <= self.items@.len(),
                self.entries().len() == self.items@.len(),
                A::obeys_eq_spec() ==> forall|k: int| 0 <= k < i ==> !(#[trigger] self.entries()[k]).0.eq_spec(action),
            decreases self.items@.len() - i,
        {
            if self.items[i].action.eq(action) {
                return Some(i);
            }
            i += 1;
        }
        None
    }

    /// The accelerator text of `action`'s shortcut, if it is bound.
    pub fn accelerator_for(&self, action: &A) -> (r: Option<String>)
        ensures
            A::obeys_eq_spec() ==> match r {
                None => forall|k: int| 0 <= k < self.entries().len() ==> !(#[trigger] self.entries()[k]).0.eq_spec(action),
                Some(s) => exists|k: int|
                    first_for_action(self.entries(), *action, k) && s@ == accel_text(#[trigger] self.entries()[k].2),
            },
    {
        match self.position_of(action) {
            Some(k) => {
                assert(self.entries()[k as int].2 == self.items@[k as int].shortcut);
                Some(self.items[k].shortcut.accelerator_text())
            },
            None => None,
        }
    }

    /// The full item label: the label, a tab, then the accelerator text
    /// (such as `"Save\tCtrl+S"`), if `action` is bound.
    pub fn item_label(&self, action: &A) -> (r: Option<String>)
        ensures
            A::obeys_eq_spec() ==> match r {
                None => forall|k: int| 0 <= k < self.entries().len() ==> !(#[trigger] self.entries()[k]).0.eq_spec(action),
                Some(s) => exists|k: int|
                    first_for_action(self.entries(), *action, k)
                        && s@ == (#[trigger] self.entries()[k]).1 + seq!['\t'] + accel_text(self.entries()[k].2),
            },
    {
        match self.position_of(action) {
            Some(k) => {
                let item = &self.items[k];
                assert(self.entries()[k as int] == (item.action, item.label@, item.shortcut));
                let mut s = item.label.clone();
                push_char(&mut s, '\t');
                let acc = item.shortcut.accelerator_text();
                push_str(&mut s, acc.as_str());
                Some(s)
            },
            None => None,
        }
    }
}

impl<A: Clone + PartialEq> Default for ShortcutMenu<A> {
    fn default() -> (r: Self)
        ensures
            r.entries() == Seq::<(A, Seq<char>, KeyShortcut)>::empty(),
    {
        Self::new()
    }
}

} // verus!
