//! Gamepad button → action bindings.

use std::collections::HashMap;
use vstd::prelude::*;
use crate::input::{Action, all_actions};
use crate::text::{decimal, push_decimal};

verus! {

/// A gamepad button, by its index in the Gamepad API `buttons` array.
#[derive(Debug, Clone, Copy, PartialEq, Eq, Hash, Structural)]
pub struct GamepadButton(pub usize);

/// Label of a button index under the W3C standard gamepad mapping.
pub open spec fn button_label(n: usize) -> Seq<char> {
    if n == 0 { "A / Cross"@ }
    else if n == 1 { "B / Circle"@ }
    else if n == 2 { "X / Square"@ }
    else if n == 3 { "Y / Triangle"@ }
    else if n == 4 { "L1 / LB"@ }
    else if n == 5 { "R1 / RB"@ }
    else if n == 6 { "L2 / LT"@ }
    else if n == 7 { "R2 / RT"@ }
    else if n == 8 { "Select / View"@ }
    else if n == 9 { "Start / Menu"@ }
    else if n == 10 { "L3 (Left Stick)"@ }
    else if n == 11 { "R3 (Right Stick)"@ }
    else if n == 12 { "D-Pad Up"@ }
    else if n == 13 { "D-Pad Down"@ }
    else if n == 14 { "D-Pad Left"@ }
    else if n == 15 { "D-Pad Right"@ }
    else { "Button "@ + decimal(n as nat) }
}

impl GamepadButton {
    /// Human-readable label for the standard gamepad button indices.
    pub fn label(&self) -> (s: String)
        ensures
            s@ == button_label(self.0),
    {
        let lit: &str = match self.0 {
            0 => "A / Cross",
            1 => "B / Circle",
            2 => "X / Square",
            3 => "Y / Triangle",
            4 => "L1 / LB",
            5 => "R1 / RB",
            6 => "L2 / LT",
            7 => "R2 / RT",
            8 => "Select / View",
            9 => "Start / Menu",
            10 => "L3 (Left Stick)",
            11 => "R3 (Right Stick)",
            12 => "D-Pad Up",
            13 => "D-Pad Down",
            14 => "D-Pad Left",
            15 => "D-Pad Right",
            _ => "Button ",
        };
        let mut s = lit.to_owned();
        if self.0 > 15 {
            push_decimal(&mut s, self.0);
        }
        s
    }
}

/// The built-in bindings: R1 → next page, L1 → previous page, Select →
/// toggle overlay, B → go back, A → confirm.
pub open spec fn default_bindings() -> Map<usize, Action> {
    map![
        5usize => Action::NextPage,
        4usize => Action::PreviousPage,
        8usize => Action::ToggleOverlay,
        1usize => Action::GoBack,
        0usize => Action::Confirm
    ]
}

/// `m` without the buttons bound to `a`.
pub open spec fn without_action(m: Map<usize, Action>, a: Action) -> Map<usize, Action> {
    m.restrict(m.dom().filter(|k: usize| m[k] != a))
}

/// A button that `m` binds to `a`, if any: `Some(b)` only for a bound `b`,
/// `None` only when no button is bound to `a`.
pub open spec fn is_button_for(m: Map<usize, Action>, a: Action, r: Option<GamepadButton>) -> bool {
    match r {
        Some(b) => m.contains_key(b.0) && m[b.0] == a,
        None => forall|k: usize| m.contains_key(k) ==> m[k] != a,
    }
}

/// The full set of gamepad → action bindings.
#[derive(Debug, Clone)]
pub struct GamepadConfig {
    pub bindings: HashMap<usize, Action>,
}

impl Default for GamepadConfig {
    fn default() -> (c: Self)
        ensures
            c.bindings@ == default_bindings(),
    {
        let mut bindings: HashMap<usize, Action> = HashMap::new();
        bindings.insert(5, Action::NextPage);
        bindings.insert(4, Action::PreviousPage);
        bindings.insert(8, Action::ToggleOverlay);
        bindings.insert(1, Action::GoBack);
        bindings.insert(0, Action::Confirm);
        assert(bindings@ =~= default_bindings());
        GamepadConfig { bindings }
    }
}

impl GamepadConfig {
    /// Bind `button` to `action`; whatever `button` was bound to, and any
    /// other button bound to `action`, is unbound, so that each action has at
    /// most one button.
    pub fn set_binding(&mut self, button: usize, action: Action)
        ensures
            final(self).bindings@ == without_action(old(self).bindings@, action).insert(button, action),
    {
        let ghost m0 = self.bindings@;
        let mut doomed: Vec<usize> = Vec::new();
        for entry in it: self.bindings.iter()
            invariant
                self.bindings@ == m0,
                forall|k: usize| #[trigger] m0.contains_key(k) ==> exists|j: int|
                    0 <= j < it.seq().len() && #[trigger] it.seq()[j] == (&k, &m0[k]),
                forall|k: usize| #[trigger] m0.contains_key(k) && m0[k] == action
                    && (exists|j: int| 0 <= j < it.index() && #[trigger] it.seq()[j] == (&k, &m0[k]))
                    ==> doomed@.contains(k),
                forall|j: int| 0 <= j < doomed@.len() ==> m0.contains_key(#[trigger] doomed@[j])
                    && m0[doomed@[j]] == action,
        {
            assert(entry == it.seq()[it.index() as int]);
            let ghost d0 = doomed@;
            let (k, a) = entry;
            if *a == action {
                doomed.push(*k);
            }
            proof {
                assert forall|k2: usize| #[trigger] m0.contains_key(k2) && m0[k2] == action
                    && (exists|j: int| 0 <= j < it.index() + 1 && #[trigger] it.seq()[j] == (&k2, &m0[k2]))
                    implies doomed@.contains(k2) by {
                    let w = choose|w: int| 0 <= w < it.index() + 1 && #[trigger] it.seq()[w] == (&k2, &m0[k2]);
                    if w < it.index() {
                        assert(d0.contains(k2));
                        let v = choose|v: int| 0 <= v < d0.len() && #[trigger] d0[v] == k2;
                        assert(doomed@[v] == k2);
                    } else {
                        assert(*k == k2);
                        assert(doomed@[doomed@.len() - 1] == k2);
                    }
                }
            }
        }
        Self::remove_all(&mut self.bindings, &doomed);
        self.bindings.insert(button, action);
        proof {
            assert(self.bindings@ =~= without_action(m0, action).insert(button, action)) by {
                assert forall|k: usize| #[trigger] without_action(m0, action).contains_key(k)
                    implies m0.contains_key(k) && !doomed@.contains(k) by {
                    if doomed@.contains(k) {
                        let v = choose|v: int| 0 <= v < doomed@.len() && #[trigger] doomed@[v] == k;
                    }
                }
                assert forall|k: usize| #[trigger] m0.contains_key(k) && m0[k] == action
                    implies doomed@.contains(k) by {
                }
            }
        }
    }

    /// Remove the binding of a button.
    pub fn clear_binding(&mut self, button: usize)
        ensures
            final(self).bindings@ == old(self).bindings@.remove(button),
    {
        self.bindings.remove(&button);
    }

    /// The action bound to a pressed button, if any.
    pub fn action_for(&self, button: usize) -> (r: Option<Action>)
        ensures
            r == (if self.bindings@.contains_key(button) {
                Some(self.bindings@[button])
            } else {
                None
            }),
    {
        match self.bindings.get(&button) {
            Some(a) => Some(*a),
            None => None,
        }
    }

    /// A button bound to `action`, if any.  When several buttons are bound to
    /// the same action, which one is returned depends on the map's iteration
    /// order.
    pub fn button_for(&self, action: Action) -> (r: Option<GamepadButton>)
        ensures
            is_button_for(self.bindings@, action, r),
    {
        let ghost m0 = self.bindings@;
        for entry in it: self.bindings.iter()
            invariant
                self.bindings@ == m0,
                forall|k: usize| #[trigger] m0.contains_key(k) ==> exists|j: int|
                    0 <= j < it.seq().len() && #[trigger] it.seq()[j] == (&k, &m0[k]),
                forall|j: int| 0 <= j < it.index() ==> *(#[trigger] it.seq()[j]).1 != action,
                forall|j: int| 0 <= j < it.seq().len() ==> m0.contains_key(*(#[trigger] it.seq()[j]).0)
                    && m0[*it.seq()[j].0] == *it.seq()[j].1,
        {
            assert(entry == it.seq()[it.index() as int]);
            let (k, a) = entry;
            if *a == action {
                return Some(GamepadButton(*k));
            }
        }
        proof {
            assert forall|k: usize| m0.contains_key(k) implies m0[k] != action by {
                assert(m0.contains_key(k));
            }
        }
        None
    }

    /// Restore the built-in bindings.
    pub fn reset_to_defaults(&mut self)
        ensures
            final(self).bindings@ == default_bindings(),
    {
        *self = Self::default();
    }

    /// One row per action, in display order: the action and a button bound
    /// to it, if any.
    pub fn display_rows(&self) -> (rows: Vec<(Action, Option<GamepadButton>)>)
        ensures
            rows@.len() == all_actions().len(),
            forall|i: int| 0 <= i < rows@.len() ==> (#[trigger] rows@[i]).0 == all_actions()[i]
                && is_button_for(self.bindings@, rows@[i].0, rows@[i].1),
    {
        let all = Action::all();
        let mut rows: Vec<(Action, Option<GamepadButton>)> = Vec::new();
        let mut i: usize = 0;
        while i < all.len()
            invariant
                all@ == all_actions(),
                i <= all@.len(),
                rows@.len() == i,
                forall|j: int| 0 <= j < i ==> (#[trigger] rows@[j]).0 == all_actions()[j]
                    && is_button_for(self.bindings@, rows@[j].0, rows@[j].1),
            decreases all.len() - i,
        {
            let a = all[i];
            rows.push((a, self.button_for(a)));
            i = i + 1;
        }
        rows
    }

    fn remove_all(m: &mut HashMap<usize, Action>, keys: &Vec<usize>)
        ensures
            forall|k: usize| #[trigger] final(m)@.contains_key(k) <==> old(m)@.contains_key(k) && !keys@.contains(k),
            forall|k: usize| #[trigger] final(m)@.contains_key(k) ==> final(m)@[k] == old(m)@[k],
    {
        let ghost m0 = m@;
        let mut i: usize = 0;
        while i < keys.len()
            invariant
                i <= keys@.len(),
                forall|k: usize| #[trigger] m@.contains_key(k) <==> m0.contains_key(k) && !keys@.take(i as int).contains(k),
                forall|k: usize| #[trigger] m@.contains_key(k) ==> m@[k] == m0[k],
            decreases keys.len() - i,
        {
            let ghost before = m@;
            m.remove(&keys[i]);
            proof {
                assert forall|k: usize| m0.contains_key(k) && !keys@.take(i + 1).contains(k) implies #[trigger] m@.contains_key(k) by {
                    assert(!keys@.take(i as int).contains(k)) by {
                        if keys@.take(i as int).contains(k) {
                            let v = choose|v: int| 0 <= v < i && #[trigger] keys@.take(i as int)[v] == k;
                            assert(keys@.take(i + 1)[v] == k);
                        }
                    }
                    assert(k != keys@[i as int]) by {
                        assert(keys@.take(i + 1)[i as int] == keys@[i as int]);
                    }
                }
                assert forall|k: usize| #[trigger] m@.contains_key(k) implies !keys@.take(i + 1).contains(k) by {
                    if keys@.take(i + 1).contains(k) {
                        let v = choose|v: int| 0 <= v < i + 1 && #[trigger] keys@.take(i + 1)[v] == k;
                        if v < i {
                            assert(keys@.take(i as int)[v] == k);
                        }
                    }
                }
            }
            i = i + 1;
        }
        proof {
            assert(keys@.take(i as int) =~= keys@);
        }
    }
}

/// No two buttons are bound to the same action.
pub open spec fn one_button_per_action(m: Map<usize, Action>) -> bool {
    forall|j: usize, k: usize| #![trigger m[j], m[k]]
        m.contains_key(j) && m.contains_key(k) && m[j] == m[k] ==> j == k
}

/// The built-in bindings give each action at most one button.
pub proof fn lemma_defaults_one_button_per_action()
    ensures
        one_button_per_action(default_bindings()),
{
}

/// After binding `button` to `action`, `button` is the one button bound to
/// `action`, so a lookup of the action's button finds it; and bindings that
/// gave each action at most one button still do.
pub proof fn lemma_set_binding_one_button(m: Map<usize, Action>, button: usize, action: Action, r: Option<GamepadButton>)
    ensures
        without_action(m, action).insert(button, action).contains_key(button),
        without_action(m, action).insert(button, action)[button] == action,
        forall|k: usize| #[trigger] without_action(m, action).insert(button, action).contains_key(k)
            && without_action(m, action).insert(button, action)[k] == action ==> k == button,
        is_button_for(without_action(m, action).insert(button, action), action, r)
            ==> r == Some(GamepadButton(button)),
        one_button_per_action(m) ==> one_button_per_action(without_action(m, action).insert(button, action)),
{
    let n = without_action(m, action).insert(button, action);
    if is_button_for(n, action, r) {
        if r is None {
            assert(n.contains_key(button));
        }
    }
    if one_button_per_action(m) {
        assert forall|j: usize, k: usize| #![trigger n[j], n[k]]
            n.contains_key(j) && n.contains_key(k) && n[j] == n[k] implies j == k by {
            if j != button && k != button {
                assert(m[j] == n[j] && m[k] == n[k]);
            }
        }
    }
}

} // verus!
