//! Edge detection on gamepad buttons: a physical press fires its action once,
//! on press, not while held.

use std::collections::HashMap;
use vstd::prelude::*;
use crate::input::Action;
use crate::input::config::GamepadConfig;

verus! {

/// Whether `index` was down in the previous poll, according to `m`.
pub open spec fn was_down(m: Map<usize, bool>, index: usize) -> bool {
    m.contains_key(index) && m[index]
}

/// A poll that sees button `index` in state `now_pressed` fires its action.
pub open spec fn edge_fires(m: Map<usize, bool>, index: usize, now_pressed: bool) -> bool {
    now_pressed && !was_down(m, index)
}

/// Which buttons of one gamepad were down at the previous poll.
#[derive(Debug, Clone)]
pub struct ButtonState {
    pub pressed: HashMap<usize, bool>,
}

impl ButtonState {
    /// No button seen yet.
    pub fn new() -> (s: Self)
        ensures
            s.pressed@ == Map::<usize, bool>::empty(),
    {
        ButtonState { pressed: HashMap::new() }
    }

    /// Record the current state of button `index`; true exactly when it is a
    /// new press (up at the previous poll, down now).
    pub fn edge_press(&mut self, index: usize, now_pressed: bool) -> (fired: bool)
        ensures
            fired == edge_fires(old(self).pressed@, index, now_pressed),
            final(self).pressed@ == old(self).pressed@.insert(index, now_pressed),
    {
        let was_pressed = match self.pressed.get(&index) {
            Some(b) => *b,
            None => false,
        };
        self.pressed.insert(index, now_pressed);
        now_pressed && !was_pressed
    }
}

/// Holding a button down fires once: after a poll that saw it down, the next
/// poll that sees it down does not fire; releasing and pressing again fires.
pub proof fn lemma_held_button_fires_once(m: Map<usize, bool>, index: usize)
    ensures
        !edge_fires(m.insert(index, true), index, true),
        edge_fires(m.insert(index, false), index, true),
{
}

/// The button states recorded after a poll has seen the first `n` buttons
/// in the states `pressed`.
pub open spec fn after_poll(m: Map<usize, bool>, pressed: Seq<bool>, n: int) -> Map<usize, bool>
    decreases n,
{
    if n <= 0 {
        m
    } else {
        after_poll(m, pressed, n - 1).insert((n - 1) as usize, pressed[n - 1])
    }
}

/// The actions one poll fires, in button order: for each newly pressed
/// button (up at the previous poll, down now) that is bound, its action.
pub open spec fn poll_fired(m: Map<usize, bool>, pressed: Seq<bool>, bindings: Map<usize, Action>) -> Seq<Action>
    decreases pressed.len(),
{
    if pressed.len() == 0 {
        Seq::empty()
    } else {
        let k = pressed.len() - 1;
        poll_fired(m, pressed.drop_last(), bindings) + if edge_fires(m, k as usize, pressed[k])
            && bindings.contains_key(k as usize) {
            seq![bindings[k as usize]]
        } else {
            Seq::empty()
        }
    }
}

/// The first newly pressed button of a poll, if any.
pub open spec fn first_new_press(m: Map<usize, bool>, pressed: Seq<bool>) -> Option<int> {
    if exists|i: int| 0 <= i < pressed.len() && #[trigger] edge_fires(m, i as usize, pressed[i]) {
        Some(choose|i: int| 0 <= i < pressed.len() && #[trigger] edge_fires(m, i as usize, pressed[i])
            && forall|j: int| 0 <= j < i ==> !edge_fires(m, j as usize, pressed[j]))
    } else {
        None
    }
}

proof fn lemma_after_poll_keeps_later(m: Map<usize, bool>, pressed: Seq<bool>, n: int, k: int)
    requires
        0 <= n <= k,
        k < pressed.len(),
        pressed.len() <= usize::MAX,
    ensures
        was_down(after_poll(m, pressed, n), k as usize) == was_down(m, k as usize),
    decreases n,
{
    if n > 0 {
        lemma_after_poll_keeps_later(m, pressed, n - 1, k);
    }
}

proof fn lemma_poll_fired_prefix(m: Map<usize, bool>, pressed: Seq<bool>, bindings: Map<usize, Action>, n: int)
    requires
        0 <= n < pressed.len(),
    ensures
        poll_fired(m, pressed.take(n + 1), bindings) == poll_fired(m, pressed.take(n), bindings) + if edge_fires(
            m, n as usize, pressed[n]) && bindings.contains_key(n as usize) {
            seq![bindings[n as usize]]
        } else {
            Seq::<Action>::empty()
        },
{
    assert(pressed.take(n + 1).drop_last() =~= pressed.take(n));
}

/// One poll of a gamepad whose buttons are in the states `pressed` (by
/// button index): records every state and returns the actions fired.
pub fn poll_actions(config: &GamepadConfig, state: &mut ButtonState, pressed: &Vec<bool>) -> (fired: Vec<Action>)
    ensures
        fired@ == poll_fired(old(state).pressed@, pressed@, config.bindings@),
        final(state).pressed@ == after_poll(old(state).pressed@, pressed@, pressed@.len() as int),
{
    let ghost m0 = state.pressed@;
    let mut fired: Vec<Action> = Vec::new();
    let mut b: usize = 0;
    while b < pressed.len()
        invariant
            b <= pressed@.len(),
            state.pressed@ == after_poll(m0, pressed@, b as int),
            fired@ == poll_fired(m0, pressed@.take(b as int), config.bindings@),
        decreases pressed.len() - b,
    {
        proof {
            lemma_after_poll_keeps_later(m0, pressed@, b as int, b as int);
            lemma_poll_fired_prefix(m0, pressed@, config.bindings@, b as int);
        }
        if state.edge_press(b, pressed[b]) {
            if let Some(action) = config.action_for(b) {
                fired.push(action);
            }
        }
        proof {
            assert(fired@ =~= poll_fired(m0, pressed@.take(b + 1), config.bindings@));
        }
        b = b + 1;
    }
    proof {
        assert(pressed@.take(b as int) =~= pressed@);
    }
    fired
}

/// One poll while waiting for the user to press a button to bind: records
/// the states up to and including the first newly pressed button, and
/// returns that button.
pub fn next_pressed_button(state: &mut ButtonState, pressed: &Vec<bool>) -> (r: Option<usize>)
    ensures
        match r {
            Some(i) => first_new_press(old(state).pressed@, pressed@) == Some(i as int)
                && final(state).pressed@ == after_poll(old(state).pressed@, pressed@, i + 1),
            None => first_new_press(old(state).pressed@, pressed@) is None
                && final(state).pressed@ == after_poll(old(state).pressed@, pressed@, pressed@.len() as int),
        },
{
    let ghost m0 = state.pressed@;
    let mut b: usize = 0;
    while b < pressed.len()
        invariant
            b <= pressed@.len(),
            m0 == old(state).pressed@,
            state.pressed@ == after_poll(m0, pressed@, b as int),
            forall|j: int| 0 <= j < b ==> !#[trigger] edge_fires(m0, j as usize, pressed@[j]),
        decreases pressed.len() - b,
    {
        proof {
            lemma_after_poll_keeps_later(m0, pressed@, b as int, b as int);
        }
        if state.edge_press(b, pressed[b]) {
            proof {
                let p = pressed@;
                let bi = b as int;
                assert(edge_fires(m0, b as usize, p[bi]));
                assert(0 <= bi < p.len() && edge_fires(m0, bi as usize, p[bi])
                    && forall|j: int| 0 <= j < bi ==> !edge_fires(m0, j as usize, p[j]));
                let c = choose|i: int| 0 <= i < p.len() && #[trigger] edge_fires(m0, i as usize, p[i])
                    && forall|j: int| 0 <= j < i ==> !edge_fires(m0, j as usize, p[j]);
                if c < bi {
                    assert(!edge_fires(m0, c as usize, p[c]));
                }
                if c > bi {
                    assert(!edge_fires(m0, bi as usize, p[bi]));
                }
                assert(c == bi);
            }
            return Some(b);
        }
        b = b + 1;
    }
    None
}

proof fn lemma_after_poll_records(m: Map<usize, bool>, pressed: Seq<bool>, n: int, k: int)
    requires
        0 <= k < n <= pressed.len(),
        pressed.len() <= usize::MAX,
    ensures
        after_poll(m, pressed, n).contains_key(k as usize),
        after_poll(m, pressed, n)[k as usize] == pressed[k],
    decreases n,
{
    if k < n - 1 {
        lemma_after_poll_records(m, pressed, n - 1, k);
    }
}

impl ButtonState {
    /// The states of one sample of the buttons, recorded without firing
    /// anything: the baseline from which later polls detect presses, so that
    /// a button already held when the baseline is taken does not count as
    /// pressed.
    pub fn from_sample(pressed: &Vec<bool>) -> (s: Self)
        ensures
            s.pressed@ == after_poll(Map::<usize, bool>::empty(), pressed@, pressed@.len() as int),
    {
        let mut s = ButtonState::new();
        let mut b: usize = 0;
        while b < pressed.len()
            invariant
                b <= pressed@.len(),
                s.pressed@ == after_poll(Map::<usize, bool>::empty(), pressed@, b as int),
            decreases pressed.len() - b,
        {
            s.pressed.insert(b, pressed[b]);
            b = b + 1;
        }
        s
    }
}

/// After a baseline sample, a poll that sees the same states fires
/// nothing: only a button that goes from up to down is a press.
pub proof fn lemma_baseline_hides_held_buttons(pressed: Seq<bool>)
    requires
        pressed.len() <= usize::MAX,
    ensures
        first_new_press(after_poll(Map::<usize, bool>::empty(), pressed, pressed.len() as int), pressed) is None,
{
    let m = after_poll(Map::<usize, bool>::empty(), pressed, pressed.len() as int);
    assert forall|i: int| 0 <= i < pressed.len() implies !#[trigger] edge_fires(m, i as usize, pressed[i]) by {
        lemma_after_poll_records(Map::<usize, bool>::empty(), pressed, pressed.len() as int, i);
    }
}

} // verus!
