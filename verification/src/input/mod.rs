//! Abstract input actions.  Every input source (touch, mouse, gamepad) maps
//! into these actions.

use vstd::prelude::*;

pub mod config;
pub mod gamepad;

verus! {

/// An abstract user action.
#[derive(Debug, Clone, Copy, PartialEq, Eq, Hash, Structural)]
pub enum Action {
    NextPage,
    PreviousPage,
    ToggleOverlay,
    GoBack,
    Confirm,
}

/// Every action, in display order.
pub open spec fn all_actions() -> Seq<Action> {
    seq![Action::NextPage, Action::PreviousPage, Action::ToggleOverlay, Action::GoBack, Action::Confirm]
}

/// Display label of an action.
pub open spec fn action_label(a: Action) -> Seq<char> {
    match a {
        Action::NextPage => "Next Page"@,
        Action::PreviousPage => "Previous Page"@,
        Action::ToggleOverlay => "Toggle Info Overlay"@,
        Action::GoBack => "Go Back"@,
        Action::Confirm => "Confirm"@,
    }
}

impl Action {
    /// Every action, in display order.
    pub fn all() -> (r: &'static [Action])
        ensures
            r@ == all_actions(),
    {
        let r: &'static [Action] = &[
            Action::NextPage,
            Action::PreviousPage,
            Action::ToggleOverlay,
            Action::GoBack,
            Action::Confirm,
        ];
        assert(r@ =~= all_actions());
        r
    }

    /// Human-readable label.
    pub fn label(&self) -> (s: &'static str)
        ensures
            s@ == action_label(*self),
    {
        match self {
            Action::NextPage => "Next Page",
            Action::PreviousPage => "Previous Page",
            Action::ToggleOverlay => "Toggle Info Overlay",
            Action::GoBack => "Go Back",
            Action::Confirm => "Confirm",
        }
    }
}

} // verus!
