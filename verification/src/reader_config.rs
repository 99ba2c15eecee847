//! Reader preferences.

use vstd::prelude::*;

verus! {

/// Per-user reader preferences.
#[derive(Debug, Clone, Copy, PartialEq, Eq, Structural)]
pub struct ReaderConfig {
    /// When true the left tap zone turns to the next page (right-to-left
    /// reading); otherwise the left zone turns back.
    pub rtl_taps: bool,
    /// When true all pages of a chapter are shown in one vertical strip;
    /// otherwise one page at a time.
    pub vertical_scroll: bool,
}

impl Default for ReaderConfig {
    fn default() -> (c: Self)
        ensures
            !c.rtl_taps,
            !c.vertical_scroll,
    {
        ReaderConfig { rtl_taps: false, vertical_scroll: false }
    }
}

/// A region of the reader screen that reacts to taps.
#[derive(Debug, Clone, Copy, PartialEq, Eq, Structural)]
pub enum TapZone {
    /// The strip along the top edge.
    Top,
    /// The left third.
    Left,
    /// The middle third.
    Middle,
    /// The right third.
    Right,
}

/// What a tap does.
#[derive(Debug, Clone, Copy, PartialEq, Eq, Structural)]
pub enum TapAction {
    ToggleOverlay,
    NavigateForward,
    NavigateBackward,
    Nothing,
}

/// The effect of a tap in `zone` under the tap direction `rtl`.
pub open spec fn tap_effect(zone: TapZone, rtl: bool) -> TapAction {
    match zone {
        TapZone::Top => TapAction::ToggleOverlay,
        TapZone::Left => if rtl { TapAction::NavigateForward } else { TapAction::NavigateBackward },
        TapZone::Right => if rtl { TapAction::NavigateBackward } else { TapAction::NavigateForward },
        TapZone::Middle => TapAction::Nothing,
    }
}

impl ReaderConfig {
    /// The effect of a tap in `zone`: the top strip toggles the overlay, the
    /// side thirds turn pages (mirrored when `rtl_taps`), the middle does
    /// nothing.
    pub fn tap_action(&self, zone: TapZone) -> (a: TapAction)
        ensures
            a == tap_effect(zone, self.rtl_taps),
    {
        match zone {
            TapZone::Top => TapAction::ToggleOverlay,
            TapZone::Left => if self.rtl_taps { TapAction::NavigateForward } else { TapAction::NavigateBackward },
            TapZone::Right => if self.rtl_taps { TapAction::NavigateBackward } else { TapAction::NavigateForward },
            TapZone::Middle => TapAction::Nothing,
        }
    }
}

/// Mirroring: with right-to-left taps the two side zones swap their effects.
pub proof fn lemma_rtl_mirrors_sides()
    ensures
        tap_effect(TapZone::Left, true) == tap_effect(TapZone::Right, false),
        tap_effect(TapZone::Right, true) == tap_effect(TapZone::Left, false),
{
}

} // verus!
