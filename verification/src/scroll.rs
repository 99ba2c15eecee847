//! Position tracking in the vertical-strip reading mode.

use vstd::prelude::*;
use crate::input::Action;

verus! {

/// Slack (in pixels) when deciding that the strip is at its top or bottom;
/// fractional pixel rounding can leave the scroll offset a few pixels short.
pub const SCROLL_BOUNDARY_THRESHOLD_PX: i32 = 8;

/// The strip is scrolled to its top.
pub fn is_at_top(scroll_top: i32) -> (r: bool)
    ensures
        r == (scroll_top <= SCROLL_BOUNDARY_THRESHOLD_PX),
{
    scroll_top <= SCROLL_BOUNDARY_THRESHOLD_PX
}

/// The strip is scrolled to its bottom.
pub fn is_at_bottom(scroll_top: i32, client_height: i32, scroll_height: i32) -> (r: bool)
    requires
        i32::MIN <= scroll_top + client_height <= i32::MAX,
        i32::MIN <= scroll_height - SCROLL_BOUNDARY_THRESHOLD_PX,
    ensures
        r == (scroll_top + client_height >= scroll_height - SCROLL_BOUNDARY_THRESHOLD_PX),
{
    scroll_top + client_height >= scroll_height - SCROLL_BOUNDARY_THRESHOLD_PX
}

/// Half of `h`, rounded toward zero.
pub open spec fn half_toward_zero(h: int) -> int {
    if h >= 0 { h / 2 } else { -((-h) / 2) }
}

/// Number of leading entries of `tops` that are at most `mid`.
pub open spec fn leading_at_most(tops: Seq<i32>, mid: int) -> int
    decreases tops.len(),
{
    if tops.len() == 0 {
        0
    } else if tops[0] <= mid {
        1 + leading_at_most(tops.drop_first(), mid)
    } else {
        0
    }
}

/// The visible page given the page tops: the last page whose top is at or
/// above the midpoint of the viewport (the first page when none is).
pub open spec fn visible_page_of(tops: Seq<i32>, mid: int) -> int {
    let n = leading_at_most(tops, mid);
    if n == 0 { 0 } else { n - 1 }
}

proof fn lemma_leading_bounds(tops: Seq<i32>, mid: int)
    ensures
        0 <= leading_at_most(tops, mid) <= tops.len(),
    decreases tops.len(),
{
    if tops.len() > 0 {
        lemma_leading_bounds(tops.drop_first(), mid);
    }
}

proof fn lemma_leading_step(tops: Seq<i32>, mid: int, i: int)
    requires
        0 <= i < tops.len(),
        forall|j: int| 0 <= j < i ==> tops[j] <= mid,
    ensures
        tops[i] <= mid ==> leading_at_most(tops, mid) >= i + 1,
        tops[i] > mid ==> leading_at_most(tops, mid) == i,
    decreases i,
{
    lemma_leading_bounds(tops.drop_first(), mid);
    if i > 0 {
        lemma_leading_step(tops.drop_first(), mid, i - 1);
    }
}

/// The page visible in the middle of the viewport, from the precomputed tops
/// of the page elements (ascending when the strip is laid out); `None` when
/// there are no pages.
pub fn visible_page(tops: &Vec<i32>, scroll_top: i32, client_height: i32) -> (r: Option<usize>)
    requires
        i32::MIN <= scroll_top + half_toward_zero(client_height as int) <= i32::MAX,
    ensures
        tops@.len() == 0 ==> r is None,
        tops@.len() > 0 ==> r == Some(visible_page_of(tops@,
            scroll_top + half_toward_zero(client_height as int)) as usize),
        r matches Some(p) ==> p < tops@.len(),
{
    if tops.len() == 0 {
        return None;
    }
    let mid: i32 = scroll_top + client_height / 2;
    assert(mid == scroll_top + half_toward_zero(client_height as int));
    let mut n: usize = 0;
    while n < tops.len() && tops[n] <= mid
        invariant
            n <= tops@.len(),
            forall|j: int| 0 <= j < n ==> tops@[j] <= mid,
        decreases tops.len() - n,
    {
        n = n + 1;
    }
    proof {
        lemma_leading_bounds(tops@, mid as int);
        if n < tops@.len() {
            lemma_leading_step(tops@, mid as int, n as int);
        } else {
            lemma_leading_step(tops@, mid as int, n - 1);
        }
    }
    if n == 0 {
        Some(0)
    } else {
        Some(n - 1)
    }
}

/// What an input action does in the vertical strip.
#[derive(Debug, Clone, Copy, PartialEq, Eq, Structural)]
pub enum StripMove {
    /// Go to the last page of the previous chapter.
    PreviousChapter,
    /// Go to the first page of the next chapter.
    NextChapter,
    /// Scroll up by one step.
    ScrollUp,
    /// Scroll down by one step.
    ScrollDown,
    /// Show or hide the overlay.
    ToggleOverlay,
    /// Leave the reader for the series' library.
    BackToLibrary,
    /// Nothing happens.
    Nothing,
}

/// The effect of `action` in the strip: page turns scroll by a step, and
/// cross into the neighbouring chapter once the strip is at its top or
/// bottom.
pub open spec fn strip_move(action: Action, at_top: bool, at_bottom: bool) -> StripMove {
    match action {
        Action::NextPage => if at_bottom { StripMove::NextChapter } else { StripMove::ScrollDown },
        Action::PreviousPage => if at_top { StripMove::PreviousChapter } else { StripMove::ScrollUp },
        Action::ToggleOverlay => StripMove::ToggleOverlay,
        Action::GoBack => StripMove::BackToLibrary,
        Action::Confirm => StripMove::Nothing,
    }
}

/// What `action` does in the strip, given whether it is at its top and at
/// its bottom.
pub fn strip_command(action: Action, at_top: bool, at_bottom: bool) -> (m: StripMove)
    ensures
        m == strip_move(action, at_top, at_bottom),
        action == Action::NextPage ==> (m == StripMove::NextChapter <==> at_bottom),
        action == Action::NextPage && !at_bottom ==> m == StripMove::ScrollDown,
        action == Action::PreviousPage ==> (m == StripMove::PreviousChapter <==> at_top),
        action == Action::PreviousPage && !at_top ==> m == StripMove::ScrollUp,
        (m == StripMove::NextChapter ==> action == Action::NextPage && at_bottom),
        (m == StripMove::PreviousChapter ==> action == Action::PreviousPage && at_top),
{
    match action {
        Action::NextPage => if at_bottom { StripMove::NextChapter } else { StripMove::ScrollDown },
        Action::PreviousPage => if at_top { StripMove::PreviousChapter } else { StripMove::ScrollUp },
        Action::ToggleOverlay => StripMove::ToggleOverlay,
        Action::GoBack => StripMove::BackToLibrary,
        Action::Confirm => StripMove::Nothing,
    }
}

/// Page turns in the strip: the next-page action enters the next chapter
/// exactly when the strip is at its bottom (wherever its top is) and
/// otherwise scrolls down; the previous-page action enters the previous
/// chapter exactly when the strip is at its top and otherwise scrolls up; no
/// other action changes chapter.
pub proof fn lemma_strip_turns_chapters_only_at_the_ends(action: Action, at_top: bool, at_bottom: bool)
    ensures
        action == Action::NextPage ==> (strip_move(action, at_top, at_bottom) == StripMove::NextChapter <==> at_bottom),
        action == Action::NextPage && !at_bottom ==> strip_move(action, at_top, at_bottom) == StripMove::ScrollDown,
        action == Action::PreviousPage ==> (strip_move(action, at_top, at_bottom) == StripMove::PreviousChapter
            <==> at_top),
        action == Action::PreviousPage && !at_top ==> strip_move(action, at_top, at_bottom) == StripMove::ScrollUp,
        strip_move(action, at_top, at_bottom) == StripMove::NextChapter ==> action == Action::NextPage && at_bottom,
        strip_move(action, at_top, at_bottom) == StripMove::PreviousChapter ==> action == Action::PreviousPage
            && at_top,
{
}

} // verus!
