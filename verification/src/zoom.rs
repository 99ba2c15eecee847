//! Portrait zoom: a portrait page shown at twice the viewport width is read
//! in nine steps (three columns by three rows), right to left and top to
//! bottom.

use vstd::prelude::*;

verus! {

/// Index of a zoom step: 0 is top-right, 1 top-middle, 2 top-left,
/// 3 middle-right, and so on down to 8, bottom-left.
pub type PortraitQuadrant = u8;

/// The number of zoom steps on one page.
pub const PORTRAIT_QUADRANT_COUNT: PortraitQuadrant = 9;

/// Which horizontal slice of the doubled-width image is in view.
#[derive(Debug, Clone, Copy, PartialEq, Eq, Structural)]
pub enum NonetColumn {
    /// The right edge of the image meets the right edge of the viewport.
    Right,
    /// The image is centred: it overlaps both other columns.
    Middle,
    /// The left edge of the image meets the left edge of the viewport.
    Left,
}

/// Which vertical slice of the image is in view.
#[derive(Debug, Clone, Copy, PartialEq, Eq, Structural)]
pub enum NonetRow {
    /// The top edge of the image at the top of the viewport.
    Top,
    /// Half of the vertical overflow scrolled away.
    Middle,
    /// The bottom edge of the image at the bottom of the viewport.
    Bottom,
}

/// The column of step `q`: steps go right, middle, left within a row.
pub open spec fn column_of(q: int) -> NonetColumn {
    if q % 3 == 0 {
        NonetColumn::Right
    } else if q % 3 == 1 {
        NonetColumn::Middle
    } else {
        NonetColumn::Left
    }
}

/// The row of step `q`: three steps per row, rows top to bottom; every step
/// past the second row shows the bottom.
pub open spec fn row_of(q: int) -> NonetRow {
    if q / 3 == 0 {
        NonetRow::Top
    } else if q / 3 == 1 {
        NonetRow::Middle
    } else {
        NonetRow::Bottom
    }
}

/// The column shown at step `quadrant`.
pub fn nonet_column(quadrant: PortraitQuadrant) -> (c: NonetColumn)
    ensures
        c == column_of(quadrant as int),
{
    let m: u8 = quadrant % 3;
    if m == 0 {
        NonetColumn::Right
    } else if m == 1 {
        NonetColumn::Middle
    } else {
        NonetColumn::Left
    }
}

/// The row shown at step `quadrant`.
pub fn nonet_row(quadrant: PortraitQuadrant) -> (r: NonetRow)
    ensures
        r == row_of(quadrant as int),
{
    let d: u8 = quadrant / 3;
    if d == 0 {
        NonetRow::Top
    } else if d == 1 {
        NonetRow::Middle
    } else {
        NonetRow::Bottom
    }
}

/// The nine steps of a page show nine different parts of it: no two steps
/// share both row and column.
pub proof fn lemma_steps_are_distinct(a: int, b: int)
    requires
        0 <= a < PORTRAIT_QUADRANT_COUNT,
        0 <= b < PORTRAIT_QUADRANT_COUNT,
        a != b,
    ensures
        column_of(a) != column_of(b) || row_of(a) != row_of(b),
{
}

/// Reading order: the first step is the top-right corner, the last the
/// bottom-left, and each row is read right to left.
pub proof fn lemma_reading_order(q: int)
    requires
        0 <= q < PORTRAIT_QUADRANT_COUNT,
    ensures
        column_of(0) == NonetColumn::Right && row_of(0) == NonetRow::Top,
        column_of(8) == NonetColumn::Left && row_of(8) == NonetRow::Bottom,
        q % 3 != 2 ==> row_of(q + 1) == row_of(q),
        column_of(q) == NonetColumn::Right ==> column_of(q + 1) == NonetColumn::Middle,
        column_of(q) == NonetColumn::Middle ==> column_of(q + 1) == NonetColumn::Left,
{
}

} // verus!
