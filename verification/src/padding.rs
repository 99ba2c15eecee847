//! Cropping of white page borders, with per-chapter settings.

use vstd::prelude::*;

verus! {

/// Amounts (in pixels) cropped from each edge.
#[derive(Debug, Clone, Copy, PartialEq, Eq, Structural)]
pub struct Padding {
    pub up: i32,
    pub down: i32,
    pub left: i32,
    pub right: i32,
}

impl Default for Padding {
    fn default() -> (p: Self)
        ensures
            p == (Padding { up: 0, down: 0, left: 0, right: 0 }),
    {
        Padding { up: 0, down: 0, left: 0, right: 0 }
    }
}

/// The field-wise sum of two paddings does not overflow.
pub open spec fn add_fits(a: Padding, b: Padding) -> bool {
    &&& i32::MIN <= a.up + b.up <= i32::MAX
    &&& i32::MIN <= a.down + b.down <= i32::MAX
    &&& i32::MIN <= a.left + b.left <= i32::MAX
    &&& i32::MIN <= a.right + b.right <= i32::MAX
}

/// Largest of `v` and zero.
pub open spec fn clamp_non_negative(v: int) -> int {
    if v < 0 { 0 } else { v }
}

impl Padding {
    /// Field-wise sum.
    pub fn add(&self, other: &Padding) -> (r: Padding)
        requires
            add_fits(*self, *other),
        ensures
            r.up == self.up + other.up,
            r.down == self.down + other.down,
            r.left == self.left + other.left,
            r.right == self.right + other.right,
    {
        Padding {
            up: self.up + other.up,
            down: self.down + other.down,
            left: self.left + other.left,
            right: self.right + other.right,
        }
    }

    /// Every edge is zero.
    pub fn is_zero(&self) -> (r: bool)
        ensures
            r == (self.up == 0 && self.down == 0 && self.left == 0 && self.right == 0),
    {
        self.up == 0 && self.down == 0 && self.left == 0 && self.right == 0
    }
}

/// Per-chapter padding: one general part for all pages, plus a part for odd
/// and a part for even pages that add to it.
#[derive(Debug, Clone, Copy, PartialEq, Eq, Structural)]
pub struct ChapterPadding {
    /// Applied to all pages.
    pub general: Padding,
    /// Added on odd pages (1, 3, 5, … counting from one).
    pub odd: Padding,
    /// Added on even pages (2, 4, 6, … counting from one).
    pub even: Padding,
}

impl Default for ChapterPadding {
    fn default() -> (p: Self)
        ensures
            p.general == (Padding { up: 0, down: 0, left: 0, right: 0 }),
            p.odd == (Padding { up: 0, down: 0, left: 0, right: 0 }),
            p.even == (Padding { up: 0, down: 0, left: 0, right: 0 }),
    {
        ChapterPadding { general: Padding::default(), odd: Padding::default(), even: Padding::default() }
    }
}

/// The page-specific part for the 0-based page index `page`: page 0 is the
/// first (odd) page.
pub open spec fn page_part(cp: ChapterPadding, page: int) -> Padding {
    if page % 2 == 0 { cp.odd } else { cp.even }
}

/// The padding of a chapter can be summed for every page without overflow.
pub open spec fn chapter_padding_fits(cp: ChapterPadding) -> bool {
    add_fits(cp.general, cp.odd) && add_fits(cp.general, cp.even)
}

impl ChapterPadding {
    /// Effective padding of the 0-based page `page`: the general part plus
    /// the odd or even part, each edge clamped to be non-negative.
    pub fn effective_for_page(&self, page: usize) -> (r: Padding)
        requires
            chapter_padding_fits(*self),
        ensures
            r.up == clamp_non_negative(self.general.up + page_part(*self, page as int).up),
            r.down == clamp_non_negative(self.general.down + page_part(*self, page as int).down),
            r.left == clamp_non_negative(self.general.left + page_part(*self, page as int).left),
            r.right == clamp_non_negative(self.general.right + page_part(*self, page as int).right),
    {
        let is_odd = page % 2 == 0;
        let raw = if is_odd {
            self.general.add(&self.odd)
        } else {
            self.general.add(&self.even)
        };
        Padding {
            up: if raw.up < 0 { 0 } else { raw.up },
            down: if raw.down < 0 { 0 } else { raw.down },
            left: if raw.left < 0 { 0 } else { raw.left },
            right: if raw.right < 0 { 0 } else { raw.right },
        }
    }

    /// All three parts are zero.
    pub fn is_zero(&self) -> (r: bool)
        ensures
            r == (self.general.is_zero_spec() && self.odd.is_zero_spec() && self.even.is_zero_spec()),
    {
        self.general.is_zero() && self.odd.is_zero() && self.even.is_zero()
    }
}

impl Padding {
    /// Every edge is zero.
    pub open spec fn is_zero_spec(&self) -> bool {
        self.up == 0 && self.down == 0 && self.left == 0 && self.right == 0
    }
}

/// Storage key of a chapter's padding settings.
pub open spec fn padding_key(chapter_id: Seq<char>) -> Seq<char> {
    "pmanga_padding_"@ + chapter_id
}

/// Storage key of a chapter's padding settings.
pub fn storage_key(chapter_id: &str) -> (k: String)
    ensures
        k@ == padding_key(chapter_id@),
{
    let prefix = "pmanga_padding_".to_owned();
    prefix.concat(chapter_id)
}

/// A zero padding crops nothing: every page's effective padding is zero.
pub proof fn lemma_zero_padding_crops_nothing(cp: ChapterPadding, page: int)
    requires
        cp.general.is_zero_spec(),
        cp.odd.is_zero_spec(),
        cp.even.is_zero_spec(),
    ensures
        clamp_non_negative(cp.general.up + page_part(cp, page).up) == 0,
        clamp_non_negative(cp.general.down + page_part(cp, page).down) == 0,
        clamp_non_negative(cp.general.left + page_part(cp, page).left) == 0,
        clamp_non_negative(cp.general.right + page_part(cp, page).right) == 0,
{
}

} // verus!
