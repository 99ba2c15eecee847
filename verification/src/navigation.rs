//! Reader navigation across chapter boundaries.

use vstd::prelude::*;
use crate::models::ChapterMeta;
use crate::text::str_equal;

verus! {

/// Minimum milliseconds between two accepted navigations.
pub const DEBOUNCE_MS: u64 = 100;

/// Whether a navigation requested at `now_ms` passes the debounce, given the
/// time `last_ms` of the last accepted one: more than `DEBOUNCE_MS` must lie
/// between them.
pub open spec fn debounce_passes(now_ms: int, last_ms: int) -> bool {
    now_ms - last_ms > DEBOUNCE_MS
}

/// One step of the navigation debounce: whether the request at `now_ms` is
/// accepted, and the time of the last accepted navigation afterwards (moved
/// to `now_ms` only when the request is accepted).
pub fn debounce_decision(now_ms: u64, last_ms: u64) -> (r: (bool, u64))
    ensures
        r.0 == debounce_passes(now_ms as int, last_ms as int),
        r.1 == (if r.0 { now_ms } else { last_ms }),
{
    if now_ms > last_ms && now_ms - last_ms > DEBOUNCE_MS {
        (true, now_ms)
    } else {
        (false, last_ms)
    }
}

/// A navigation accepted at `t` moves the timer to `t`, so every request at
/// `t` or within the debounce window after it is refused.
pub proof fn lemma_debounce_refuses_burst(last: u64, t: u64, later: u64)
    requires
        debounce_passes(t as int, last as int),
        t <= later <= t + DEBOUNCE_MS,
    ensures
        !debounce_passes(later as int, t as int),
{
}

/// The outcome of a page-turn request at a chapter boundary.
#[derive(Debug, PartialEq, Eq, Structural, Clone, Copy)]
pub enum NavDecision {
    /// Stay in the same chapter and show this page.
    SamePage(usize),
    /// Jump to the chapter at `chapter_idx`, landing on its last page.
    PreviousChapter { chapter_idx: usize },
    /// Jump to the chapter at `chapter_idx`, landing on its first page.
    NextChapter { chapter_idx: usize },
    /// Already at the first or last chapter: nothing happens.
    Clamp,
}

/// What a request for `target_page` in chapter `current_chapter_idx` (of
/// `chapter_count`, the current one holding `chapter_pages` pages) leads to.
pub open spec fn nav_outcome(
    target_page: int,
    chapter_pages: int,
    current_chapter_idx: int,
    chapter_count: int,
) -> NavDecision {
    if target_page < 0 {
        if current_chapter_idx == 0 {
            NavDecision::Clamp
        } else {
            NavDecision::PreviousChapter { chapter_idx: (current_chapter_idx - 1) as usize }
        }
    } else if target_page >= chapter_pages {
        if current_chapter_idx + 1 >= chapter_count {
            NavDecision::Clamp
        } else {
            NavDecision::NextChapter { chapter_idx: (current_chapter_idx + 1) as usize }
        }
    } else {
        NavDecision::SamePage(target_page as usize)
    }
}

/// Decide where a request for `target_page` leads, without touching any
/// router or storage.
pub fn resolve_nav(
    target_page: isize,
    chapter_pages: u32,
    current_chapter_idx: usize,
    chapter_count: usize,
) -> (d: NavDecision)
    ensures
        d == nav_outcome(
            target_page as int,
            chapter_pages as int,
            current_chapter_idx as int,
            chapter_count as int,
        ),
{
    if target_page < 0 {
        if current_chapter_idx == 0 {
            NavDecision::Clamp
        } else {
            NavDecision::PreviousChapter { chapter_idx: current_chapter_idx - 1 }
        }
    } else if target_page as usize >= chapter_pages as usize {
        if current_chapter_idx >= chapter_count || chapter_count - current_chapter_idx <= 1 {
            NavDecision::Clamp
        } else {
            NavDecision::NextChapter { chapter_idx: current_chapter_idx + 1 }
        }
    } else {
        NavDecision::SamePage(target_page as usize)
    }
}

/// A reading position to navigate to.
#[derive(Debug, Clone)]
pub struct ReaderPosition {
    pub manga_id: String,
    pub chapter_id: String,
    pub page: usize,
}

/// The last page of a chapter with `page_count` pages (0 when it has none).
pub open spec fn last_page_of(page_count: u32) -> usize {
    if page_count == 0 { 0 } else { (page_count - 1) as usize }
}

/// Where a page turn to `target_page` lands: the target page in the current
/// chapter, the last page of the previous chapter, the first page of the
/// next chapter, or nowhere at the first or last chapter.
pub open spec fn page_turn_landing(
    target_page: int,
    manga_id: Seq<char>,
    chapter_id: Seq<char>,
    chapter_pages: int,
    all_chapters: Seq<ChapterMeta>,
    current_chapter_idx: int,
) -> Option<(Seq<char>, Seq<char>, usize)> {
    match nav_outcome(target_page, chapter_pages, current_chapter_idx, all_chapters.len() as int) {
        NavDecision::PreviousChapter { chapter_idx } => Some((
            all_chapters[chapter_idx as int].manga_id.0@,
            all_chapters[chapter_idx as int].id.0@,
            last_page_of(all_chapters[chapter_idx as int].page_count),
        )),
        NavDecision::NextChapter { chapter_idx } => Some((
            all_chapters[chapter_idx as int].manga_id.0@,
            all_chapters[chapter_idx as int].id.0@,
            0usize,
        )),
        NavDecision::SamePage(p) => Some((manga_id, chapter_id, p)),
        NavDecision::Clamp => None,
    }
}

/// Where a page turn to `target_page` leads, crossing chapter boundaries;
/// `None` when it is clamped at the first or last chapter.
pub fn page_turn_target(
    target_page: isize,
    manga_id: &str,
    chapter_id: &str,
    chapter_pages: u32,
    all_chapters: &Vec<ChapterMeta>,
    current_chapter_idx: usize,
) -> (r: Option<ReaderPosition>)
    requires
        target_page < 0 && current_chapter_idx > 0 ==> current_chapter_idx <= all_chapters@.len(),
    ensures
        match (r, page_turn_landing(target_page as int, manga_id@, chapter_id@, chapter_pages as int,
            all_chapters@, current_chapter_idx as int)) {
            (Some(pos), Some((m, c, p))) => pos.manga_id@ == m && pos.chapter_id@ == c && pos.page == p,
            (None, None) => true,
            _ => false,
        },
{
    match resolve_nav(target_page, chapter_pages, current_chapter_idx, all_chapters.len()) {
        NavDecision::PreviousChapter { chapter_idx } => {
            let prev = &all_chapters[chapter_idx];
            let last_page: usize = if prev.page_count == 0 { 0 } else { (prev.page_count - 1) as usize };
            Some(ReaderPosition {
                manga_id: prev.manga_id.0.clone(),
                chapter_id: prev.id.0.clone(),
                page: last_page,
            })
        },
        NavDecision::NextChapter { chapter_idx } => {
            let next = &all_chapters[chapter_idx];
            Some(ReaderPosition { manga_id: next.manga_id.0.clone(), chapter_id: next.id.0.clone(), page: 0 })
        },
        NavDecision::SamePage(target) => Some(ReaderPosition {
            manga_id: manga_id.to_owned(),
            chapter_id: chapter_id.to_owned(),
            page: target,
        }),
        NavDecision::Clamp => None,
    }
}

/// Index of the current chapter among `chapters` (0 when it is not there).
pub fn current_chapter_index(chapters: &Vec<ChapterMeta>, chapter_id: &str) -> (i: usize)
    ensures
        (exists|k: int| 0 <= k < chapters@.len() && chapters@[k].id.0@ == chapter_id@) ==> {
            &&& i < chapters@.len()
            &&& chapters@[i as int].id.0@ == chapter_id@
            &&& forall|j: int| 0 <= j < i ==> chapters@[j].id.0@ != chapter_id@
        },
        !(exists|k: int| 0 <= k < chapters@.len() && chapters@[k].id.0@ == chapter_id@) ==> i == 0,
{
    let mut i: usize = 0;
    while i < chapters.len()
        invariant
            i <= chapters@.len(),
            forall|j: int| 0 <= j < i ==> chapters@[j].id.0@ != chapter_id@,
        decreases chapters.len() - i,
    {
        if str_equal(chapters[i].id.0.as_str(), chapter_id) {
            return i;
        }
        i = i + 1;
    }
    0
}

/// Page count of the current chapter, or 1 while it is unknown.
pub fn current_chapter_pages(chapter: Option<&ChapterMeta>) -> (n: u32)
    ensures
        n == match chapter {
            Some(c) => c.page_count,
            None => 1,
        },
{
    match chapter {
        Some(c) => c.page_count,
        None => 1,
    }
}

} // verus!
