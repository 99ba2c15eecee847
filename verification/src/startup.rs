//! Start-up: the app must run on `localhost`, which MangaDex's CORS policy
//! allows, and not on `127.0.0.1`, which it does not; on its first showing
//! in a session the shelf reopens the last page the user had open in the reader.

use vstd::prelude::*;
use crate::models::LastOpened;
use crate::navigation::ReaderPosition;
use crate::text::{chars_of, find_seq, first_occurrence, lemma_first_occurrence, str_equal, string_of_range};

verus! {

/// The address to reload at instead of `href`: its first `//127.0.0.1`
/// replaced by `//localhost`; `None` when it has none and can stay.
pub open spec fn localhost_address(href: Seq<char>) -> Option<Seq<char>> {
    match first_occurrence(href, "//127.0.0.1"@) {
        Some(p) => Some(href.take(p) + "//localhost"@ + href.skip(p + "//127.0.0.1"@.len())),
        None => None,
    }
}

/// The address to redirect to when the page was opened through
/// `127.0.0.1` (see `localhost_address`).
pub fn localhost_redirect(href: &str) -> (r: Option<String>)
    ensures
        match r {
            Some(u) => localhost_address(href@) == Some(u@),
            None => localhost_address(href@) is None,
        },
{
    let cs = chars_of(href);
    let pat = chars_of("//127.0.0.1");
    match find_seq(&cs, &pat) {
        None => None,
        Some(p) => {
            proof { lemma_first_occurrence(cs@, pat@); }
            let n = cs.len();
            let head = string_of_range(&cs, 0, p);
            let tail = string_of_range(&cs, p + pat.len(), n);
            proof {
                assert(cs@.subrange(0, p as int) =~= cs@.take(p as int));
                assert(cs@.subrange(p + pat@.len(), n as int) =~= cs@.skip(p + pat@.len()));
            }
            Some(head.concat("//localhost").concat(tail.as_str()))
        },
    }
}

/// The reading position kept for the start-up resume after the place
/// `opened` is shown: a reader position replaces it; the shelf or a library
/// leaves it as it was, so the last page read is never lost.
pub open spec fn remembered_after(previous: Option<ReaderPosition>, opened: LastOpened) -> Option<ReaderPosition> {
    match opened {
        LastOpened::Reader { manga_id, chapter_id, page } => Some(ReaderPosition { manga_id, chapter_id, page }),
        _ => previous,
    }
}

/// The reading position to keep for the start-up resume once `opened` is
/// shown (see `remembered_after`).
pub fn remembered_reading(previous: Option<ReaderPosition>, opened: LastOpened) -> (r: Option<ReaderPosition>)
    ensures
        r == remembered_after(previous, opened),
{
    match opened {
        LastOpened::Reader { manga_id, chapter_id, page } => Some(ReaderPosition { manga_id, chapter_id, page }),
        LastOpened::Library { .. } => previous,
        LastOpened::Shelf => previous,
    }
}

/// What the shelf does when it is shown.
#[derive(Debug, Clone)]
pub enum ShelfMount {
    /// Open the reader at this position.
    OpenReader { manga_id: String, chapter_id: String, page: usize },
    /// Stay on the shelf.
    Stay,
    /// Stay on the shelf and save it as the last place opened.
    RecordShelf,
}

/// The shelf's action on being shown: on its first showing in a session
/// (`redirect_done` false) it opens the last page the user had open in the
/// reader, and stays when nothing has been read; on every later showing it
/// records itself as the last place opened.
pub open spec fn shelf_mount_action(redirect_done: bool, last_read: Option<ReaderPosition>) -> ShelfMount {
    if redirect_done {
        ShelfMount::RecordShelf
    } else {
        match last_read {
            Some(p) => ShelfMount::OpenReader { manga_id: p.manga_id, chapter_id: p.chapter_id, page: p.page },
            None => ShelfMount::Stay,
        }
    }
}

/// One showing of the shelf, given the last reading position kept (see
/// `remembered_reading`): the session's redirect flag afterwards (set from
/// now on) and what the shelf does (see `shelf_mount_action`).
pub fn shelf_mount(redirect_done: bool, last_read: Option<ReaderPosition>) -> (r: (bool, ShelfMount))
    ensures
        r.0,
        r.1 == shelf_mount_action(redirect_done, last_read),
{
    if redirect_done {
        return (true, ShelfMount::RecordShelf);
    }
    let action = match last_read {
        Some(p) => ShelfMount::OpenReader { manga_id: p.manga_id, chapter_id: p.chapter_id, page: p.page },
        None => ShelfMount::Stay,
    };
    (true, action)
}

/// Start-up behaviour: once the user has read something, the first showing
/// of a session opens the last reader page they had open, whatever library
/// or shelf was shown after it; with nothing read it stays on the shelf; the
/// flag it leaves makes every later showing record the shelf.
pub proof fn lemma_resume_last_page(
    previous: Option<ReaderPosition>,
    manga_id: String,
    chapter_id: String,
    page: usize,
    later: Seq<LastOpened>,
)
    requires
        forall|i: int| 0 <= i < later.len() ==> !(#[trigger] later[i] is Reader),
    ensures
        shelf_mount_action(false, later.fold_left(
            remembered_after(previous, LastOpened::Reader { manga_id, chapter_id, page }),
            |k: Option<ReaderPosition>, o: LastOpened| remembered_after(k, o),
        )) == (ShelfMount::OpenReader { manga_id, chapter_id, page }),
        shelf_mount_action(false, None) is Stay,
        shelf_mount_action(true, previous) is RecordShelf,
    decreases later.len(),
{
    if later.len() > 0 {
        lemma_resume_last_page(previous, manga_id, chapter_id, page, later.drop_last());
        assert(later.drop_last().len() < later.len());
        assert(!(later.last() is Reader));
    }
}

/// The saved last position refers to the series `manga_id` (its library or
/// a chapter of it).
pub open spec fn refers_to_manga(saved: Option<LastOpened>, manga_id: Seq<char>) -> bool {
    match saved {
        Some(LastOpened::Library { manga_id: m }) => m@ == manga_id,
        Some(LastOpened::Reader { manga_id: m, .. }) => m@ == manga_id,
        _ => false,
    }
}

/// Whether deleting the series `manga_id` clears the saved last position:
/// exactly when that position is in the series.
pub fn clears_last_opened(saved: &Option<LastOpened>, manga_id: &str) -> (r: bool)
    ensures
        r == refers_to_manga(*saved, manga_id@),
{
    match saved {
        Some(LastOpened::Library { manga_id: m }) => str_equal(m.as_str(), manga_id),
        Some(LastOpened::Reader { manga_id: m, .. }) => str_equal(m.as_str(), manga_id),
        _ => false,
    }
}

/// Whether deleting the series `manga_id` drops the kept reading position:
/// exactly when that position is in the series.
pub fn forgets_reading(last_read: &Option<ReaderPosition>, manga_id: &str) -> (r: bool)
    ensures
        r == (last_read matches Some(p) && p.manga_id@ == manga_id@),
{
    match last_read {
        Some(p) => str_equal(p.manga_id.as_str(), manga_id),
        None => false,
    }
}

} // verus!
