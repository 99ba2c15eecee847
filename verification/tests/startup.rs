use pmanga::models::LastOpened;
use pmanga::navigation::ReaderPosition;
use pmanga::startup::{
    clears_last_opened, forgets_reading, localhost_redirect, remembered_reading, shelf_mount, ShelfMount,
};

#[test]
fn loopback_address_is_redirected_to_localhost() {
    assert_eq!(
        localhost_redirect("http://127.0.0.1:8080/#/reader").as_deref(),
        Some("http://localhost:8080/#/reader")
    );
    assert_eq!(
        localhost_redirect("http://127.0.0.1/a?u=http://127.0.0.1").as_deref(),
        Some("http://localhost/a?u=http://127.0.0.1")
    );
    assert_eq!(localhost_redirect("http://localhost:8080/"), None);
    assert_eq!(localhost_redirect("127.0.0.1"), None);
}

fn pos(m: &str, c: &str, page: usize) -> ReaderPosition {
    ReaderPosition { manga_id: m.to_string(), chapter_id: c.to_string(), page }
}

#[test]
fn first_showing_reopens_the_last_page_read() {
    let kept = remembered_reading(None, LastOpened::Reader {
        manga_id: "m".to_string(),
        chapter_id: "c".to_string(),
        page: 7,
    });
    // Showing the library and then the shelf afterwards keeps the page.
    let kept = remembered_reading(kept, LastOpened::Library { manga_id: "m".to_string() });
    let kept = remembered_reading(kept, LastOpened::Shelf);
    let (done, action) = shelf_mount(false, kept);
    assert!(done);
    assert!(matches!(action, ShelfMount::OpenReader { manga_id, chapter_id, page: 7 }
        if manga_id == "m" && chapter_id == "c"));
}

#[test]
fn nothing_read_stays_on_the_shelf() {
    assert!(remembered_reading(None, LastOpened::Library { manga_id: "m".to_string() }).is_none());
    assert!(matches!(shelf_mount(false, None), (true, ShelfMount::Stay)));
}

#[test]
fn later_showings_record_the_shelf() {
    assert!(matches!(shelf_mount(true, Some(pos("m", "c", 7))), (true, ShelfMount::RecordShelf)));
    assert!(matches!(shelf_mount(true, None), (true, ShelfMount::RecordShelf)));
}

#[test]
fn a_newer_reader_position_replaces_the_kept_one() {
    let kept = remembered_reading(Some(pos("m", "c", 7)), LastOpened::Reader {
        manga_id: "n".to_string(),
        chapter_id: "d".to_string(),
        page: 2,
    })
    .unwrap();
    assert_eq!((kept.manga_id.as_str(), kept.chapter_id.as_str(), kept.page), ("n", "d", 2));
}

#[test]
fn deleting_a_series_clears_only_its_saved_place() {
    let reader = Some(LastOpened::Reader { manga_id: "m".to_string(), chapter_id: "c".to_string(), page: 0 });
    let library = Some(LastOpened::Library { manga_id: "m".to_string() });
    assert!(clears_last_opened(&reader, "m"));
    assert!(clears_last_opened(&library, "m"));
    assert!(!clears_last_opened(&reader, "other"));
    assert!(!clears_last_opened(&Some(LastOpened::Shelf), "m"));
    assert!(!clears_last_opened(&None, "m"));
}

#[test]
fn deleting_a_series_drops_its_kept_reading_position() {
    assert!(forgets_reading(&Some(pos("m", "c", 1)), "m"));
    assert!(!forgets_reading(&Some(pos("m", "c", 1)), "x"));
    assert!(!forgets_reading(&None, "m"));
}
