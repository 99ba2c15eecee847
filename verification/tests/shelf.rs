use pmanga::models::{ChapterId, ChapterMeta, ChapterSource, MangaId, ReadingProgress};
use pmanga::shelf::{checked_reading_totals, cover_source, reading_totals, CoverSource};

fn chapter(id: &str, number: f32, pages: u32, urls: &[&str]) -> ChapterMeta {
    ChapterMeta {
        id: ChapterId(id.to_string()),
        manga_id: MangaId("m".to_string()),
        chapter_number_bits: number.to_bits(),
        tankobon_number: None,
        filename: String::new(),
        page_count: pages,
        source: ChapterSource::Local,
        page_urls: urls.iter().map(|u| u.to_string()).collect(),
    }
}

fn progress(manga: &str, chapter: &str, page: usize) -> ReadingProgress {
    ReadingProgress { manga_id: MangaId(manga.to_string()), chapter_id: ChapterId(chapter.to_string()), page }
}

#[test]
fn totals_cap_each_chapter_and_skip_others() {
    let chapters = vec![chapter("a", 1.0, 10, &[]), chapter("b", 2.0, 5, &[])];
    let ps = vec![
        progress("m", "a", 3),
        progress("m", "b", 40),
        progress("other", "a", 2),
        progress("m", "gone", 1),
    ];
    assert_eq!(reading_totals(&MangaId("m".to_string()), &chapters, &ps), (4 + 5, 15));
}

#[test]
fn totals_of_empty_series() {
    assert_eq!(reading_totals(&MangaId("m".to_string()), &vec![], &vec![progress("m", "a", 0)]), (0, 0));
}

#[test]
fn cover_from_first_chapter_by_number() {
    let chapters = vec![
        chapter("b", 2.0, 1, &["u2"]),
        chapter("a", 1.0, 1, &["u1", "u1b"]),
        chapter("a2", 1.0, 1, &["other"]),
    ];
    assert!(matches!(cover_source(&chapters), CoverSource::Remote(u) if u == "u1"));
    let local = vec![chapter("b", 2.0, 1, &["u2"]), chapter("a", 1.0, 1, &[])];
    assert!(matches!(cover_source(&local), CoverSource::LocalFirstPage(id) if id.0 == "a"));
    assert!(matches!(cover_source(&vec![]), CoverSource::Fallback));
}

#[test]
fn checked_totals_refuse_overflow() {
    let m = MangaId("m".to_string());
    let big = vec![chapter("a", 1.0, u32::MAX, &[]), chapter("b", 2.0, 1, &[])];
    assert_eq!(checked_reading_totals(&m, &big, &vec![]), None);
    let chapters = vec![chapter("a", 1.0, 10, &[])];
    assert_eq!(checked_reading_totals(&m, &chapters, &vec![progress("m", "a", u32::MAX as usize)]), None);
    assert_eq!(checked_reading_totals(&m, &chapters, &vec![progress("x", "a", u32::MAX as usize)]), Some((0, 10)));
    assert_eq!(checked_reading_totals(&m, &chapters, &vec![progress("m", "a", 2)]), Some((3, 10)));
    let many = vec![chapter("a", 1.0, u32::MAX - 1, &[]), chapter("b", 2.0, 1, &[])];
    let mut ps = vec![progress("m", "a", (u32::MAX - 3) as usize), progress("m", "b", 0), progress("m", "b", 5)];
    assert_eq!(checked_reading_totals(&m, &many, &ps), Some((u32::MAX, u32::MAX)));
    ps.push(progress("m", "b", 0));
    assert_eq!(checked_reading_totals(&m, &many, &ps), None);
}

#[test]
fn oversized_saved_pages_never_exceed_the_total() {
    let chapters = vec![chapter("a", 1.0, 10, &[]), chapter("b", 2.0, 5, &[])];
    let ps = vec![progress("m", "a", 1_000), progress("m", "b", 1_000)];
    let (read, total) = reading_totals(&MangaId("m".to_string()), &chapters, &ps);
    assert_eq!((read, total), (15, 15));
}
