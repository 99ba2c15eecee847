use pmanga::models::{build_library_entries, ChapterId, ChapterMeta, ChapterSource, LibraryEntry, MangaId};
use pmanga::ordering::sort_by_chapter_number;

fn make_chapter(id: &str, chapter_number: f32, tankobon_number: Option<u32>) -> ChapterMeta {
    ChapterMeta {
        id: ChapterId(id.to_string()),
        manga_id: MangaId("m1".to_string()),
        chapter_number_bits: chapter_number.to_bits(),
        tankobon_number,
        filename: format!("{}.cbz", id),
        page_count: 20,
        source: ChapterSource::Local,
        page_urls: vec![],
    }
}

fn ids(chs: &[ChapterMeta]) -> Vec<String> {
    chs.iter().map(|c| c.id.0.clone()).collect()
}

#[test]
fn test_all_lone_chapters() {
    let chapters = vec![
        make_chapter("c3", 3.0, None),
        make_chapter("c1", 1.0, None),
        make_chapter("c2", 2.0, None),
    ];
    let entries = build_library_entries(chapters);
    assert_eq!(entries.len(), 3);
    assert!(matches!(&entries[0], LibraryEntry::LoneChapter(c) if c.id.0 == "c1"));
    assert!(matches!(&entries[1], LibraryEntry::LoneChapter(c) if c.id.0 == "c2"));
    assert!(matches!(&entries[2], LibraryEntry::LoneChapter(c) if c.id.0 == "c3"));
}

#[test]
fn test_all_tankobon() {
    let chapters = vec![
        make_chapter("c2", 2.0, Some(1)),
        make_chapter("c1", 1.0, Some(1)),
        make_chapter("c3", 3.0, Some(2)),
    ];
    let entries = build_library_entries(chapters);
    assert_eq!(entries.len(), 2);
    match &entries[0] {
        LibraryEntry::Tankobon { number, chapters } => {
            assert_eq!(*number, 1);
            assert_eq!(chapters.len(), 2);
        }
        _ => panic!("expected Tankobon"),
    }
    match &entries[1] {
        LibraryEntry::Tankobon { number, chapters } => {
            assert_eq!(*number, 2);
            assert_eq!(chapters.len(), 1);
        }
        _ => panic!("expected Tankobon"),
    }
}

#[test]
fn test_interleaved() {
    let chapters = vec![
        make_chapter("c1", 1.0, Some(1)),
        make_chapter("c2", 2.0, Some(1)),
        make_chapter("c2_5", 2.5, None),
        make_chapter("c3", 3.0, Some(2)),
    ];
    let entries = build_library_entries(chapters);
    assert_eq!(entries.len(), 3);
    assert!(matches!(
        &entries[0],
        LibraryEntry::Tankobon { number: 1, .. }
    ));
    assert!(matches!(&entries[1], LibraryEntry::LoneChapter(c) if c.id.0 == "c2_5"));
    assert!(matches!(
        &entries[2],
        LibraryEntry::Tankobon { number: 2, .. }
    ));
}

#[test]
fn volume_chapters_come_out_sorted() {
    let chapters = vec![
        make_chapter("c2", 2.0, Some(1)),
        make_chapter("c1", 1.0, Some(1)),
    ];
    let entries = build_library_entries(chapters);
    match &entries[0] {
        LibraryEntry::Tankobon { chapters, .. } => assert_eq!(ids(chapters), vec!["c1", "c2"]),
        _ => panic!("expected Tankobon"),
    }
}

#[test]
fn volume_split_by_lone_chapter_gives_two_entries() {
    let chapters = vec![
        make_chapter("a", 1.0, Some(1)),
        make_chapter("b", 2.0, None),
        make_chapter("c", 3.0, Some(1)),
    ];
    let entries = build_library_entries(chapters);
    assert_eq!(entries.len(), 3);
    assert!(matches!(&entries[0], LibraryEntry::Tankobon { number: 1, chapters } if chapters.len() == 1));
    assert!(matches!(&entries[1], LibraryEntry::LoneChapter(c) if c.id.0 == "b"));
    assert!(matches!(&entries[2], LibraryEntry::Tankobon { number: 1, chapters } if chapters.len() == 1));
}

#[test]
fn empty_library_has_no_entries() {
    assert!(build_library_entries(vec![]).is_empty());
}

#[test]
fn flattening_entries_gives_sorted_chapters() {
    let chapters = vec![
        make_chapter("d", 4.0, Some(2)),
        make_chapter("a", 1.0, None),
        make_chapter("c", 3.0, Some(2)),
        make_chapter("b", 2.0, Some(1)),
    ];
    let entries = build_library_entries(chapters);
    let mut flat: Vec<String> = Vec::new();
    for e in &entries {
        match e {
            LibraryEntry::Tankobon { chapters, .. } => flat.extend(ids(chapters)),
            LibraryEntry::LoneChapter(c) => flat.push(c.id.0.clone()),
        }
    }
    assert_eq!(flat, vec!["a", "b", "c", "d"]);
}

#[test]
fn sort_is_stable_for_equal_numbers() {
    let chapters = vec![
        make_chapter("x", 2.0, None),
        make_chapter("y", 1.0, None),
        make_chapter("z", 2.0, None),
        make_chapter("w", 1.0, None),
    ];
    let sorted = sort_by_chapter_number(chapters);
    assert_eq!(ids(&sorted), vec!["y", "w", "x", "z"]);
}

#[test]
fn sort_puts_nan_last_and_negatives_first() {
    let chapters = vec![
        make_chapter("nan", f32::NAN, None),
        make_chapter("two", 2.0, None),
        make_chapter("neg", -1.0, None),
        make_chapter("zero", 0.0, None),
    ];
    let sorted = sort_by_chapter_number(chapters);
    assert_eq!(ids(&sorted), vec!["neg", "zero", "two", "nan"]);
}
