use pmanga::models::{ChapterId, ChapterMeta, ChapterSource, MangaId};
use pmanga::navigation::{
    current_chapter_index, current_chapter_pages, debounce_decision, page_turn_target, resolve_nav,
    NavDecision, DEBOUNCE_MS,
};

fn chapter(id: &str, pages: u32) -> ChapterMeta {
    ChapterMeta {
        id: ChapterId(id.to_string()),
        manga_id: MangaId("m1".to_string()),
        chapter_number_bits: 1.0f32.to_bits(),
        tankobon_number: None,
        filename: format!("{}.cbz", id),
        page_count: pages,
        source: ChapterSource::Local,
        page_urls: vec![],
    }
}

#[test]
fn same_page_for_mid_chapter_target() {
    assert_eq!(resolve_nav(3, 5, 1, 3), NavDecision::SamePage(3));
}

#[test]
fn same_page_for_first_page_of_chapter() {
    assert_eq!(resolve_nav(0, 5, 0, 1), NavDecision::SamePage(0));
}

#[test]
fn same_page_for_last_page_of_chapter() {
    assert_eq!(resolve_nav(4, 5, 0, 3), NavDecision::SamePage(4));
}

#[test]
fn next_chapter_when_target_equals_page_count() {
    assert_eq!(
        resolve_nav(3, 3, 0, 2),
        NavDecision::NextChapter { chapter_idx: 1 }
    );
}

#[test]
fn next_chapter_index_is_current_plus_one() {
    assert_eq!(
        resolve_nav(10, 5, 2, 5),
        NavDecision::NextChapter { chapter_idx: 3 }
    );
}

#[test]
fn clamp_forward_when_already_at_last_chapter() {
    assert_eq!(resolve_nav(5, 5, 0, 1), NavDecision::Clamp);
}

#[test]
fn clamp_forward_when_at_last_of_many_chapters() {
    assert_eq!(resolve_nav(10, 5, 3, 4), NavDecision::Clamp);
}

#[test]
fn previous_chapter_when_target_is_negative() {
    assert_eq!(
        resolve_nav(-1, 5, 2, 3),
        NavDecision::PreviousChapter { chapter_idx: 1 }
    );
}

#[test]
fn previous_chapter_index_is_current_minus_one() {
    assert_eq!(
        resolve_nav(-1, 3, 4, 5),
        NavDecision::PreviousChapter { chapter_idx: 3 }
    );
}

#[test]
fn clamp_backward_when_already_at_first_chapter() {
    assert_eq!(resolve_nav(-1, 5, 0, 3), NavDecision::Clamp);
}

#[test]
fn clamp_backward_when_only_one_chapter() {
    assert_eq!(resolve_nav(-1, 5, 0, 1), NavDecision::Clamp);
}

#[test]
fn empty_chapter_turns_to_next() {
    assert_eq!(resolve_nav(0, 0, 0, 2), NavDecision::NextChapter { chapter_idx: 1 });
}

#[test]
fn page_turn_back_lands_on_last_page_of_previous_chapter() {
    let chapters = vec![chapter("c1", 12), chapter("c2", 7)];
    let pos = page_turn_target(-1, "m1", "c2", 7, &chapters, 1).unwrap();
    assert_eq!(pos.manga_id, "m1");
    assert_eq!(pos.chapter_id, "c1");
    assert_eq!(pos.page, 11);
}

#[test]
fn page_turn_back_into_empty_chapter_lands_on_page_zero() {
    let chapters = vec![chapter("c1", 0), chapter("c2", 7)];
    let pos = page_turn_target(-1, "m1", "c2", 7, &chapters, 1).unwrap();
    assert_eq!(pos.chapter_id, "c1");
    assert_eq!(pos.page, 0);
}

#[test]
fn page_turn_forward_lands_on_first_page_of_next_chapter() {
    let chapters = vec![chapter("c1", 3), chapter("c2", 7)];
    let pos = page_turn_target(3, "m1", "c1", 3, &chapters, 0).unwrap();
    assert_eq!(pos.chapter_id, "c2");
    assert_eq!(pos.page, 0);
}

#[test]
fn page_turn_within_chapter_keeps_ids() {
    let chapters = vec![chapter("c1", 3), chapter("c2", 7)];
    let pos = page_turn_target(4, "m9", "c2", 7, &chapters, 1).unwrap();
    assert_eq!(pos.manga_id, "m9");
    assert_eq!(pos.chapter_id, "c2");
    assert_eq!(pos.page, 4);
}

#[test]
fn page_turn_clamped_at_ends() {
    let chapters = vec![chapter("c1", 3), chapter("c2", 7)];
    assert!(page_turn_target(-1, "m1", "c1", 3, &chapters, 0).is_none());
    assert!(page_turn_target(7, "m1", "c2", 7, &chapters, 1).is_none());
}

#[test]
fn current_chapter_index_finds_first_match() {
    let chapters = vec![chapter("a", 1), chapter("b", 1), chapter("b", 2)];
    assert_eq!(current_chapter_index(&chapters, "b"), 1);
    assert_eq!(current_chapter_index(&chapters, "a"), 0);
    assert_eq!(current_chapter_index(&chapters, "zz"), 0);
}

#[test]
fn current_chapter_pages_defaults_to_one() {
    let c = chapter("a", 17);
    assert_eq!(current_chapter_pages(Some(&c)), 17);
    assert_eq!(current_chapter_pages(None), 1);
}

#[test]
fn debounce_accepts_after_window_and_refuses_burst() {
    assert_eq!(DEBOUNCE_MS, 100);
    assert_eq!(debounce_decision(1_000, 0), (true, 1_000));
    assert_eq!(debounce_decision(1_050, 1_000), (false, 1_000));
    assert_eq!(debounce_decision(1_100, 1_000), (false, 1_000));
    assert_eq!(debounce_decision(1_101, 1_000), (true, 1_101));
    assert_eq!(debounce_decision(500, 1_000), (false, 1_000));
}
