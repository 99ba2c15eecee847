use pmanga::models::{MangaId, MangaMeta, MangaSource};
use pmanga::importer::{
    chapter_number_from, extract_after_keyword, extract_trailing_number, guess_chapter_number,
    guess_manga_name, import_row, matching_manga, proposed_chapter_number, stem_of, strip_chapter_suffix,
    strip_chapter_suffix_checked, suffix_cut_index, title_case, try_guess_manga_name,
};

#[test]
fn chapter_keyword_wins() {
    assert_eq!(guess_chapter_number("One Piece Chapter 12", 0), "12");
    assert_eq!(guess_chapter_number("Vol 2 chapter_3.5 extra 99", 0), "3.5");
}

#[test]
fn chapter_keyword_matches_any_case() {
    assert_eq!(guess_chapter_number("BLEACH CHAPTER 7", 0), "7");
    assert_eq!(guess_chapter_number("OP_CH.105.5", 0), "105.5");
}

#[test]
fn ch_abbreviation() {
    assert_eq!(guess_chapter_number("op_ch.105.5", 0), "105.5");
    assert_eq!(guess_chapter_number("ch.5.", 0), "5");
}

#[test]
fn trailing_number_fallback() {
    assert_eq!(guess_chapter_number("Naruto 700", 0), "700");
    assert_eq!(guess_chapter_number("vol1", 0), "1");
}

#[test]
fn position_fallback() {
    assert_eq!(guess_chapter_number("Berserk", 4), "5");
    assert_eq!(guess_chapter_number("Chapter", 0), "1");
    // A stem made only of digits has no separator before its number.
    assert_eq!(guess_chapter_number("12", 9), "10");
}

#[test]
fn chapter_number_from_takes_given_lower_form() {
    assert_eq!(chapter_number_from("chapter 4", "whatever 9", 0), "4");
    assert_eq!(chapter_number_from("nothing", "Nothing 9", 0), "9");
    assert_eq!(chapter_number_from("nothing", "Nothing", 10), "11");
}

#[test]
fn after_keyword_skips_unnumbered_matches() {
    assert_eq!(extract_after_keyword("chapter_x chapter.2", "chapter").as_deref(), Some("2"));
    assert_eq!(extract_after_keyword("chapter 1.x", "chapter").as_deref(), Some("1"));
    assert_eq!(extract_after_keyword("chapter 01.50", "chapter").as_deref(), Some("01.50"));
    assert_eq!(extract_after_keyword("chapter .", "chapter"), None);
    assert_eq!(extract_after_keyword("nothing here", "ch"), None);
}

#[test]
fn trailing_number_cases() {
    assert_eq!(extract_trailing_number("x12 - ").as_deref(), Some("12"));
    assert_eq!(extract_trailing_number("v1.2.3").as_deref(), Some("2.3"));
    assert_eq!(extract_trailing_number("abc."), None);
    assert_eq!(extract_trailing_number("abc"), None);
    assert_eq!(extract_trailing_number("123"), None);
    assert_eq!(extract_trailing_number("a.5").as_deref(), Some("5"));
}

#[test]
fn title_case_words() {
    assert_eq!(title_case("hello  wORLD"), "Hello WORLD");
    assert_eq!(title_case("  "), "");
    assert_eq!(title_case("ßtraße é"), "SStraße É");
}

#[test]
fn manga_name_from_filename() {
    assert_eq!(guess_manga_name("one_piece_ch_105.pdf"), "One Piece Ch 105");
    assert_eq!(guess_manga_name("Berserk Vol.12.pdf"), "Berserk");
    assert_eq!(guess_manga_name("my-manga - 03.pdf"), "My Manga");
    assert_eq!(guess_manga_name("Dragon Ball 42.pdf"), "Dragon Ball");
    assert_eq!(guess_manga_name("archive"), "Archive");
    assert_eq!(guess_manga_name("attack_on_titan_chapter 12.pdf"), "Attack On Titan");
    assert_eq!(guess_manga_name("attack_on_titan_chapter_12.pdf"), "Attack On Titan Chapter 12");
}

#[test]
fn stems() {
    assert_eq!(stem_of("a.b.pdf"), "a.b");
    assert_eq!(stem_of("noext"), "noext");
    assert_eq!(stem_of(".hidden"), "");
}

#[test]
fn suffix_stripping() {
    assert_eq!(strip_chapter_suffix("Dragon Ball 42"), "Dragon Ball");
    assert_eq!(strip_chapter_suffix("Dragon Ball"), "Dragon Ball");
    assert_eq!(strip_chapter_suffix("Bleach_ch.12 extra"), "Bleach_ch.12 extra");
    assert_eq!(strip_chapter_suffix("Bleach_ch.12"), "Bleach");
    assert_eq!(suffix_cut_index(b"Dragon Ball 42", b"dragon ball 42"), 11);
}

#[test]
fn suffix_cut_inside_a_character_is_refused() {
    // 'ẞ' lower-cases to the shorter 'ß', so the cut found in the lower-case
    // form falls inside 'é' of the given text.
    assert_eq!(strip_chapter_suffix_checked("ẞé ch1"), None);
    assert_eq!(try_guess_manga_name("ẞé ch1.pdf"), None);
    assert_eq!(strip_chapter_suffix_checked("One ch1"), Some("One"));
    assert_eq!(try_guess_manga_name("one ch1.pdf").as_deref(), Some("One"));
}

#[test]
fn import_rows() {
    assert_eq!(proposed_chapter_number("Vol 1 Chapter 3.pdf", 0), "3");
    assert_eq!(proposed_chapter_number("scan.pdf", 1), "2");
    let row = import_row("a.pdf".to_string(), "Name", "3".to_string(), Some(12), vec![1, 2]);
    assert_eq!(row.filename, "a.pdf");
    assert_eq!(row.manga_name, "Name");
    assert_eq!(row.chapter_number, "3");
    assert_eq!(row.tankobon_number, "12");
    assert_eq!(row.pdf_bytes, vec![1, 2]);
    let none = import_row("b.pdf".to_string(), "Name", "4".to_string(), None, vec![]);
    assert_eq!(none.tankobon_number, "");
}

#[test]
fn typed_volume_numbers() {
    let mut row = import_row("a.pdf".to_string(), "N", "1".to_string(), None, vec![]);
    assert_eq!(row.tankobon_value(), None);
    row.tankobon_number = "7".to_string();
    assert_eq!(row.tankobon_value(), Some(7));
    row.tankobon_number = "seven".to_string();
    assert_eq!(row.tankobon_value(), None);
}

#[test]
fn imported_chapters_join_a_series_by_title() {
    let manga = |id: &str, title: &str| MangaMeta {
        id: MangaId(id.to_string()),
        title: title.to_string(),
        mangadex_id: None,
        source: MangaSource::Local,
    };
    let existing = vec![manga("1", "Berserk"), manga("2", "One Piece"), manga("3", "ONE PIECE")];
    assert_eq!(matching_manga(&existing, "one piece"), Some(1));
    assert_eq!(matching_manga(&existing, "BERSERK"), Some(0));
    assert_eq!(matching_manga(&existing, "Naruto"), None);
    assert_eq!(matching_manga(&vec![], "x"), None);
}
