use pmanga::proxy::{
    chapter_id_from_href, chapter_images_url, chapter_number_token, clean_series_title,
    extract_series_id, full_chapter_list_url, page_dimension,
};

fn parse_chapter_number(text: &str) -> Option<f32> {
    chapter_number_token(text).and_then(|t| t.parse::<f32>().ok())
}

#[test]
fn parse_chapter_number_standard_prefix() {
    assert_eq!(parse_chapter_number("Chapter 1"), Some(1.0));
    assert_eq!(parse_chapter_number("Chapter 42"), Some(42.0));
    assert_eq!(parse_chapter_number("Chapter 1.5"), Some(1.5));
}

#[test]
fn parse_chapter_number_non_standard_prefix() {
    assert_eq!(parse_chapter_number("Act 1"), Some(1.0));
    assert_eq!(parse_chapter_number("Episode 12"), Some(12.0));
    assert_eq!(parse_chapter_number("Part 3.5"), Some(3.5));
}

#[test]
fn parse_chapter_number_bare_number() {
    assert_eq!(parse_chapter_number("7"), Some(7.0));
    assert_eq!(parse_chapter_number("  100  "), Some(100.0));
}

#[test]
fn parse_chapter_number_no_number() {
    assert_eq!(parse_chapter_number("Chapter"), None);
    assert_eq!(parse_chapter_number(""), None);
    assert_eq!(parse_chapter_number("   "), None);
    assert_eq!(parse_chapter_number("Act One"), None);
}

#[test]
fn chapter_number_token_is_last_word() {
    assert_eq!(chapter_number_token("  Chapter \t 12  ").as_deref(), Some("12"));
    assert_eq!(chapter_number_token("one"), Some("one".to_string()));
    assert_eq!(chapter_number_token(" \n "), None);
}

#[test]
fn proxy_extracts_series_id() {
    assert_eq!(
        extract_series_id("https://weebcentral.com/series/01J76XY7E9FNDZ1DBBM6PBJPFK/one-piece").as_deref(),
        Some("01J76XY7E9FNDZ1DBBM6PBJPFK")
    );
    assert_eq!(extract_series_id("https://weebcentral.com//series//ABC").as_deref(), Some("ABC"));
    assert_eq!(extract_series_id("https://weebcentral.com/chapters/ABC"), None);
    assert_eq!(extract_series_id("https://example.com/series/ABC"), None);
    assert_eq!(extract_series_id("https://weebcentral.com/series"), None);
}

#[test]
fn chapter_id_is_last_path_segment() {
    assert_eq!(chapter_id_from_href("https://weebcentral.com/chapters/XYZ").as_deref(), Some("XYZ"));
    assert_eq!(chapter_id_from_href("/chapters/XYZ/").as_deref(), Some("XYZ"));
    assert_eq!(chapter_id_from_href("///"), None);
    assert_eq!(chapter_id_from_href(""), None);
}

#[test]
fn series_title_loses_site_suffix() {
    assert_eq!(clean_series_title("  One Piece | Weeb Central  "), "One Piece");
    assert_eq!(clean_series_title("Berserk - Weeb Central"), "Berserk");
    assert_eq!(clean_series_title("Plain"), "Plain");
    assert_eq!(clean_series_title("X | Weeb Central | Weeb Central"), "X");
}

#[test]
fn page_dimension_defaults_to_zero() {
    assert_eq!(page_dimension(Some("1200")), 1200);
    assert_eq!(page_dimension(Some("+7")), 7);
    assert_eq!(page_dimension(Some("12px")), 0);
    assert_eq!(page_dimension(Some("")), 0);
    assert_eq!(page_dimension(Some("4294967296")), 0);
    assert_eq!(page_dimension(None), 0);
}

#[test]
fn scrape_urls() {
    assert_eq!(full_chapter_list_url("ABC"), "https://weebcentral.com/series/ABC/full-chapter-list");
    assert_eq!(
        chapter_images_url("XYZ"),
        "https://weebcentral.com/chapters/XYZ/images?is_prev=False&current_page=1&reading_style=long_strip"
    );
}
