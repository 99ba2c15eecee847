//! Text handling of the WeebCentral proxy: recognising series URLs, chapter
//! numbers and chapter ids in the scraped pages, and the page URLs it
//! requests.

use vstd::prelude::*;
use crate::text::{
    chars_of, find_seq, first_occurrence, lemma_first_occurrence, occurs_at, parse_u32_range,
    parse_u32_spec, part_bounds, parts, str_equal, string_of_range, strip_suffixes,
    strip_suffixes_end, sub_vec, trim, trim_bounds, Separator,
};

verus! {

/// The whitespace-separated token that ends `text` (after trimming): the
/// text a chapter number is read from, as in "Chapter 1.5".
pub open spec fn last_word(text: Seq<char>) -> Option<Seq<char>> {
    let ws = parts(trim(text), Separator::Whitespace);
    if ws.len() == 0 { None } else { Some(ws.last()) }
}

/// The last whitespace-separated token of `text`; the chapter number is
/// this token read as a number.
pub fn chapter_number_token(text: &str) -> (r: Option<String>)
    ensures
        match r {
            Some(t) => last_word(text@) == Some(t@),
            None => last_word(text@) is None,
        },
{
    let cs = chars_of(text);
    let n = cs.len();
    let (a, b) = trim_bounds(&cs, 0, n);
    proof { assert(cs@.subrange(0, n as int) =~= cs@); }
    let bounds = part_bounds(&cs, a, b, Separator::Whitespace);
    if bounds.len() == 0 {
        None
    } else {
        let (x, y) = bounds[bounds.len() - 1];
        Some(string_of_range(&cs, x, y))
    }
}

/// The text between the first occurrence of `pat` and the next one (or the
/// end): the second piece of a split at `pat`.
pub open spec fn piece_after(s: Seq<char>, pat: Seq<char>) -> Option<Seq<char>> {
    match first_occurrence(s, pat) {
        None => None,
        Some(p) => {
            let rest = s.skip(p + pat.len());
            Some(
                match first_occurrence(rest, pat) {
                    Some(q) => rest.take(q),
                    None => rest,
                },
            )
        },
    }
}

/// The series id of a series URL, as the proxy reads it: in the part after
/// `weebcentral.com`, the first non-empty path segment must be `series`, and
/// the id is the next one.
pub open spec fn proxy_series_id(url: Seq<char>) -> Option<Seq<char>> {
    match piece_after(url, "weebcentral.com"@) {
        None => None,
        Some(path) => {
            let segs = parts(path, Separator::Char('/'));
            if segs.len() >= 2 && segs[0] == "series"@ { Some(segs[1]) } else { None }
        },
    }
}

/// The series id of a series URL (proxy side).
pub fn extract_series_id(url: &str) -> (r: Option<String>)
    ensures
        match r {
            Some(id) => proxy_series_id(url@) == Some(id@),
            None => proxy_series_id(url@) is None,
        },
{
    let cs = chars_of(url);
    let pat = chars_of("weebcentral.com");
    let n = cs.len();
    let p = match find_seq(&cs, &pat) {
        None => return None,
        Some(p) => p,
    };
    proof { lemma_first_occurrence(cs@, pat@); }
    let start = p + pat.len();
    let rest = sub_vec(&cs, start, n);
    proof { assert(rest@ =~= cs@.skip(start as int)); }
    let end = match find_seq(&rest, &pat) {
        Some(q) => {
            proof { lemma_first_occurrence(rest@, pat@); }
            start + q
        },
        None => n,
    };
    proof {
        if end < n {
            assert(rest@.take(end - start) =~= cs@.subrange(start as int, end as int));
        } else {
            assert(rest@ =~= cs@.subrange(start as int, n as int));
        }
    }
    assert(piece_after(url@, "weebcentral.com"@) == Some(cs@.subrange(start as int, end as int)));
    let segs = part_bounds(&cs, start, end, Separator::Char('/'));
    if segs.len() < 2 {
        return None;
    }
    let (a0, b0) = segs[0];
    let first = string_of_range(&cs, a0, b0);
    if !str_equal(first.as_str(), "series") {
        return None;
    }
    let (a1, b1) = segs[1];
    Some(string_of_range(&cs, a1, b1))
}

/// The chapter id in a chapter link: its last non-empty path segment.
pub open spec fn href_chapter_id(href: Seq<char>) -> Option<Seq<char>> {
    let segs = parts(href, Separator::Char('/'));
    if segs.len() == 0 { None } else { Some(segs.last()) }
}

/// The chapter id in a chapter link.
pub fn chapter_id_from_href(href: &str) -> (r: Option<String>)
    ensures
        match r {
            Some(id) => href_chapter_id(href@) == Some(id@),
            None => href_chapter_id(href@) is None,
        },
{
    let cs = chars_of(href);
    let n = cs.len();
    proof { assert(cs@.subrange(0, n as int) =~= cs@); }
    let segs = part_bounds(&cs, 0, n, Separator::Char('/'));
    if segs.len() == 0 {
        None
    } else {
        let (a, b) = segs[segs.len() - 1];
        Some(string_of_range(&cs, a, b))
    }
}

/// A series page title without the site's suffix.
pub open spec fn cleaned_title(raw: Seq<char>) -> Seq<char> {
    trim(strip_suffixes(strip_suffixes(trim(raw), " | Weeb Central"@), " - Weeb Central"@))
}

/// The series title from the page `<title>`: trimmed, without the trailing
/// " | Weeb Central" or " - Weeb Central", trimmed again.
pub fn clean_series_title(raw: &str) -> (t: String)
    ensures
        t@ == cleaned_title(raw@),
{
    let cs = chars_of(raw);
    let n = cs.len();
    proof { assert(cs@.subrange(0, n as int) =~= cs@); }
    let (a, b) = trim_bounds(&cs, 0, n);
    let bar = chars_of(" | Weeb Central");
    let dash = chars_of(" - Weeb Central");
    proof {
        reveal_strlit(" | Weeb Central");
        reveal_strlit(" - Weeb Central");
    }
    let e1 = strip_suffixes_end(&cs, a, b, &bar);
    let e2 = strip_suffixes_end(&cs, a, e1, &dash);
    let (x, y) = trim_bounds(&cs, a, e2);
    string_of_range(&cs, x, y)
}

/// A page dimension attribute read as a number, 0 when absent or not a
/// number.
pub fn page_dimension(attr: Option<&str>) -> (d: u32)
    ensures
        d == match attr {
            Some(a) => match parse_u32_spec(a@) {
                Some(v) => v,
                None => 0,
            },
            None => 0,
        },
{
    match attr {
        Some(a) => {
            let cs = chars_of(a);
            let n = cs.len();
            proof { assert(cs@.subrange(0, n as int) =~= cs@); }
            match parse_u32_range(&cs, 0, n) {
                Some(v) => v,
                None => 0,
            }
        },
        None => 0,
    }
}

/// The site page listing every chapter of a series.
pub fn full_chapter_list_url(series_id: &str) -> (u: String)
    ensures
        u@ == "https://weebcentral.com/series/"@ + series_id@ + "/full-chapter-list"@,
{
    "https://weebcentral.com/series/".to_owned().concat(series_id).concat("/full-chapter-list")
}

/// The site page holding every image of a chapter.
pub fn chapter_images_url(chapter_id: &str) -> (u: String)
    ensures
        u@ == "https://weebcentral.com/chapters/"@ + chapter_id@
            + "/images?is_prev=False&current_page=1&reading_style=long_strip"@,
{
    "https://weebcentral.com/chapters/".to_owned().concat(chapter_id).concat(
        "/images?is_prev=False&current_page=1&reading_style=long_strip",
    )
}

} // verus!
