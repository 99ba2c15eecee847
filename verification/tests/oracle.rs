//! The library's string functions against the same computations written
//! with std's string methods, on many generated inputs.

use pmanga::importer::{
    extract_after_keyword, extract_trailing_number, guess_chapter_number, stem_of,
    strip_chapter_suffix_checked, title_case, try_guess_manga_name,
};
use pmanga::proxy::{chapter_id_from_href, chapter_number_token, clean_series_title};
use pmanga::tankobon::parse_tankobon_csv;

const ALPHABET: &[char] = &[
    'a', 'b', 'C', 'h', 'c', 'p', 't', 'e', 'r', 'v', 'o', 'l', 'V', 'H', 'A', 'P', 'T', 'E', 'R',
    '0', '1', '2', '5', '9', '.', '.', ' ', ' ', '_', '-', '/', ',', '#', '\t', '\n', '\u{3000}',
    'é', 'ẞ', 'İ', 'ß', '|', 'W',
];

struct Gen(u64);

impl Gen {
    fn next(&mut self) -> u64 {
        self.0 ^= self.0 << 13;
        self.0 ^= self.0 >> 7;
        self.0 ^= self.0 << 17;
        self.0
    }

    fn string(&mut self, max_len: u64) -> String {
        let len = self.next() % (max_len + 1);
        (0..len).map(|_| ALPHABET[(self.next() % ALPHABET.len() as u64) as usize]).collect()
    }

    fn with_words(&mut self, words: &[&str]) -> String {
        let mut s = String::new();
        for _ in 0..(self.next() % 4) {
            if self.next() % 2 == 0 {
                s.push_str(words[(self.next() % words.len() as u64) as usize]);
            } else {
                s.push_str(&self.string(4));
            }
        }
        s
    }
}

const WORDS: &[&str] = &[
    "chapter", "Chapter", "ch", "CH.", " ch", "_ch", " - ", " vol", "_vol", " chapter", "_chapter",
    " 12", "3.5", ".pdf", "weebcentral.com", "/series/", " | Weeb Central", " - Weeb Central",
];

fn std_collect_number(s: &str) -> Option<String> {
    let digits: String = s.chars().take_while(|c| c.is_ascii_digit()).collect();
    if digits.is_empty() {
        return None;
    }
    let rest = &s[digits.len()..];
    if let Some(after) = rest.strip_prefix('.') {
        let frac: String = after.chars().take_while(|c| c.is_ascii_digit()).collect();
        if !frac.is_empty() {
            return Some(format!("{}.{}", digits, frac));
        }
    }
    Some(digits)
}

fn std_after_keyword(s: &str, keyword: &str) -> Option<String> {
    let mut search = s;
    while let Some(pos) = search.find(keyword) {
        let rest = &search[pos + keyword.len()..];
        let rest = rest.trim_start_matches(|c: char| c == '_' || c == '.' || c == ' ');
        if let Some(num) = std_collect_number(rest) {
            return Some(num);
        }
        search = &search[pos + 1..];
    }
    None
}

fn std_trailing_number(stem: &str) -> Option<String> {
    let trimmed = stem.trim_end_matches(|c: char| c == ' ' || c == '_' || c == '-');
    let chars: Vec<char> = trimmed.chars().collect();
    let end = chars.len();
    let mut dot_seen = false;
    let mut i = end;
    while i > 0 {
        i -= 1;
        let c = chars[i];
        if c.is_ascii_digit() {
        } else if c == '.' && !dot_seen {
            dot_seen = true;
        } else {
            i += 1;
            break;
        }
    }
    if i < end && i > 0 {
        let num: String = chars[i..end].iter().collect();
        let t = num.trim_matches('.');
        if !t.is_empty() {
            return Some(t.to_string());
        }
    }
    None
}

fn std_guess_chapter(stem: &str, idx: usize) -> String {
    let lower = stem.to_lowercase();
    std_after_keyword(&lower, "chapter")
        .or_else(|| std_after_keyword(&lower, "ch"))
        .or_else(|| std_trailing_number(stem))
        .unwrap_or_else(|| (idx + 1).to_string())
}

/// The designator cut, or `None` where slicing the given string there
/// would panic.
fn std_strip_suffix(s: &str) -> Option<&str> {
    let lower = s.to_lowercase();
    let mut best = s.len();
    for pat in [" - ", " ch", "_ch", " chapter", "_chapter", " vol", "_vol"] {
        if let Some(idx) = lower.rfind(pat) {
            let after = &lower[idx + pat.len()..];
            let t = after.trim_start_matches(|c: char| c == '.' || c == ' ');
            if !t.is_empty() && t.chars().all(|c| c.is_ascii_digit() || c == '.') {
                best = best.min(idx);
            }
        }
    }
    if let Some(last_space) = s.rfind(' ') {
        let after = &s[last_space + 1..];
        if !after.is_empty() && after.chars().all(|c| c.is_ascii_digit() || c == '.') {
            best = best.min(last_space);
        }
    }
    s.get(..best)
}

fn std_title_case(s: &str) -> String {
    s.split_whitespace()
        .map(|w| {
            let mut cs = w.chars();
            match cs.next() {
                None => String::new(),
                Some(f) => f.to_uppercase().collect::<String>() + cs.as_str(),
            }
        })
        .collect::<Vec<_>>()
        .join(" ")
}

fn std_stem(filename: &str) -> &str {
    match filename.rfind('.') {
        Some(dot) => &filename[..dot],
        None => filename,
    }
}

fn std_manga_name(filename: &str) -> Option<String> {
    let cleaned = std_strip_suffix(std_stem(filename))?;
    let spaced = cleaned.replace('_', " ").replace('-', " ");
    let collapsed = spaced.split_whitespace().collect::<Vec<_>>().join(" ");
    Some(std_title_case(&collapsed))
}

fn std_csv(csv: &str) -> Vec<(String, String, u32)> {
    let mut rows = Vec::new();
    for line in csv.lines() {
        let line = line.trim();
        if line.is_empty() || line.starts_with('#') {
            continue;
        }
        let parts: Vec<&str> = line.splitn(3, ',').collect();
        if parts.len() < 3 {
            continue;
        }
        let tankobon: u32 = match parts[2].trim().parse() {
            Ok(n) => n,
            Err(_) => continue,
        };
        rows.push((parts[0].trim().to_string(), parts[1].trim().to_string(), tankobon));
    }
    rows
}

#[test]
fn keyword_and_trailing_numbers_agree_with_std() {
    let mut g = Gen(0x9e37_79b9_7f4a_7c15);
    for _ in 0..4000 {
        let s = g.with_words(WORDS);
        let lower = s.to_lowercase();
        assert_eq!(extract_after_keyword(&lower, "chapter"), std_after_keyword(&lower, "chapter"), "{s:?}");
        assert_eq!(extract_after_keyword(&lower, "ch"), std_after_keyword(&lower, "ch"), "{s:?}");
        assert_eq!(extract_trailing_number(&s), std_trailing_number(&s), "{s:?}");
        assert_eq!(guess_chapter_number(&s, 6), std_guess_chapter(&s, 6), "{s:?}");
    }
}

#[test]
fn name_guesses_agree_with_std() {
    let mut g = Gen(0x2545_f491_4f6c_dd1d);
    for _ in 0..4000 {
        let s = g.with_words(WORDS);
        assert_eq!(strip_chapter_suffix_checked(&s), std_strip_suffix(&s), "{s:?}");
        assert_eq!(stem_of(&s), std_stem(&s), "{s:?}");
        assert_eq!(title_case(&s), std_title_case(&s), "{s:?}");
        assert_eq!(try_guess_manga_name(&s), std_manga_name(&s), "{s:?}");
    }
}

#[test]
fn proxy_text_agrees_with_std() {
    let mut g = Gen(0x1234_5678_9abc_def1);
    for _ in 0..4000 {
        let s = g.with_words(WORDS);
        let token = s.trim().split_whitespace().last().map(str::to_string);
        assert_eq!(chapter_number_token(&s), token, "{s:?}");
        let id = s.split('/').filter(|x| !x.is_empty()).last().map(str::to_string);
        assert_eq!(chapter_id_from_href(&s), id, "{s:?}");
        let title = s
            .trim()
            .trim_end_matches(" | Weeb Central")
            .trim_end_matches(" - Weeb Central")
            .trim()
            .to_string();
        assert_eq!(clean_series_title(&s), title, "{s:?}");
        let series = s
            .split("weebcentral.com")
            .nth(1)
            .and_then(|path| {
                let mut segs = path.split('/').filter(|x| !x.is_empty());
                match segs.next() {
                    Some("series") => segs.next().map(str::to_string),
                    _ => None,
                }
            });
        assert_eq!(pmanga::proxy::extract_series_id(&s), series, "{s:?}");
        let sync_id = s
            .split("/series/")
            .nth(1)
            .and_then(|after| after.split('/').next())
            .filter(|id| !id.is_empty())
            .map(str::to_string);
        assert_eq!(pmanga::sync::extract_series_id(&s), sync_id, "{s:?}");
    }
}

#[test]
fn volume_table_agrees_with_std() {
    let mut g = Gen(0x0bad_5eed_cafe_f00d);
    let words = &["One Piece", ",", ",", ", 12", "12", "+3", "#", "\n", "\r\n", " ", "4294967296", "x"];
    for _ in 0..3000 {
        let mut csv = String::new();
        for _ in 0..(g.next() % 12) {
            csv.push_str(words[(g.next() % words.len() as u64) as usize]);
        }
        let rows: Vec<(String, String, u32)> = parse_tankobon_csv(&csv)
            .into_iter()
            .map(|r| (r.manga_title, r.chapter, r.tankobon))
            .collect();
        assert_eq!(rows, std_csv(&csv), "{csv:?}");
    }
}
