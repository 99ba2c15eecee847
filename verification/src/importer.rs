//! Heuristics of the file importer: guessing chapter numbers and manga names
//! from file names.

use vstd::prelude::*;
use vstd::string::StringSliceAdditionalSpecFns;
use vstd::utf8::{decode_utf8, encode_utf8, is_char_boundary};
use crate::text::{
    lowercase, to_lowercase,
    chars_of, decimal, find_seq, first_occurrence, is_digit, is_digit_char, lemma_first_occurrence,
    part_bounds, parts, push_char, push_decimal, string_of_range, sub_vec, Separator,
    parse_u32_range, parse_u32_spec, str_equal,
};
use crate::models::MangaMeta;

verus! {

/// Number of leading decimal digits of `s`.
pub open spec fn digit_run(s: Seq<char>) -> int
    decreases s.len(),
{
    if s.len() > 0 && is_digit(s[0]) { 1 + digit_run(s.drop_first()) } else { 0 }
}

/// The decimal number `\d+(\.\d+)?` that `s` starts with, if any.
pub open spec fn number_prefix(s: Seq<char>) -> Option<Seq<char>> {
    let k = digit_run(s);
    if k == 0 {
        None
    } else if k < s.len() && s[k] == '.' && digit_run(s.skip(k + 1)) > 0 {
        Some(s.take(k + 1 + digit_run(s.skip(k + 1))))
    } else {
        Some(s.take(k))
    }
}

/// `s` without its leading `_`, `.` and spaces.
pub open spec fn skip_separators(s: Seq<char>) -> Seq<char>
    decreases s.len(),
{
    if s.len() > 0 && (s[0] == '_' || s[0] == '.' || s[0] == ' ') {
        skip_separators(s.drop_first())
    } else {
        s
    }
}

/// The number after an occurrence of `kw` in `s` (separators skipped),
/// trying each occurrence from the left until one is followed by a number.
#[verifier::opaque]
pub open spec fn after_keyword(s: Seq<char>, kw: Seq<char>) -> Option<Seq<char>>
    decreases s.len(),
{
    if kw.len() == 0 {
        None
    } else {
        match first_occurrence(s, kw) {
            None => None,
            Some(pos) => match number_prefix(skip_separators(s.skip(pos + kw.len()))) {
                Some(n) => Some(n),
                None => if 0 <= pos < s.len() { after_keyword(s.skip(pos + 1), kw) } else { None },
            },
        }
    }
}

proof fn lemma_digit_run_range(cs: Seq<char>, a: int, e: int, i: int)
    requires
        0 <= a <= i <= e <= cs.len(),
        forall|j: int| a <= j < i ==> is_digit(cs[j]),
        i == e || !is_digit(cs[i]),
    ensures
        digit_run(cs.subrange(a, e)) == i - a,
    decreases i - a,
{
    if a < e {
        assert(cs.subrange(a, e)[0] == cs[a]);
        assert(cs.subrange(a, e).drop_first() =~= cs.subrange(a + 1, e));
        if a < i {
            lemma_digit_run_range(cs, a + 1, e, i);
        }
    }
}

/// End of the run of digits starting at `a` in `cs[..e]`.
fn digit_run_end(cs: &Vec<char>, a: usize, e: usize) -> (i: usize)
    requires
        a <= e <= cs@.len(),
    ensures
        a <= i <= e,
        digit_run(cs@.subrange(a as int, e as int)) == i - a,
{
    let mut i = a;
    while i < e && is_digit_char(cs[i])
        invariant
            a <= i <= e <= cs@.len(),
            forall|j: int| a <= j < i ==> is_digit(cs@[j]),
        decreases e - i,
    {
        i = i + 1;
    }
    proof { lemma_digit_run_range(cs@, a as int, e as int, i as int); }
    i
}

/// Bounds of the number that `cs[a..e]` starts with.
fn number_prefix_end(cs: &Vec<char>, a: usize, e: usize) -> (r: Option<usize>)
    requires
        a <= e <= cs@.len(),
    ensures
        match r {
            Some(b) => a < b <= e && number_prefix(cs@.subrange(a as int, e as int)) == Some(cs@.subrange(a as int, b as int)),
            None => number_prefix(cs@.subrange(a as int, e as int)) is None,
        },
{
    let ghost s = cs@.subrange(a as int, e as int);
    let k = digit_run_end(cs, a, e);
    if k == a {
        return None;
    }
    if k < e && cs[k] == '.' {
        assert(s[k - a] == cs@[k as int]);
        let f = digit_run_end(cs, k + 1, e);
        assert(s.skip(k + 1 - a) =~= cs@.subrange(k + 1, e as int));
        if f > k + 1 {
            assert(s.take(f - a) =~= cs@.subrange(a as int, f as int));
            return Some(f);
        }
    } else {
        if k < e {
            assert(s[k - a] == cs@[k as int]);
        }
    }
    assert(s.take(k - a) =~= cs@.subrange(a as int, k as int));
    Some(k)
}

/// Start of `cs[a..e]` once its leading separators are skipped.
fn skip_separators_start(cs: &Vec<char>, a: usize, e: usize) -> (i: usize)
    requires
        a <= e <= cs@.len(),
    ensures
        a <= i <= e,
        skip_separators(cs@.subrange(a as int, e as int)) == cs@.subrange(i as int, e as int),
{
    let mut i = a;
    while i < e && (cs[i] == '_' || cs[i] == '.' || cs[i] == ' ')
        invariant
            a <= i <= e <= cs@.len(),
            skip_separators(cs@.subrange(a as int, e as int)) == skip_separators(cs@.subrange(i as int, e as int)),
        decreases e - i,
    {
        proof {
            assert(cs@.subrange(i as int, e as int)[0] == cs@[i as int]);
            assert(cs@.subrange(i as int, e as int).drop_first() =~= cs@.subrange(i + 1, e as int));
        }
        i = i + 1;
    }
    proof {
        if i < e {
            assert(cs@.subrange(i as int, e as int)[0] == cs@[i as int]);
        }
    }
    i
}

proof fn lemma_after_keyword_unfold(t: Seq<char>, kw: Seq<char>, pos: int)
    requires
        kw.len() > 0,
        first_occurrence(t, kw) == Some(pos),
    ensures
        0 <= pos < t.len(),
        pos + kw.len() <= t.len(),
        after_keyword(t, kw) == match number_prefix(skip_separators(t.skip(pos + kw.len()))) {
            Some(n) => Some(n),
            None => after_keyword(t.skip(pos + 1), kw),
        },
{
    lemma_first_occurrence(t, kw);
    reveal(after_keyword);
}

/// The number after the first occurrence of `keyword` in `s` that is
/// followed (after `_`, `.` and spaces) by a decimal number.
#[verifier::spinoff_prover]
#[verifier::rlimit(40)]
pub fn extract_after_keyword(s: &str, keyword: &str) -> (r: Option<String>)
    ensures
        match r {
            Some(n) => after_keyword(s@, keyword@) == Some(n@),
            None => after_keyword(s@, keyword@) is None,
        },
{
    let cs = chars_of(s);
    let kw = chars_of(keyword);
    let n = cs.len();
    if kw.len() == 0 {
        proof { reveal(after_keyword); }
        return None;
    }
    let mut from: usize = 0;
    assert(cs@.skip(0) =~= cs@);
    loop
        invariant
            n == cs@.len(),
            from <= n,
            kw@.len() > 0,
            after_keyword(s@, keyword@) == after_keyword(cs@.skip(from as int), kw@),
        decreases n - from,
    {
        let rest = sub_vec(&cs, from, n);
        assert(rest@ =~= cs@.skip(from as int));
        let pos = match find_seq(&rest, &kw) {
            None => {
                proof { reveal(after_keyword); }
                return None;
            },
            Some(p) => p,
        };
        proof { lemma_after_keyword_unfold(rest@, kw@, pos as int); }
        let start = from + pos + kw.len();
        let a = skip_separators_start(&cs, start, n);
        proof {
            assert(rest@.skip(pos + kw@.len()) =~= cs@.subrange(start as int, n as int));
        }
        match number_prefix_end(&cs, a, n) {
            Some(b) => {
                return Some(string_of_range(&cs, a, b));
            },
            None => {},
        }
        proof {
            assert(rest@.skip(pos + 1) =~= cs@.skip(from + pos + 1));
        }
        from = from + pos + 1;
    }
}

/// `s` without its trailing spaces, `_` and `-`.
pub open spec fn trim_end_joiners(s: Seq<char>) -> Seq<char>
    decreases s.len(),
{
    if s.len() > 0 && (s.last() == ' ' || s.last() == '_' || s.last() == '-') {
        trim_end_joiners(s.drop_last())
    } else {
        s
    }
}

/// Start of the trailing run of `t[..i]` made of digits and at most one
/// `.` (one more `.` allowed only while `dot` is false).
pub open spec fn run_start(t: Seq<char>, i: int, dot: bool) -> int
    decreases i,
{
    if i <= 0 || i > t.len() {
        0
    } else if is_digit(t[i - 1]) {
        run_start(t, i - 1, dot)
    } else if t[i - 1] == '.' && !dot {
        run_start(t, i - 1, true)
    } else {
        i
    }
}

/// `s` without its leading `.`s.
pub open spec fn trim_start_dots(s: Seq<char>) -> Seq<char>
    decreases s.len(),
{
    if s.len() > 0 && s[0] == '.' { trim_start_dots(s.drop_first()) } else { s }
}

/// `s` without its trailing `.`s.
pub open spec fn trim_end_dots(s: Seq<char>) -> Seq<char>
    decreases s.len(),
{
    if s.len() > 0 && s.last() == '.' { trim_end_dots(s.drop_last()) } else { s }
}

/// The number at the end of a file stem: after dropping trailing spaces,
/// `_` and `-`, the trailing run of digits with at most one `.`, without
/// leading or trailing dots; none when that run is empty or is the whole
/// stem.
pub open spec fn trailing_number(stem: Seq<char>) -> Option<Seq<char>> {
    let t = trim_end_joiners(stem);
    let st = run_start(t, t.len() as int, false);
    if 0 < st < t.len() {
        let num = trim_end_dots(trim_start_dots(t.subrange(st, t.len() as int)));
        if num.len() > 0 { Some(num) } else { None }
    } else {
        None
    }
}

/// The number at the end of a file stem.
pub fn extract_trailing_number(stem: &str) -> (r: Option<String>)
    ensures
        match r {
            Some(n) => trailing_number(stem@) == Some(n@),
            None => trailing_number(stem@) is None,
        },
{
    let cs = chars_of(stem);
    let mut end = cs.len();
    assert(cs@.take(end as int) =~= cs@);
    while end > 0 && (cs[end - 1] == ' ' || cs[end - 1] == '_' || cs[end - 1] == '-')
        invariant
            end <= cs@.len(),
            trim_end_joiners(cs@) == trim_end_joiners(cs@.take(end as int)),
        decreases end,
    {
        proof {
            assert(cs@.take(end as int).drop_last() =~= cs@.take(end - 1));
        }
        end = end - 1;
    }
    let ghost t = cs@.take(end as int);
    proof {
        if end > 0 {
            assert(t.last() == cs@[end - 1]);
        }
        assert(trim_end_joiners(t) == t);
        assert(trim_end_joiners(stem@) == t);
    }
    let mut i = end;
    let mut dot = false;
    let mut st: usize = 0;
    loop
        invariant
            i <= end <= cs@.len(),
            t == cs@.take(end as int),
            run_start(t, end as int, false) == run_start(t, i as int, dot),
        ensures
            st == run_start(t, end as int, false),
        decreases i,
    {
        if i == 0 {
            st = 0;
            assert(run_start(t, end as int, false) == 0);
            break;
        }
        let c = cs[i - 1];
        assert(t[i - 1] == c);
        if is_digit_char(c) {
            i = i - 1;
        } else if c == '.' && !dot {
            dot = true;
            i = i - 1;
        } else {
            st = i;
            assert(run_start(t, end as int, false) == i);
            break;
        }
    }
    assert(st == run_start(t, end as int, false));
    assert(trim_end_joiners(stem@) == t);
    if !(0 < st && st < end) {
        return None;
    }
    let mut a = st;
    assert(t.subrange(st as int, end as int) =~= cs@.subrange(st as int, end as int));
    while a < end && cs[a] == '.'
        invariant
            st <= a <= end <= cs@.len(),
            trim_end_joiners(stem@) == t,
            t == cs@.take(end as int),
            st == run_start(t, end as int, false),
            0 < st < end,
            trim_start_dots(cs@.subrange(st as int, end as int)) == trim_start_dots(cs@.subrange(a as int, end as int)),
        decreases end - a,
    {
        proof {
            assert(cs@.subrange(a as int, end as int)[0] == cs@[a as int]);
            assert(cs@.subrange(a as int, end as int).drop_first() =~= cs@.subrange(a + 1, end as int));
        }
        a = a + 1;
    }
    proof {
        if a < end {
            assert(cs@.subrange(a as int, end as int)[0] == cs@[a as int]);
        }
    }
    let mut b = end;
    while b > a && cs[b - 1] == '.'
        invariant
            a <= b <= end <= cs@.len(),
            trim_end_joiners(stem@) == t,
            t == cs@.take(end as int),
            st == run_start(t, end as int, false),
            0 < st < end,
            t.subrange(st as int, end as int) == cs@.subrange(st as int, end as int),
            trim_end_dots(trim_start_dots(cs@.subrange(st as int, end as int))) == trim_end_dots(cs@.subrange(a as int, b as int)),
        decreases b - a,
    {
        proof {
            assert(cs@.subrange(a as int, b as int).last() == cs@[b - 1]);
            assert(cs@.subrange(a as int, b as int).drop_last() =~= cs@.subrange(a as int, b - 1));
        }
        b = b - 1;
    }
    proof {
        if b > a {
            assert(cs@.subrange(a as int, b as int).last() == cs@[b - 1]);
        }
    }
    if a == b {
        None
    } else {
        Some(string_of_range(&cs, a, b))
    }
}

/// The chapter number guessed from a file stem (`lower` being its lower-case
/// form): the number after "chapter", else after "ch", else at the end of
/// the stem, else the 1-based position of the file.
pub open spec fn chapter_guess(lower: Seq<char>, stem: Seq<char>, fallback_idx: int) -> Seq<char> {
    match after_keyword(lower, "chapter"@) {
        Some(n) => n,
        None => match after_keyword(lower, "ch"@) {
            Some(n) => n,
            None => match trailing_number(stem) {
                Some(n) => n,
                None => decimal((fallback_idx + 1) as nat),
            },
        },
    }
}

/// The chapter number guessed from a file stem, given its lower-case form.
pub fn chapter_number_from(lower: &str, stem: &str, fallback_idx: usize) -> (r: String)
    requires
        fallback_idx < usize::MAX,
    ensures
        r@ == chapter_guess(lower@, stem@, fallback_idx as int),
{
    if let Some(n) = extract_after_keyword(lower, "chapter") {
        return n;
    }
    if let Some(n) = extract_after_keyword(lower, "ch") {
        return n;
    }
    if let Some(n) = extract_trailing_number(stem) {
        return n;
    }
    let mut s = String::new();
    push_decimal(&mut s, fallback_idx + 1);
    assert(s@ =~= decimal((fallback_idx + 1) as nat));
    s
}

/// The chapter number guessed from a file stem: the number after "chapter"
/// or "ch" (in any case), else the number at the end of the stem, else
/// `fallback_idx + 1`.
pub fn guess_chapter_number(stem: &str, fallback_idx: usize) -> (r: String)
    requires
        fallback_idx < usize::MAX,
    ensures
        r@ == chapter_guess(lowercase(stem@), stem@, fallback_idx as int),
{
    let lower = to_lowercase(stem);
    chapter_number_from(lower.as_str(), stem, fallback_idx)
}

/// Upper-case form of a character, as `char::to_uppercase` gives it (one
/// to three characters).
pub uninterp spec fn char_uppercase(c: char) -> Seq<char>;

/// `char::to_uppercase`, collected into a string.
#[verifier::external_body]
fn uppercase_of(c: char) -> (r: String)
    ensures
        r@ == char_uppercase(c),
{
    c.to_uppercase().collect()
}

/// `w` with its first character upper-cased.
pub open spec fn capitalized(w: Seq<char>) -> Seq<char> {
    if w.len() == 0 { w } else { char_uppercase(w[0]) + w.skip(1) }
}

/// The words of `ws` joined by single spaces.
pub open spec fn join_words(ws: Seq<Seq<char>>) -> Seq<char>
    decreases ws.len(),
{
    if ws.len() == 0 {
        Seq::empty()
    } else if ws.len() == 1 {
        ws[0]
    } else {
        join_words(ws.drop_last()) + seq![' '] + ws.last()
    }
}

/// Each whitespace-separated word of `s` capitalised, joined by single
/// spaces.
pub open spec fn title_cased(s: Seq<char>) -> Seq<char> {
    join_words(parts(s, Separator::Whitespace).map_values(|w: Seq<char>| capitalized(w)))
}

proof fn lemma_join_push(ws: Seq<Seq<char>>, w: Seq<char>)
    ensures
        join_words(ws.push(w)) == if ws.len() == 0 { w } else { join_words(ws) + seq![' '] + w },
{
    assert(ws.push(w).drop_last() =~= ws);
}

/// Capitalise each word and join the words by single spaces.
pub fn title_case(s: &str) -> (r: String)
    ensures
        r@ == title_cased(s@),
{
    let cs = chars_of(s);
    let n = cs.len();
    proof { assert(cs@.subrange(0, n as int) =~= cs@); }
    let words = part_bounds(&cs, 0, n, Separator::Whitespace);
    let ghost ws = parts(s@, Separator::Whitespace);
    let ghost caps = ws.map_values(|w: Seq<char>| capitalized(w));
    let mut out = String::new();
    let mut k: usize = 0;
    while k < words.len()
        invariant
            k <= words@.len(),
            words@.len() == ws.len(),
            caps == ws.map_values(|w: Seq<char>| capitalized(w)),
            forall|j: int| 0 <= j < words@.len() ==> {
                &&& (#[trigger] words@[j]).0 < words@[j].1 <= cs@.len()
                &&& cs@.subrange(words@[j].0 as int, words@[j].1 as int) == ws[j]
            },
            out@ == join_words(caps.take(k as int)),
        decreases words.len() - k,
    {
        let (a, b) = words[k];
        let ghost before = out@;
        if k > 0 {
            push_char(&mut out, ' ');
        }
        let up = uppercase_of(cs[a]);
        out.append(up.as_str());
        let rest = string_of_range(&cs, a + 1, b);
        out.append(rest.as_str());
        proof {
            let w = ws[k as int];
            assert(w[0] == cs@[a as int]);
            assert(w.skip(1) =~= cs@.subrange(a + 1, b as int));
            assert(caps.take(k + 1) =~= caps.take(k as int).push(caps[k as int]));
            lemma_join_push(caps.take(k as int), caps[k as int]);
            assert(out@ =~= join_words(caps.take(k + 1)));
        }
        k = k + 1;
    }
    proof { assert(caps.take(k as int) =~= caps); }
    out
}

/// `pat` occurs in the byte string `b` at `i`.
pub open spec fn occurs_at_bytes(b: Seq<u8>, pat: Seq<u8>, i: int) -> bool {
    0 <= i && i + pat.len() <= b.len() && b.subrange(i, i + pat.len()) == pat
}

/// Position of the last occurrence of `pat` in `b`.
#[verifier::opaque]
pub open spec fn last_occurrence(b: Seq<u8>, pat: Seq<u8>) -> Option<int> {
    if exists|i: int| occurs_at_bytes(b, pat, i) {
        Some(choose|i: int| occurs_at_bytes(b, pat, i) && forall|j: int| j > i ==> !occurs_at_bytes(b, pat, j))
    } else {
        None
    }
}

/// ASCII digit or `.`.
pub open spec fn is_number_byte(x: u8) -> bool {
    (0x30 <= x && x <= 0x39) || x == 0x2e
}

/// Every byte of `b` is an ASCII digit or `.`.
pub open spec fn all_number_bytes(b: Seq<u8>) -> bool {
    forall|i: int| 0 <= i < b.len() ==> is_number_byte(#[trigger] b[i])
}

/// `b` without its leading `.` and space bytes.
pub open spec fn skip_dots_spaces(b: Seq<u8>) -> Seq<u8>
    decreases b.len(),
{
    if b.len() > 0 && (b[0] == 0x2e || b[0] == 0x20) { skip_dots_spaces(b.drop_first()) } else { b }
}

/// Where the lower-cased name may be cut at the last occurrence of `pat`:
/// only when what follows (after dots and spaces) is a non-empty run of
/// digits and dots.
pub open spec fn pattern_cut(lower: Seq<u8>, pat: Seq<u8>) -> Option<int> {
    match last_occurrence(lower, pat) {
        Some(i) => {
            let t = skip_dots_spaces(lower.skip(i + pat.len()));
            if t.len() > 0 && all_number_bytes(t) { Some(i) } else { None }
        },
        None => None,
    }
}

/// Chapter and volume designators: `" - "`, `" ch"`, `"_ch"`, `" chapter"`,
/// `"_chapter"`, `" vol"`, `"_vol"`, as bytes.
pub open spec fn suffix_patterns() -> Seq<Seq<u8>> {
    seq![
        seq![0x20u8, 0x2d, 0x20],
        seq![0x20u8, 0x63, 0x68],
        seq![0x5fu8, 0x63, 0x68],
        seq![0x20u8, 0x63, 0x68, 0x61, 0x70, 0x74, 0x65, 0x72],
        seq![0x5fu8, 0x63, 0x68, 0x61, 0x70, 0x74, 0x65, 0x72],
        seq![0x20u8, 0x76, 0x6f, 0x6c],
        seq![0x5fu8, 0x76, 0x6f, 0x6c]
    ]
}

/// `best` lowered to `c` when `c` is a smaller cut.
pub open spec fn min_cut(best: int, c: Option<int>) -> int {
    match c {
        Some(i) => if i < best { i } else { best },
        None => best,
    }
}

/// The smallest cut that the patterns `pats` allow, starting from `best`.
pub open spec fn patterns_cut(lower: Seq<u8>, pats: Seq<Seq<u8>>, best: int) -> int
    decreases pats.len(),
{
    if pats.len() == 0 {
        best
    } else {
        min_cut(patterns_cut(lower, pats.drop_last(), best), pattern_cut(lower, pats.last()))
    }
}

/// Cut at the last space of the name when only digits and dots follow it.
pub open spec fn space_cut(bytes: Seq<u8>) -> Option<int> {
    match last_occurrence(bytes, seq![0x20u8]) {
        Some(i) => {
            let a = bytes.skip(i + 1);
            if a.len() > 0 && all_number_bytes(a) { Some(i) } else { None }
        },
        None => None,
    }
}

/// Byte length of the name once its trailing chapter or volume designator is
/// removed; `bytes` is the name and `lower` its lower-cased form, both UTF-8.
pub open spec fn suffix_cut(bytes: Seq<u8>, lower: Seq<u8>) -> int {
    min_cut(patterns_cut(lower, suffix_patterns(), bytes.len() as int), space_cut(bytes))
}

/// The cut of `s`, in the bytes of `s`.
pub open spec fn name_cut(s: Seq<char>) -> int {
    suffix_cut(encode_utf8(s), encode_utf8(lowercase(s)))
}

proof fn lemma_last_occurrence_is(b: Seq<u8>, pat: Seq<u8>, c: int)
    requires
        occurs_at_bytes(b, pat, c),
        forall|j: int| j > c ==> !occurs_at_bytes(b, pat, j),
    ensures
        last_occurrence(b, pat) == Some(c),
{
    reveal(last_occurrence);
    let w = choose|w: int| occurs_at_bytes(b, pat, w) && forall|j: int| j > w ==> !occurs_at_bytes(b, pat, j);
    if w < c {
        assert(occurs_at_bytes(b, pat, c));
    } else if w > c {
        assert(!occurs_at_bytes(b, pat, w));
    }
}

/// Position of the last occurrence of `pat` in `b`.
fn last_occurrence_exec(b: &[u8], pat: &Vec<u8>) -> (r: Option<usize>)
    ensures
        match r {
            Some(i) => last_occurrence(b@, pat@) == Some(i as int) && i + pat@.len() <= b@.len(),
            None => last_occurrence(b@, pat@) is None,
        },
{
    let n = b.len();
    let m = pat.len();
    if m > n {
        proof {
            assert forall|i: int| !occurs_at_bytes(b@, pat@, i) by {}
            reveal(last_occurrence);
        }
        return None;
    }
    let mut c: usize = n - m;
    loop
        invariant
            n == b@.len(),
            m == pat@.len(),
            m <= n,
            c <= n - m,
            forall|j: int| j > c ==> !occurs_at_bytes(b@, pat@, j),
        decreases c,
    {
        let mut k: usize = 0;
        let mut hit = true;
        while k < m
            invariant
                n == b@.len(),
                m == pat@.len(),
                c + m <= n,
                k <= m,
                hit ==> forall|j: int| 0 <= j < k ==> b@[c + j] == pat@[j],
                !hit ==> !occurs_at_bytes(b@, pat@, c as int),
            decreases m - k,
        {
            if b[c + k] != pat[k] {
                if hit {
                    assert(b@.subrange(c as int, c + m)[k as int] == b@[c + k]);
                }
                hit = false;
            }
            k = k + 1;
        }
        if hit {
            assert(b@.subrange(c as int, c + m) =~= pat@);
            proof { lemma_last_occurrence_is(b@, pat@, c as int); }
            return Some(c);
        }
        if c == 0 {
            proof {
                assert forall|j: int| !occurs_at_bytes(b@, pat@, j) by {}
                reveal(last_occurrence);
            }
            return None;
        }
        c = c - 1;
    }
}

/// What follows the cut at `from` in `b` is a non-empty run of digits and
/// dots once leading dots and spaces are skipped.
fn number_tail(b: &[u8], from: usize) -> (r: bool)
    requires
        from <= b@.len(),
    ensures
        r == ({
            let t = skip_dots_spaces(b@.skip(from as int));
            t.len() > 0 && all_number_bytes(t)
        }),
{
    let n = b.len();
    let mut i = from;
    while i < n && (b[i] == 0x2e || b[i] == 0x20)
        invariant
            from <= i <= n == b@.len(),
            skip_dots_spaces(b@.skip(from as int)) == skip_dots_spaces(b@.skip(i as int)),
        decreases n - i,
    {
        proof {
            assert(b@.skip(i as int)[0] == b@[i as int]);
            assert(b@.skip(i as int).drop_first() =~= b@.skip(i + 1));
        }
        i = i + 1;
    }
    proof {
        if i < n {
            assert(b@.skip(i as int)[0] == b@[i as int]);
        }
        assert(skip_dots_spaces(b@.skip(i as int)) == b@.skip(i as int));
    }
    if i == n {
        return false;
    }
    let mut j = i;
    while j < n
        invariant
            i <= j <= n == b@.len(),
            skip_dots_spaces(b@.skip(from as int)) == b@.skip(i as int),
            forall|k: int| i <= k < j ==> is_number_byte(b@[k]),
        decreases n - j,
    {
        if !((0x30 <= b[j] && b[j] <= 0x39) || b[j] == 0x2e) {
            assert(b@.skip(i as int)[j - i] == b@[j as int]);
            return false;
        }
        j = j + 1;
    }
    assert forall|k: int| 0 <= k < b@.skip(i as int).len() implies is_number_byte(#[trigger] b@.skip(i as int)[k]) by {
        assert(b@.skip(i as int)[k] == b@[i + k]);
    }
    true
}

/// `best` lowered to the cut that `pat` allows in `lower`.
fn apply_pattern(lower: &[u8], pat: &Vec<u8>, best: usize) -> (r: usize)
    ensures
        r == min_cut(best as int, pattern_cut(lower@, pat@)),
{
    let _n = lower.len();
    match last_occurrence_exec(lower, pat) {
        Some(i) => {
            assert(lower@.skip(i + pat@.len()) =~= lower@.skip((i + pat.len()) as int));
            if number_tail(lower, i + pat.len()) && i < best {
                i
            } else {
                best
            }
        },
        None => best,
    }
}

/// The cut at the last space of `bytes`, if only digits and dots follow.
fn space_cut_exec(bytes: &[u8]) -> (r: Option<usize>)
    ensures
        match r {
            Some(i) => space_cut(bytes@) == Some(i as int),
            None => space_cut(bytes@) is None,
        },
{
    let _n = bytes.len();
    let space = vec![0x20u8];
    assert(space@ =~= seq![0x20u8]);
    match last_occurrence_exec(bytes, &space) {
        Some(i) => {
            if number_tail_plain(bytes, i + 1) {
                Some(i)
            } else {
                None
            }
        },
        None => None,
    }
}

/// The designator patterns, as byte vectors.
fn suffix_pattern_bytes() -> (v: Vec<Vec<u8>>)
    ensures
        v@.len() == suffix_patterns().len(),
        forall|k: int| 0 <= k < v@.len() ==> (#[trigger] v@[k])@ == suffix_patterns()[k],
{
    let v = vec![
        vec![0x20u8, 0x2d, 0x20],
        vec![0x20u8, 0x63, 0x68],
        vec![0x5fu8, 0x63, 0x68],
        vec![0x20u8, 0x63, 0x68, 0x61, 0x70, 0x74, 0x65, 0x72],
        vec![0x5fu8, 0x63, 0x68, 0x61, 0x70, 0x74, 0x65, 0x72],
        vec![0x20u8, 0x76, 0x6f, 0x6c],
        vec![0x5fu8, 0x76, 0x6f, 0x6c],
    ];
    assert(v@[0]@ =~= suffix_patterns()[0]);
    assert(v@[1]@ =~= suffix_patterns()[1]);
    assert(v@[2]@ =~= suffix_patterns()[2]);
    assert(v@[3]@ =~= suffix_patterns()[3]);
    assert(v@[4]@ =~= suffix_patterns()[4]);
    assert(v@[5]@ =~= suffix_patterns()[5]);
    assert(v@[6]@ =~= suffix_patterns()[6]);
    v
}

/// Byte length of `s` once its trailing chapter or volume designator is
/// removed, given the bytes of `s` and of its lower-cased form.
pub fn suffix_cut_index(bytes: &[u8], lower: &[u8]) -> (cut: usize)
    ensures
        cut == suffix_cut(bytes@, lower@),
        cut <= bytes@.len(),
{
    let pats = suffix_pattern_bytes();
    let mut best: usize = bytes.len();
    let mut k: usize = 0;
    while k < pats.len()
        invariant
            k <= pats@.len() == suffix_patterns().len(),
            forall|q: int| 0 <= q < pats@.len() ==> (#[trigger] pats@[q])@ == suffix_patterns()[q],
            best as int == patterns_cut(lower@, suffix_patterns().take(k as int), bytes@.len() as int),
            best <= bytes@.len(),
        decreases pats.len() - k,
    {
        proof {
            assert(suffix_patterns().take(k + 1).drop_last() =~= suffix_patterns().take(k as int));
            assert(suffix_patterns().take(k + 1).last() == suffix_patterns()[k as int]);
        }
        best = apply_pattern(lower, &pats[k], best);
        k = k + 1;
    }
    proof {
        assert(suffix_patterns().take(k as int) =~= suffix_patterns());
    }
    match space_cut_exec(bytes) {
        Some(i) => if i < best { i } else { best },
        None => best,
    }
}

/// `b[from..]` is a non-empty run of digits and dots.
fn number_tail_plain(b: &[u8], from: usize) -> (r: bool)
    requires
        from <= b@.len(),
    ensures
        r == (b@.skip(from as int).len() > 0 && all_number_bytes(b@.skip(from as int))),
{
    let n = b.len();
    if from == n {
        return false;
    }
    let mut j = from;
    while j < n
        invariant
            from <= j <= n == b@.len(),
            forall|k: int| from <= k < j ==> is_number_byte(b@[k]),
        decreases n - j,
    {
        if !((0x30 <= b[j] && b[j] <= 0x39) || b[j] == 0x2e) {
            assert(b@.skip(from as int)[j - from] == b@[j as int]);
            return false;
        }
        j = j + 1;
    }
    assert forall|k: int| 0 <= k < b@.skip(from as int).len() implies is_number_byte(#[trigger] b@.skip(from as int)[k]) by {
        assert(b@.skip(from as int)[k] == b@[from + k]);
    }
    true
}

/// `s` cut before its trailing chapter or volume designator ("Title - 12",
/// "title_ch3", "Title vol.2", "Title 5"), where that cut falls on a
/// character boundary.
pub open spec fn suffix_strippable(s: Seq<char>) -> bool {
    is_char_boundary(encode_utf8(s), name_cut(s))
}

/// `s` without its trailing chapter or volume designator: its bytes up to
/// the smallest cut allowed by a designator pattern found in the lower-cased
/// name, or by a last space followed only by digits and dots.
pub fn strip_chapter_suffix(s: &str) -> (r: &str)
    requires
        suffix_strippable(s@),
    ensures
        r.spec_bytes() == encode_utf8(s@).take(name_cut(s@)),
{
    let lower = to_lowercase(s);
    let cut = suffix_cut_index(s.as_bytes(), lower.as_str().as_bytes());
    s.split_at(cut).0
}

/// `s` without its trailing chapter or volume designator; `None` when the
/// cut would fall inside a character.
pub fn strip_chapter_suffix_checked(s: &str) -> (r: Option<&str>)
    ensures
        r is Some <==> suffix_strippable(s@),
        r matches Some(x) ==> x.spec_bytes() == encode_utf8(s@).take(name_cut(s@)),
{
    let lower = to_lowercase(s);
    let cut = suffix_cut_index(s.as_bytes(), lower.as_str().as_bytes());
    if s.is_char_boundary(cut) {
        Some(strip_chapter_suffix(s))
    } else {
        None
    }
}

/// Index of the last `c` in `s`.
pub open spec fn last_index_of(s: Seq<char>, c: char) -> Option<int>
    decreases s.len(),
{
    if s.len() == 0 {
        None
    } else if s.last() == c {
        Some(s.len() - 1)
    } else {
        last_index_of(s.drop_last(), c)
    }
}

/// A file name without its extension (the text from its last `.`).
pub open spec fn file_stem(f: Seq<char>) -> Seq<char> {
    match last_index_of(f, '.') {
        Some(k) => f.take(k),
        None => f,
    }
}

/// `s` with `_` and `-` turned into spaces.
pub open spec fn spaced(s: Seq<char>) -> Seq<char> {
    s.map_values(|c: char| if c == '_' || c == '-' { ' ' } else { c })
}

/// The manga name guessed from a file name: the stem without its chapter or
/// volume designator, `_` and `-` read as spaces, words joined by single
/// spaces and capitalised.
pub open spec fn manga_name_from(f: Seq<char>) -> Seq<char> {
    let stem = file_stem(f);
    let cleaned = decode_utf8(encode_utf8(stem).take(name_cut(stem)));
    title_cased(join_words(parts(spaced(cleaned), Separator::Whitespace)))
}

/// The stem of a file name.
pub fn stem_of(filename: &str) -> (r: String)
    ensures
        r@ == file_stem(filename@),
{
    let cs = chars_of(filename);
    let mut k = cs.len();
    assert(cs@.take(k as int) =~= cs@);
    while k > 0 && cs[k - 1] != '.'
        invariant
            k <= cs@.len(),
            last_index_of(cs@, '.') == last_index_of(cs@.take(k as int), '.'),
        decreases k,
    {
        proof {
            assert(cs@.take(k as int).last() == cs@[k - 1]);
            assert(cs@.take(k as int).drop_last() =~= cs@.take(k - 1));
        }
        k = k - 1;
    }
    if k == 0 {
        string_of_range(&cs, 0, cs.len())
    } else {
        proof {
            assert(cs@.take(k as int).last() == cs@[k - 1]);
        }
        string_of_range(&cs, 0, k - 1)
    }
}

/// Words of `cs` (split at whitespace) joined by single spaces.
fn collapse_spaces(cs: &Vec<char>) -> (r: String)
    ensures
        r@ == join_words(parts(cs@, Separator::Whitespace)),
{
    let n = cs.len();
    proof { assert(cs@.subrange(0, n as int) =~= cs@); }
    let words = part_bounds(cs, 0, n, Separator::Whitespace);
    let ghost ws = parts(cs@, Separator::Whitespace);
    let mut out = String::new();
    let mut k: usize = 0;
    while k < words.len()
        invariant
            k <= words@.len(),
            words@.len() == ws.len(),
            ws == parts(cs@, Separator::Whitespace),
            forall|j: int| 0 <= j < words@.len() ==> {
                &&& (#[trigger] words@[j]).0 < words@[j].1 <= cs@.len()
                &&& cs@.subrange(words@[j].0 as int, words@[j].1 as int) == ws[j]
            },
            out@ == join_words(ws.take(k as int)),
        decreases words.len() - k,
    {
        let (a, b) = words[k];
        if k > 0 {
            push_char(&mut out, ' ');
        }
        let w = string_of_range(cs, a, b);
        out.append(w.as_str());
        proof {
            assert(ws.take(k + 1) =~= ws.take(k as int).push(ws[k as int]));
            lemma_join_push(ws.take(k as int), ws[k as int]);
            assert(out@ =~= join_words(ws.take(k + 1)));
        }
        k = k + 1;
    }
    proof { assert(ws.take(k as int) =~= ws); }
    out
}

/// Guess the manga name from a file name (see `manga_name_from`).
pub fn guess_manga_name(filename: &str) -> (r: String)
    requires
        suffix_strippable(file_stem(filename@)),
    ensures
        r@ == manga_name_from(filename@),
{
    let stem = stem_of(filename);
    let cleaned = strip_chapter_suffix(stem.as_str());
    let cc = chars_of(cleaned);
    proof {
        vstd::utf8::encode_utf8_decode_utf8(cleaned@);
    }
    let mut sp: Vec<char> = Vec::new();
    let mut i: usize = 0;
    while i < cc.len()
        invariant
            i <= cc@.len(),
            sp@ == spaced(cc@).take(i as int),
        decreases cc.len() - i,
    {
        let c = cc[i];
        if c == '_' || c == '-' {
            sp.push(' ');
        } else {
            sp.push(c);
        }
        proof {
            assert(spaced(cc@).take(i + 1) =~= spaced(cc@).take(i as int).push(spaced(cc@)[i as int]));
        }
        i = i + 1;
    }
    proof { assert(spaced(cc@).take(i as int) =~= spaced(cc@)); }
    let collapsed = collapse_spaces(&sp);
    title_case(collapsed.as_str())
}

/// Guess the manga name from a file name; `None` when the designator cut of
/// its stem would fall inside a character.
pub fn try_guess_manga_name(filename: &str) -> (r: Option<String>)
    ensures
        r is Some <==> suffix_strippable(file_stem(filename@)),
        r matches Some(n) ==> n@ == manga_name_from(filename@),
{
    let stem = stem_of(filename);
    match strip_chapter_suffix_checked(stem.as_str()) {
        Some(_) => Some(guess_manga_name(filename)),
        None => None,
    }
}

/// One file of an import as the confirmation step lists it: the name and numbers
/// proposed for it, which the user may still edit.
#[derive(Debug, Clone, PartialEq)]
pub struct ImportRow {
    pub filename: String,
    pub manga_name: String,
    pub chapter_number: String,
    /// The volume number, or empty when none is known.
    pub tankobon_number: String,
    pub pdf_bytes: Vec<u8>,
}

/// The chapter number proposed for the file `filename`, the `idx`-th of the
/// import: the chapter number guessed from its stem.
pub fn proposed_chapter_number(filename: &str, idx: usize) -> (r: String)
    requires
        idx < usize::MAX,
    ensures
        r@ == chapter_guess(lowercase(file_stem(filename@)), file_stem(filename@), idx as int),
{
    let stem = stem_of(filename);
    guess_chapter_number(stem.as_str(), idx)
}

/// The confirmation row of one imported file, given the chapter number proposed
/// for it and the volume found for that chapter, if any.
pub fn import_row(
    filename: String,
    manga_name: &str,
    chapter_number: String,
    tankobon: Option<u32>,
    pdf_bytes: Vec<u8>,
) -> (r: ImportRow)
    ensures
        r.filename@ == filename@,
        r.manga_name@ == manga_name@,
        r.chapter_number@ == chapter_number@,
        r.tankobon_number@ == match tankobon {
            Some(n) => decimal(n as nat),
            None => Seq::<char>::empty(),
        },
        r.pdf_bytes@ == pdf_bytes@,
{
    let mut tankobon_number = String::new();
    if let Some(n) = tankobon {
        push_decimal(&mut tankobon_number, n as usize);
        assert(tankobon_number@ =~= decimal(n as nat));
    }
    ImportRow {
        filename,
        manga_name: manga_name.to_owned(),
        chapter_number,
        tankobon_number,
        pdf_bytes,
    }
}

impl ImportRow {
    /// The volume number typed in the row: none when the field is empty or
    /// not a `u32`.
    pub fn tankobon_value(&self) -> (r: Option<u32>)
        ensures
            r == parse_u32_spec(self.tankobon_number@),
    {
        let cs = chars_of(self.tankobon_number.as_str());
        assert(cs@.subrange(0, cs@.len() as int) =~= self.tankobon_number@);
        parse_u32_range(&cs, 0, cs.len())
    }
}

/// Position of the first of `existing` whose title equals `name` ignoring
/// case (equal lower-case forms); an imported chapter joins that series.
pub fn matching_manga(existing: &Vec<MangaMeta>, name: &str) -> (r: Option<usize>)
    ensures
        match r {
            Some(i) => i < existing@.len()
                && lowercase(existing@[i as int].title@) == lowercase(name@)
                && forall|j: int| 0 <= j < i ==> lowercase(#[trigger] existing@[j].title@) != lowercase(name@),
            None => forall|j: int| 0 <= j < existing@.len()
                ==> lowercase(#[trigger] existing@[j].title@) != lowercase(name@),
        },
{
    let target = to_lowercase(name);
    let mut i: usize = 0;
    while i < existing.len()
        invariant
            i <= existing@.len(),
            target@ == lowercase(name@),
            forall|j: int| 0 <= j < i ==> lowercase(#[trigger] existing@[j].title@) != lowercase(name@),
        decreases existing.len() - i,
    {
        let t = to_lowercase(existing[i].title.as_str());
        if str_equal(t.as_str(), target.as_str()) {
            return Some(i);
        }
        i = i + 1;
    }
    None
}

} // verus!
