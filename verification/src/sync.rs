//! WeebCentral series: the proxy's record types, the requests made to the
//! proxy, and the chapter bookkeeping of a download.

use vstd::prelude::*;
use vstd::string::StringSliceAdditionalSpecFns;
use crate::chapter_number::{
    float_le, float_less, float_lt, is_finite_bits, is_nan_bits, INFINITY_BITS, NEG_INFINITY_BITS, SIGN_BIT,
};
use crate::models::{ChapterId, ChapterMeta, ChapterSource, MangaId};
use crate::ordering::{
    lemma_stable_sorted_is_sorted_permutation, ChapterNumbered, sort_by_chapter_number, stable_sorted,
};
use crate::text::{
    chars_of, find_char, find_seq, first_index, first_occurrence, lemma_first_index_range,
    string_of_range,
};

verus! {

/// Series record returned by the proxy.
#[derive(Debug, Clone)]
pub struct WcSeriesMeta {
    pub title: String,
    pub series_id: String,
}

/// Chapter record returned by the proxy.
#[derive(Debug, Clone)]
pub struct WcChapter {
    /// Bit pattern of the single-precision chapter number.
    pub number_bits: u32,
    pub id: String,
}

impl ChapterNumbered for WcChapter {
    open spec fn number_bits_spec(&self) -> u32 {
        self.number_bits
    }

    fn number_bits(&self) -> (b: u32) {
        self.number_bits
    }
}

/// Page record returned by the proxy.
#[derive(Debug, Clone)]
pub struct WcPage {
    pub url: String,
    pub width: u32,
    pub height: u32,
}

/// `s` up to (not including) its first `c`.
pub open spec fn prefix_before(s: Seq<char>, c: char) -> Seq<char> {
    match first_index(s, c) {
        Some(i) => s.take(i),
        None => s,
    }
}

/// The series id in a series URL: the text after the first `/series/` up to
/// the next `/`, when not empty.
pub open spec fn series_id_of(url: Seq<char>) -> Option<Seq<char>> {
    match first_occurrence(url, "/series/"@) {
        None => None,
        Some(p) => {
            let id = prefix_before(url.skip(p + "/series/"@.len()), '/');
            if id.len() == 0 { None } else { Some(id) }
        },
    }
}

/// The series id of a WeebCentral series URL:
/// `https://weebcentral.com/series/01J76XY7E9FNDZ1DBBM6PBJPFK/one-piece`
/// gives `01J76XY7E9FNDZ1DBBM6PBJPFK`.
pub fn extract_series_id(url: &str) -> (r: Option<String>)
    ensures
        match r {
            Some(id) => series_id_of(url@) == Some(id@),
            None => series_id_of(url@) is None,
        },
{
    let cs = chars_of(url);
    let pat = chars_of("/series/");
    let p = match find_seq(&cs, &pat) {
        None => return None,
        Some(p) => p,
    };
    let n = cs.len();
    proof { crate::text::lemma_first_occurrence(cs@, pat@); }
    let start = p + pat.len();
    let f = find_char(&cs, start, n, '/');
    proof {
        lemma_first_index_range(cs@, start as int, n as int, '/', f);
        assert(cs@.skip(start as int) =~= cs@.subrange(start as int, n as int));
    }
    let end = match f {
        Some(e) => e,
        None => n,
    };
    proof {
        match f {
            Some(e) => assert(cs@.skip(start as int).take(e - start) =~= cs@.subrange(start as int, e as int)),
            None => {},
        }
    }
    if end == start {
        None
    } else {
        Some(string_of_range(&cs, start, end))
    }
}

/// The URL is a WeebCentral series URL: it contains
/// `weebcentral.com/series/`.
pub fn is_series_url(url: &str) -> (r: bool)
    ensures
        r == (first_occurrence(url@, "weebcentral.com/series/"@) is Some),
{
    let cs = chars_of(url);
    let pat = chars_of("weebcentral.com/series/");
    find_seq(&cs, &pat).is_some()
}

/// The byte `b` is sent as is: ASCII letters and digits and `-`, `.`, `_`,
/// `~`.
pub open spec fn is_unreserved(b: u8) -> bool {
    ||| 0x30 <= b <= 0x39
    ||| 0x41 <= b <= 0x5a
    ||| 0x61 <= b <= 0x7a
    ||| b == 0x2d || b == 0x2e || b == 0x5f || b == 0x7e
}

/// Upper-case hexadecimal digit for `d` (`0 <= d < 16`).
pub open spec fn hex_upper(d: int) -> char {
    if d < 10 { ((d + 0x30) as u8) as char } else { ((d - 10 + 0x41) as u8) as char }
}

/// Percent-encoding of a byte string: unreserved bytes as themselves, every
/// other byte as `%` and two upper-case hexadecimal digits.
pub open spec fn percent_encode(bytes: Seq<u8>) -> Seq<char>
    decreases bytes.len(),
{
    if bytes.len() == 0 {
        Seq::empty()
    } else {
        let b = bytes.last();
        percent_encode(bytes.drop_last()) + if is_unreserved(b) {
            seq![b as char]
        } else {
            seq!['%', hex_upper((b / 16) as int), hex_upper((b % 16) as int)]
        }
    }
}

/// `urlencoding::encode`: percent-encodes the UTF-8 bytes of `s`, keeping
/// ASCII alphanumerics and `-`, `.`, `_`, `~`.
#[verifier::external_body]
fn url_encode(s: &str) -> (r: String)
    ensures
        r@ == percent_encode(s.spec_bytes()),
{
    urlencoding::encode(s).into_owned()
}

/// Proxy request for the metadata of the series at `series_url`.
pub fn series_meta_request(proxy_url: &str, series_url: &str) -> (r: String)
    ensures
        r@ == proxy_url@ + "/api/series?url="@ + percent_encode(series_url.spec_bytes()),
{
    let encoded = url_encode(series_url);
    let r = proxy_url.to_owned().concat("/api/series?url=").concat(encoded.as_str());
    r
}

/// Proxy request for the chapter list of a series.
pub fn chapter_list_request(proxy_url: &str, series_id: &str) -> (r: String)
    ensures
        r@ == proxy_url@ + "/api/chapters/"@ + series_id@,
{
    proxy_url.to_owned().concat("/api/chapters/").concat(series_id)
}

/// Proxy request for the pages of a chapter.
pub fn chapter_pages_request(proxy_url: &str, chapter_id: &str) -> (r: String)
    ensures
        r@ == proxy_url@ + "/api/pages/"@ + chapter_id@,
{
    proxy_url.to_owned().concat("/api/pages/").concat(chapter_id)
}

/// The chapter record saved for a downloaded web chapter.
pub fn downloaded_chapter(
    chapter: &WcChapter,
    manga_id: &MangaId,
    tankobon_number: Option<u32>,
    filename: String,
    pages: &Vec<WcPage>,
) -> (c: ChapterMeta)
    ensures
        c.id.0@ == chapter.id@,
        c.manga_id.0@ == manga_id.0@,
        c.chapter_number_bits == chapter.number_bits,
        c.tankobon_number == tankobon_number,
        c.filename@ == filename@,
        c.page_count == pages@.len() as u32,
        c.source matches ChapterSource::WeebCentral { chapter_id } && chapter_id@ == chapter.id@,
        c.page_urls@.len() == pages@.len(),
        forall|i: int| 0 <= i < pages@.len() ==> (#[trigger] c.page_urls@[i])@ == pages@[i].url@,
{
    let mut urls: Vec<String> = Vec::new();
    let mut i: usize = 0;
    while i < pages.len()
        invariant
            i <= pages@.len(),
            urls@.len() == i,
            forall|j: int| 0 <= j < i ==> (#[trigger] urls@[j])@ == pages@[j].url@,
        decreases pages.len() - i,
    {
        urls.push(pages[i].url.clone());
        i = i + 1;
    }
    ChapterMeta {
        id: ChapterId(chapter.id.clone()),
        manga_id: MangaId(manga_id.0.clone()),
        chapter_number_bits: chapter.number_bits,
        tankobon_number,
        filename,
        page_count: pages.len() as u32,
        source: ChapterSource::WeebCentral { chapter_id: chapter.id.clone() },
        page_urls: urls,
    }
}

/// The chapter number lies within the optional bounds: not below `from`
/// and not above `to` (IEEE comparisons).
pub open spec fn within_bounds(bits: u32, from: Option<u32>, to: Option<u32>) -> bool {
    &&& (from matches Some(f) ==> !float_lt(bits, f))
    &&& (to matches Some(t) ==> !float_lt(t, bits))
}

/// The chapters of `s` within the bounds, in order.
pub open spec fn chapters_within(s: Seq<WcChapter>, from: Option<u32>, to: Option<u32>) -> Seq<WcChapter>
    decreases s.len(),
{
    if s.len() == 0 {
        s
    } else if within_bounds(s.last().number_bits, from, to) {
        chapters_within(s.drop_last(), from, to).push(s.last())
    } else {
        chapters_within(s.drop_last(), from, to)
    }
}

/// The chapter range is usable: not both bounds given with `from` above
/// `to`.
pub open spec fn range_ordered(from: Option<u32>, to: Option<u32>) -> bool {
    !(from matches Some(f) && to matches Some(t) && float_lt(t, f))
}

/// The requested chapter range is ordered (`from` not above `to`).
pub fn chapter_range_ordered(from: Option<u32>, to: Option<u32>) -> (r: bool)
    ensures
        r == range_ordered(from, to),
{
    match (from, to) {
        (Some(f), Some(t)) => !float_less(t, f),
        _ => true,
    }
}

/// The chapters to import from a series: sorted by chapter number (stable),
/// keeping those within the optional bounds.
pub fn chapters_in_range(chapters: Vec<WcChapter>, from: Option<u32>, to: Option<u32>) -> (r: Vec<WcChapter>)
    ensures
        r@ == chapters_within(stable_sorted(chapters@), from, to),
        forall|i: int| 0 <= i < r@.len() ==> chapters@.contains(#[trigger] r@[i]),
        forall|i: int| 0 <= i < r@.len() ==> (from matches Some(f) ==> !float_lt((#[trigger] r@[i]).number_bits, f)),
        forall|i: int| 0 <= i < r@.len() ==> (to matches Some(t) ==> !float_lt(t, (#[trigger] r@[i]).number_bits)),
        forall|j: int| 0 <= j < chapters@.len()
            && (from matches Some(f) ==> !float_lt((#[trigger] chapters@[j]).number_bits, f))
            && (to matches Some(t) ==> !float_lt(t, chapters@[j].number_bits))
            ==> r@.contains(chapters@[j]),
{
    let sorted = sort_by_chapter_number(chapters);
    let ghost s = sorted@;
    let mut input = sorted;
    let mut out: Vec<WcChapter> = Vec::new();
    let n = input.len();
    let mut i: usize = 0;
    while input.len() > 0
        invariant
            n == s.len(),
            i + input.len() == n,
            input@ == s.skip(i as int),
            out@ == chapters_within(s.take(i as int), from, to),
        decreases input.len(),
    {
        let c = input.remove(0);
        proof {
            assert(s.take(i + 1).drop_last() =~= s.take(i as int));
            assert(s.take(i + 1).last() == c);
            assert(input@ =~= s.skip(i + 1));
        }
        let keep_low = match from {
            Some(f) => !float_less(c.number_bits, f),
            None => true,
        };
        let keep_high = match to {
            Some(t) => !float_less(t, c.number_bits),
            None => true,
        };
        if keep_low && keep_high {
            out.push(c);
        }
        i = i + 1;
    }
    proof {
        assert(s.take(i as int) =~= s);
        lemma_sorted_same_items(chapters@);
        lemma_range_keeps_exactly_the_chapters_in_bounds(s, from, to);
        assert forall|j: int| 0 <= j < chapters@.len()
            && (from matches Some(f) ==> !float_lt((#[trigger] chapters@[j]).number_bits, f))
            && (to matches Some(t) ==> !float_lt(t, chapters@[j].number_bits))
            implies out@.contains(chapters@[j]) by {
            assert(chapters@.contains(chapters@[j]));
            assert(stable_sorted(chapters@).contains(chapters@[j]));
            assert(s == stable_sorted(chapters@));
        }
    }
    out
}

/// The largest chapter number of `s` as `f32::max` folds it from minus
/// infinity: NaN is ignored, and of two equal numbers (the two zeros) the
/// one already held is kept.
pub open spec fn max_number(s: Seq<WcChapter>) -> u32
    decreases s.len(),
{
    if s.len() == 0 {
        NEG_INFINITY_BITS
    } else {
        let acc = max_number(s.drop_last());
        let x = s.last().number_bits;
        if !is_nan_bits(x) && float_lt(acc, x) { x } else { acc }
    }
}

/// The latest downloaded chapter after a sync that brought `new_chapters`,
/// when it changes: the largest new number, if it is finite and above the
/// `current` one (no current value counts as minus infinity).
pub open spec fn raised_latest(current: Option<u32>, new_chapters: Seq<WcChapter>) -> Option<u32> {
    let m = max_number(new_chapters);
    let cur = match current {
        Some(c) => c,
        None => NEG_INFINITY_BITS,
    };
    if !is_finite_bits(m) || float_le(m, cur) { None } else { Some(m) }
}

/// IEEE `a <= b` on two bit patterns.
fn float_less_eq(a: u32, b: u32) -> (r: bool)
    ensures
        r == float_le(a, b),
{
    let ma: u32 = if a < SIGN_BIT { a } else { a - SIGN_BIT };
    let mb: u32 = if b < SIGN_BIT { b } else { b - SIGN_BIT };
    if ma > INFINITY_BITS || mb > INFINITY_BITS {
        false
    } else {
        float_less(a, b) || a == b || (ma == 0 && mb == 0)
    }
}

/// The new value of the latest downloaded chapter after syncing
/// `new_chapters` (see `raised_latest`); `None` leaves it as it is.
pub fn raised_latest_chapter(current: Option<u32>, new_chapters: &Vec<WcChapter>) -> (r: Option<u32>)
    ensures
        r == raised_latest(current, new_chapters@),
{
    let mut m: u32 = NEG_INFINITY_BITS;
    let mut i: usize = 0;
    while i < new_chapters.len()
        invariant
            i <= new_chapters@.len(),
            m == max_number(new_chapters@.take(i as int)),
        decreases new_chapters.len() - i,
    {
        proof {
            assert(new_chapters@.take(i + 1).drop_last() =~= new_chapters@.take(i as int));
            assert(new_chapters@.take(i + 1).last() == new_chapters@[i as int]);
        }
        let x = new_chapters[i].number_bits;
        let mx: u32 = if x < SIGN_BIT { x } else { x - SIGN_BIT };
        if mx <= INFINITY_BITS && float_less(m, x) {
            m = x;
        }
        i = i + 1;
    }
    proof {
        assert(new_chapters@.take(i as int) =~= new_chapters@);
    }
    let cur = match current {
        Some(c) => c,
        None => NEG_INFINITY_BITS,
    };
    let mm: u32 = if m < SIGN_BIT { m } else { m - SIGN_BIT };
    if mm >= INFINITY_BITS || float_less_eq(m, cur) {
        None
    } else {
        Some(m)
    }
}

/// The latest downloaded chapter only ever increases: a new value is a
/// finite number of one of the synced chapters, above the current value
/// whenever that is a number.
pub proof fn lemma_latest_only_increases(current: Option<u32>, new_chapters: Seq<WcChapter>)
    ensures
        raised_latest(current, new_chapters) matches Some(x) ==> {
            &&& is_finite_bits(x)
            &&& (current matches Some(c) ==> (!is_nan_bits(c) ==> float_lt(c, x)))
            &&& exists|i: int| 0 <= i < new_chapters.len() && #[trigger] new_chapters[i].number_bits == x
        },
{
    lemma_max_number_is_member(new_chapters);
}

proof fn lemma_max_number_is_member(s: Seq<WcChapter>)
    ensures
        max_number(s) == NEG_INFINITY_BITS || exists|i: int| 0 <= i < s.len() && #[trigger] s[i].number_bits
            == max_number(s),
    decreases s.len(),
{
    if s.len() > 0 {
        lemma_max_number_is_member(s.drop_last());
        let acc = max_number(s.drop_last());
        if max_number(s) != NEG_INFINITY_BITS {
            if max_number(s) == s.last().number_bits {
                assert(s[s.len() - 1].number_bits == max_number(s));
            } else {
                let i = choose|i: int| 0 <= i < s.drop_last().len() && #[trigger] s.drop_last()[i].number_bits == acc;
                assert(s[i].number_bits == max_number(s));
            }
        }
    }
}

/// A chapter with this id is already stored.
pub open spec fn is_stored(existing: Seq<ChapterMeta>, id: Seq<char>) -> bool {
    exists|i: int| 0 <= i < existing.len() && #[trigger] existing[i].id.0@ == id
}

/// A remote chapter is fetched by a sync: it is not stored yet and not
/// below the bound `from` (IEEE comparison).
pub open spec fn fetched_by_sync(c: WcChapter, existing: Seq<ChapterMeta>, from: Option<u32>) -> bool {
    &&& !is_stored(existing, c.id@)
    &&& (from matches Some(f) ==> !float_lt(c.number_bits, f))
}

/// The chapters of `s` that a sync fetches, in order.
pub open spec fn sync_kept(s: Seq<WcChapter>, existing: Seq<ChapterMeta>, from: Option<u32>) -> Seq<WcChapter>
    decreases s.len(),
{
    if s.len() == 0 {
        s
    } else if fetched_by_sync(s.last(), existing, from) {
        sync_kept(s.drop_last(), existing, from).push(s.last())
    } else {
        sync_kept(s.drop_last(), existing, from)
    }
}

/// Whether a chapter with id `id` is among `existing`.
fn stored(existing: &Vec<ChapterMeta>, id: &String) -> (r: bool)
    ensures
        r == is_stored(existing@, id@),
{
    let mut i: usize = 0;
    while i < existing.len()
        invariant
            i <= existing@.len(),
            forall|j: int| 0 <= j < i ==> existing@[j].id.0@ != id@,
        decreases existing.len() - i,
    {
        if existing[i].id.0 == *id {
            return true;
        }
        i = i + 1;
    }
    false
}

/// The chapters a sync of a followed series downloads: the remote chapter
/// list sorted by number (stable), without the chapters already stored and
/// those below `from`.
pub fn chapters_to_sync(remote: Vec<WcChapter>, existing: &Vec<ChapterMeta>, from: Option<u32>) -> (r: Vec<WcChapter>)
    ensures
        r@ == sync_kept(stable_sorted(remote@), existing@, from),
        forall|i: int| 0 <= i < r@.len() ==> remote@.contains(#[trigger] r@[i]),
        forall|i: int, e: int| 0 <= i < r@.len() && 0 <= e < existing@.len()
            ==> (#[trigger] existing@[e]).id.0@ != (#[trigger] r@[i]).id@,
        forall|i: int| 0 <= i < r@.len() ==> (from matches Some(f) ==> !float_lt((#[trigger] r@[i]).number_bits, f)),
        forall|j: int| 0 <= j < remote@.len()
            && (forall|e: int| 0 <= e < existing@.len() ==> (#[trigger] existing@[e]).id.0@ != remote@[j].id@)
            && (from matches Some(f) ==> !float_lt((#[trigger] remote@[j]).number_bits, f))
            ==> r@.contains(remote@[j]),
{
    let sorted = sort_by_chapter_number(remote);
    let ghost s = sorted@;
    let mut input = sorted;
    let mut out: Vec<WcChapter> = Vec::new();
    let n = input.len();
    let mut i: usize = 0;
    while input.len() > 0
        invariant
            n == s.len(),
            i + input.len() == n,
            input@ == s.skip(i as int),
            out@ == sync_kept(s.take(i as int), existing@, from),
        decreases input.len(),
    {
        let c = input.remove(0);
        proof {
            assert(s.take(i + 1).drop_last() =~= s.take(i as int));
            assert(s.take(i + 1).last() == c);
            assert(input@ =~= s.skip(i + 1));
        }
        let fresh = !stored(existing, &c.id);
        let above = match from {
            Some(f) => !float_less(c.number_bits, f),
            None => true,
        };
        if fresh && above {
            out.push(c);
        }
        i = i + 1;
    }
    proof {
        assert(s.take(i as int) =~= s);
        lemma_sorted_same_items(remote@);
        lemma_sync_fetches_exactly_the_new_chapters(s, existing@, from);
        assert forall|j: int| 0 <= j < remote@.len()
            && (forall|e: int| 0 <= e < existing@.len() ==> (#[trigger] existing@[e]).id.0@ != remote@[j].id@)
            && (from matches Some(f) ==> !float_lt((#[trigger] remote@[j]).number_bits, f))
            implies out@.contains(remote@[j]) by {
            assert(remote@.contains(remote@[j]));
            assert(stable_sorted(remote@).contains(remote@[j]));
            assert(s == stable_sorted(remote@));
        }
    }
    out
}

/// A sorted copy holds exactly the items of the input.
proof fn lemma_sorted_same_items(s: Seq<WcChapter>)
    ensures
        forall|x: WcChapter| #[trigger] stable_sorted(s).contains(x) <==> s.contains(x),
{
    broadcast use vstd::seq_lib::group_to_multiset_ensures;
    lemma_stable_sorted_is_sorted_permutation(s);
    assert forall|x: WcChapter| #[trigger] stable_sorted(s).contains(x) <==> s.contains(x) by {
        assert(stable_sorted(s).to_multiset().count(x) == s.to_multiset().count(x));
    }
}

/// Chapter range of an import: every chapter kept comes from the input and
/// is neither below `from` nor above `to` (IEEE comparisons, each bound
/// applying on its own), and every input chapter within both bounds is kept.
pub proof fn lemma_range_keeps_exactly_the_chapters_in_bounds(s: Seq<WcChapter>, from: Option<u32>, to: Option<u32>)
    ensures
        forall|i: int| 0 <= i < chapters_within(s, from, to).len() ==> s.contains(#[trigger] chapters_within(s, from, to)[i]),
        forall|i: int| 0 <= i < chapters_within(s, from, to).len() ==> (from matches Some(f)
            ==> !float_lt((#[trigger] chapters_within(s, from, to)[i]).number_bits, f)),
        forall|i: int| 0 <= i < chapters_within(s, from, to).len() ==> (to matches Some(t)
            ==> !float_lt(t, (#[trigger] chapters_within(s, from, to)[i]).number_bits)),
        forall|j: int| 0 <= j < s.len()
            && (from matches Some(f) ==> !float_lt((#[trigger] s[j]).number_bits, f))
            && (to matches Some(t) ==> !float_lt(t, s[j].number_bits))
            ==> chapters_within(s, from, to).contains(s[j]),
    decreases s.len(),
{
    if s.len() > 0 {
        let p = s.drop_last();
        lemma_range_keeps_exactly_the_chapters_in_bounds(p, from, to);
        let rp = chapters_within(p, from, to);
        let r = chapters_within(s, from, to);
        assert forall|i: int| 0 <= i < r.len() implies s.contains(#[trigger] r[i]) by {
            if i < rp.len() {
                assert(r[i] == rp[i]);
                assert(p.contains(rp[i]));
                let k = choose|k: int| 0 <= k < p.len() && p[k] == rp[i];
                assert(s[k] == p[k]);
            } else {
                assert(r[i] == s[s.len() - 1]);
            }
        }
        assert forall|i: int| 0 <= i < r.len() implies (to matches Some(t) ==> !float_lt(t, (#[trigger] r[i]).number_bits)) by {
            if i < rp.len() {
                assert(r[i] == rp[i]);
            }
        }
        assert forall|i: int| 0 <= i < r.len() implies (from matches Some(f) ==> !float_lt((#[trigger] r[i]).number_bits, f)) by {
            if i < rp.len() {
                assert(r[i] == rp[i]);
            }
        }
        assert forall|j: int| 0 <= j < s.len()
            && (from matches Some(f) ==> !float_lt((#[trigger] s[j]).number_bits, f))
            && (to matches Some(t) ==> !float_lt(t, s[j].number_bits))
            implies r.contains(s[j]) by {
            if j < s.len() - 1 {
                assert(s[j] == p[j]);
                assert(rp.contains(p[j]));
                let k = choose|k: int| 0 <= k < rp.len() && rp[k] == p[j];
                assert(r[k] == rp[k]);
            } else {
                assert(r[r.len() - 1] == s[j]);
            }
        }
    }
}

/// Sync of a followed series: no chapter it fetches is already stored
/// (whatever the bound), none is below `from`, each comes from the remote
/// list, and every remote chapter that is not stored and not below `from`
/// is fetched.
pub proof fn lemma_sync_fetches_exactly_the_new_chapters(s: Seq<WcChapter>, existing: Seq<ChapterMeta>, from: Option<u32>)
    ensures
        forall|i: int| 0 <= i < sync_kept(s, existing, from).len() ==> s.contains(#[trigger] sync_kept(s, existing, from)[i]),
        forall|i: int, e: int| 0 <= i < sync_kept(s, existing, from).len() && 0 <= e < existing.len()
            ==> (#[trigger] existing[e]).id.0@ != (#[trigger] sync_kept(s, existing, from)[i]).id@,
        forall|i: int| 0 <= i < sync_kept(s, existing, from).len() ==> (from matches Some(f)
            ==> !float_lt((#[trigger] sync_kept(s, existing, from)[i]).number_bits, f)),
        forall|j: int| 0 <= j < s.len()
            && (forall|e: int| 0 <= e < existing.len() ==> (#[trigger] existing[e]).id.0@ != s[j].id@)
            && (from matches Some(f) ==> !float_lt((#[trigger] s[j]).number_bits, f))
            ==> sync_kept(s, existing, from).contains(s[j]),
    decreases s.len(),
{
    if s.len() > 0 {
        let p = s.drop_last();
        lemma_sync_fetches_exactly_the_new_chapters(p, existing, from);
        let rp = sync_kept(p, existing, from);
        let r = sync_kept(s, existing, from);
        assert forall|i: int| 0 <= i < r.len() implies s.contains(#[trigger] r[i]) by {
            if i < rp.len() {
                assert(r[i] == rp[i]);
                assert(p.contains(rp[i]));
                let k = choose|k: int| 0 <= k < p.len() && p[k] == rp[i];
                assert(s[k] == p[k]);
            } else {
                assert(r[i] == s[s.len() - 1]);
            }
        }
        assert forall|i: int, e: int| 0 <= i < r.len() && 0 <= e < existing.len()
            implies (#[trigger] existing[e]).id.0@ != (#[trigger] r[i]).id@ by {
            if i < rp.len() {
                assert(r[i] == rp[i]);
            } else {
                assert(r[i] == s.last());
                assert(!is_stored(existing, s.last().id@));
            }
        }
        assert forall|i: int| 0 <= i < r.len() implies (from matches Some(f) ==> !float_lt((#[trigger] r[i]).number_bits, f)) by {
            if i < rp.len() {
                assert(r[i] == rp[i]);
            }
        }
        assert forall|j: int| 0 <= j < s.len()
            && (forall|e: int| 0 <= e < existing.len() ==> (#[trigger] existing[e]).id.0@ != s[j].id@)
            && (from matches Some(f) ==> !float_lt((#[trigger] s[j]).number_bits, f))
            implies r.contains(s[j]) by {
            if j < s.len() - 1 {
                assert(s[j] == p[j]);
                assert(rp.contains(p[j]));
                let k = choose|k: int| 0 <= k < rp.len() && rp[k] == p[j];
                assert(r[k] == rp[k]);
            } else {
                assert(!is_stored(existing, s[j].id@));
                assert(r[r.len() - 1] == s[j]);
            }
        }
    }
}

} // verus!
