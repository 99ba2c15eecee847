//! Reading totals shown on the shelf for each manga series.

use vstd::prelude::*;
use crate::chapter_number::{order_key, total_order_key};
use crate::models::{ChapterId, ChapterMeta, MangaId, ReadingProgress};

verus! {

/// Sum of the page counts of `chs`.
pub open spec fn total_pages(chs: Seq<ChapterMeta>) -> int
    decreases chs.len(),
{
    if chs.len() == 0 {
        0
    } else {
        total_pages(chs.drop_last()) + chs.last().page_count
    }
}

/// The first chapter of `chs` whose id is `id`.
pub open spec fn find_chapter(chs: Seq<ChapterMeta>, id: Seq<char>) -> Option<ChapterMeta>
    decreases chs.len(),
{
    if chs.len() == 0 {
        None
    } else if chs[0].id.0@ == id {
        Some(chs[0])
    } else {
        find_chapter(chs.drop_first(), id)
    }
}

/// A saved page index as the 32-bit value the count is taken in (the index
/// modulo 2^32).
pub open spec fn page_as_u32(page: usize) -> int {
    page as int % 0x1_0000_0000
}

/// The chapter a progress record counts for: one of `manga_id`'s chapters
/// that `chs` lists.
pub open spec fn counted_chapter(p: ReadingProgress, chs: Seq<ChapterMeta>, manga_id: Seq<char>) -> Option<ChapterMeta> {
    if p.manga_id.0@ != manga_id {
        None
    } else {
        find_chapter(chs, p.chapter_id.0@)
    }
}

/// Pages one progress record counts as read: the saved (0-based) page plus
/// one, at most the chapter's page count; nothing for another series or an
/// unknown chapter.
pub open spec fn pages_read_of(p: ReadingProgress, chs: Seq<ChapterMeta>, manga_id: Seq<char>) -> int {
    match counted_chapter(p, chs, manga_id) {
        None => 0,
        Some(c) => if page_as_u32(p.page) + 1 <= c.page_count { page_as_u32(p.page) + 1 } else { c.page_count as int },
    }
}

/// Pages read of a series over all progress records.
pub open spec fn pages_read(ps: Seq<ReadingProgress>, chs: Seq<ChapterMeta>, manga_id: Seq<char>) -> int
    decreases ps.len(),
{
    if ps.len() == 0 {
        0
    } else {
        pages_read(ps.drop_last(), chs, manga_id) + pages_read_of(ps.last(), chs, manga_id)
    }
}

/// The 32-bit arithmetic of the totals does not overflow.
pub open spec fn totals_fit(ps: Seq<ReadingProgress>, chs: Seq<ChapterMeta>, manga_id: Seq<char>) -> bool {
    &&& total_pages(chs) <= u32::MAX
    &&& pages_read(ps, chs, manga_id) <= u32::MAX
    &&& forall|i: int| 0 <= i < ps.len() && (#[trigger] counted_chapter(ps[i], chs, manga_id)) is Some
        ==> page_as_u32(ps[i].page) < u32::MAX
}

proof fn lemma_total_pages_monotone(chs: Seq<ChapterMeta>, i: int)
    requires
        0 <= i <= chs.len(),
    ensures
        total_pages(chs.take(i)) <= total_pages(chs),
    decreases chs.len() - i,
{
    if i < chs.len() {
        lemma_total_pages_monotone(chs, i + 1);
        assert(chs.take(i + 1).drop_last() =~= chs.take(i));
    } else {
        assert(chs.take(i) =~= chs);
    }
}

proof fn lemma_pages_read_monotone(ps: Seq<ReadingProgress>, chs: Seq<ChapterMeta>, m: Seq<char>, i: int)
    requires
        0 <= i <= ps.len(),
    ensures
        pages_read(ps.take(i), chs, m) <= pages_read(ps, chs, m),
        pages_read(ps.take(i), chs, m) >= 0,
    decreases ps.len() - i,
{
    if i < ps.len() {
        lemma_pages_read_monotone(ps, chs, m, i + 1);
        assert(ps.take(i + 1).drop_last() =~= ps.take(i));
    } else {
        assert(ps.take(i) =~= ps);
    }
    lemma_pages_read_non_negative(ps.take(i), chs, m);
}

proof fn lemma_pages_read_non_negative(ps: Seq<ReadingProgress>, chs: Seq<ChapterMeta>, m: Seq<char>)
    ensures
        pages_read(ps, chs, m) >= 0,
    decreases ps.len(),
{
    if ps.len() > 0 {
        lemma_pages_read_non_negative(ps.drop_last(), chs, m);
    }
}

/// The first chapter with the given id.
fn find_chapter_exec<'a>(chs: &'a Vec<ChapterMeta>, id: &String) -> (r: Option<&'a ChapterMeta>)
    ensures
        match find_chapter(chs@, id@) {
            Some(c) => r == Some(&c),
            None => r is None,
        },
{
    let mut i: usize = 0;
    assert(chs@.skip(0) =~= chs@);
    while i < chs.len()
        invariant
            i <= chs@.len(),
            find_chapter(chs@, id@) == find_chapter(chs@.skip(i as int), id@),
        decreases chs.len() - i,
    {
        if chs[i].id.0 == *id {
            return Some(&chs[i]);
        }
        proof {
            assert(chs@.skip(i as int).drop_first() =~= chs@.skip(i + 1));
        }
        i = i + 1;
    }
    None
}

/// Pages read and total pages of one series: `total` sums the page counts of
/// its chapters; `read` sums, over the progress records of this series whose
/// chapter is listed, the saved page plus one, capped at that chapter's page
/// count.
pub fn reading_totals(
    manga_id: &MangaId,
    chapters: &Vec<ChapterMeta>,
    progress: &Vec<ReadingProgress>,
) -> (r: (u32, u32))
    requires
        totals_fit(progress@, chapters@, manga_id.0@),
    ensures
        r.0 == pages_read(progress@, chapters@, manga_id.0@),
        r.1 == total_pages(chapters@),
{
    let mut total: u32 = 0;
    let mut i: usize = 0;
    while i < chapters.len()
        invariant
            i <= chapters@.len(),
            total == total_pages(chapters@.take(i as int)),
            total_pages(chapters@) <= u32::MAX,
        decreases chapters.len() - i,
    {
        proof {
            assert(chapters@.take(i + 1).drop_last() =~= chapters@.take(i as int));
            lemma_total_pages_monotone(chapters@, i + 1);
        }
        total = total + chapters[i].page_count;
        i = i + 1;
    }
    proof {
        assert(chapters@.take(i as int) =~= chapters@);
    }
    let mut read: u32 = 0;
    let mut j: usize = 0;
    while j < progress.len()
        invariant
            j <= progress@.len(),
            read == pages_read(progress@.take(j as int), chapters@, manga_id.0@),
            totals_fit(progress@, chapters@, manga_id.0@),
        decreases progress.len() - j,
    {
        let p = &progress[j];
        proof {
            assert(progress@.take(j + 1).drop_last() =~= progress@.take(j as int));
            assert(progress@.take(j + 1).last() == progress@[j as int]);
            lemma_pages_read_monotone(progress@, chapters@, manga_id.0@, j + 1);
        }
        if p.manga_id.0 == manga_id.0 {
            match find_chapter_exec(chapters, &p.chapter_id.0) {
                Some(c) => {
                    assert(counted_chapter(progress@[j as int], chapters@, manga_id.0@) is Some);
                    let pg: usize = p.page;
                    let page: u32 = pg as u32;
                    assert(page == (pg as u64) % 0x1_0000_0000u64) by (bit_vector)
                        requires page == pg as u32;
                    let n: u32 = if page + 1 <= c.page_count { page + 1 } else { c.page_count };
                    read = read + n;
                },
                None => {},
            }
        }
        j = j + 1;
    }
    proof {
        assert(progress@.take(j as int) =~= progress@);
    }
    (read, total)
}

/// `reading_totals` for any input: `None` exactly when the 32-bit totals
/// would overflow (`totals_fit` fails).
pub fn checked_reading_totals(
    manga_id: &MangaId,
    chapters: &Vec<ChapterMeta>,
    progress: &Vec<ReadingProgress>,
) -> (r: Option<(u32, u32)>)
    ensures
        r is Some <==> totals_fit(progress@, chapters@, manga_id.0@),
        r matches Some(t) ==> t.0 == pages_read(progress@, chapters@, manga_id.0@)
            && t.1 == total_pages(chapters@),
{
    let mut total: u32 = 0;
    let mut i: usize = 0;
    while i < chapters.len()
        invariant
            i <= chapters@.len(),
            total == total_pages(chapters@.take(i as int)),
        decreases chapters.len() - i,
    {
        proof {
            assert(chapters@.take(i + 1).drop_last() =~= chapters@.take(i as int));
            lemma_total_pages_monotone(chapters@, i + 1);
        }
        match total.checked_add(chapters[i].page_count) {
            Some(t) => total = t,
            None => return None,
        }
        i = i + 1;
    }
    proof {
        assert(chapters@.take(i as int) =~= chapters@);
    }
    let mut read: u32 = 0;
    let mut j: usize = 0;
    while j < progress.len()
        invariant
            j <= progress@.len(),
            read == pages_read(progress@.take(j as int), chapters@, manga_id.0@),
            forall|k: int| 0 <= k < j && (#[trigger] counted_chapter(progress@[k], chapters@, manga_id.0@)) is Some
                ==> page_as_u32(progress@[k].page) < u32::MAX,
        decreases progress.len() - j,
    {
        let p = &progress[j];
        proof {
            assert(progress@.take(j + 1).drop_last() =~= progress@.take(j as int));
            assert(progress@.take(j + 1).last() == progress@[j as int]);
            lemma_pages_read_monotone(progress@, chapters@, manga_id.0@, j + 1);
        }
        if p.manga_id.0 == manga_id.0 {
            match find_chapter_exec(chapters, &p.chapter_id.0) {
                Some(c) => {
                    assert(counted_chapter(progress@[j as int], chapters@, manga_id.0@) is Some);
                    let pg: usize = p.page;
                    let page: u32 = pg as u32;
                    assert(page == (pg as u64) % 0x1_0000_0000u64) by (bit_vector)
                        requires page == pg as u32;
                    if page == u32::MAX {
                        return None;
                    }
                    let n: u32 = if page + 1 <= c.page_count { page + 1 } else { c.page_count };
                    match read.checked_add(n) {
                        Some(t) => read = t,
                        None => return None,
                    }
                },
                None => {
                    assert(counted_chapter(progress@[j as int], chapters@, manga_id.0@) is None);
                },
            }
        } else {
            assert(counted_chapter(progress@[j as int], chapters@, manga_id.0@) is None);
        }
        j = j + 1;
    }
    proof {
        assert(progress@.take(j as int) =~= progress@);
    }
    Some((read, total))
}

/// Where the cover of a series comes from.
#[derive(Debug, Clone)]
pub enum CoverSource {
    /// The first image URL of a web chapter.
    Remote(String),
    /// The first stored page of a local chapter.
    LocalFirstPage(ChapterId),
    /// The series has no chapters: the stored fallback, if any.
    Fallback,
}

/// `i` is the position of the first chapter of `chs` with the smallest
/// chapter number (the chapter a stable sort by number puts first).
pub open spec fn is_first_chapter(chs: Seq<ChapterMeta>, i: int) -> bool {
    &&& 0 <= i < chs.len()
    &&& forall|j: int| 0 <= j < chs.len() ==>
        total_order_key(chs[i].chapter_number_bits) <= total_order_key(#[trigger] chs[j].chapter_number_bits)
    &&& forall|j: int| 0 <= j < i ==>
        total_order_key(chs[i].chapter_number_bits) < total_order_key(#[trigger] chs[j].chapter_number_bits)
}

/// The cover of a series with chapters `chapters`: taken from its first
/// chapter by chapter number, the first image URL of a web chapter or the
/// first stored page of a local one; the fallback when it has no chapters.
pub fn cover_source(chapters: &Vec<ChapterMeta>) -> (r: CoverSource)
    ensures
        chapters@.len() == 0 ==> r is Fallback,
        chapters@.len() > 0 ==> exists|i: int| #[trigger] is_first_chapter(chapters@, i) && match r {
            CoverSource::Remote(u) => chapters@[i].page_urls@.len() > 0
                && u@ == chapters@[i].page_urls@[0]@,
            CoverSource::LocalFirstPage(id) => chapters@[i].page_urls@.len() == 0
                && id.0@ == chapters@[i].id.0@,
            CoverSource::Fallback => false,
        },
{
    if chapters.len() == 0 {
        return CoverSource::Fallback;
    }
    let mut best: usize = 0;
    let mut best_key: i32 = order_key(chapters[0].chapter_number_bits);
    let mut i: usize = 1;
    while i < chapters.len()
        invariant
            1 <= i <= chapters@.len(),
            best < i,
            best_key == total_order_key(chapters@[best as int].chapter_number_bits),
            forall|j: int| 0 <= j < i ==>
                best_key <= total_order_key(#[trigger] chapters@[j].chapter_number_bits),
            forall|j: int| 0 <= j < best ==>
                best_key < total_order_key(#[trigger] chapters@[j].chapter_number_bits),
        decreases chapters.len() - i,
    {
        let k = order_key(chapters[i].chapter_number_bits);
        if k < best_key {
            best = i;
            best_key = k;
        }
        i = i + 1;
    }
    assert(is_first_chapter(chapters@, best as int));
    let first = &chapters[best];
    if first.page_urls.len() > 0 {
        CoverSource::Remote(first.page_urls[0].clone())
    } else {
        CoverSource::LocalFirstPage(ChapterId(first.id.0.clone()))
    }
}

/// No two progress records are for the same chapter (progress is stored
/// under its chapter's id).
pub open spec fn one_record_per_chapter(ps: Seq<ReadingProgress>) -> bool {
    forall|i: int, j: int| 0 <= i < j < ps.len() ==> ps[i].chapter_id.0@ != ps[j].chapter_id.0@
}

proof fn lemma_total_pages_front(chs: Seq<ChapterMeta>)
    requires
        chs.len() > 0,
    ensures
        total_pages(chs) == chs[0].page_count + total_pages(chs.drop_first()),
    decreases chs.len(),
{
    if chs.len() > 1 {
        lemma_total_pages_front(chs.drop_last());
        assert(chs.drop_last().drop_first() =~= chs.drop_first().drop_last());
        assert(chs.drop_first().last() == chs.last());
        assert(total_pages(chs.drop_first()) == total_pages(chs.drop_first().drop_last())
            + chs.drop_first().last().page_count);
    } else {
        assert(total_pages(chs.drop_last()) == 0);
        assert(total_pages(chs.drop_first()) == 0);
        assert(chs.last() == chs[0]);
    }
}

proof fn lemma_pages_read_remove(ps: Seq<ReadingProgress>, chs: Seq<ChapterMeta>, m: Seq<char>, k: int)
    requires
        0 <= k < ps.len(),
    ensures
        pages_read(ps, chs, m) == pages_read(ps.remove(k), chs, m) + pages_read_of(ps[k], chs, m),
    decreases ps.len(),
{
    if k == ps.len() - 1 {
        assert(ps.remove(k) =~= ps.drop_last());
    } else {
        lemma_pages_read_remove(ps.drop_last(), chs, m, k);
        assert(ps.remove(k).drop_last() =~= ps.drop_last().remove(k));
        assert(ps.remove(k).last() == ps.last());
    }
}

proof fn lemma_pages_read_skip_chapter(ps: Seq<ReadingProgress>, chs: Seq<ChapterMeta>, m: Seq<char>)
    requires
        chs.len() > 0,
        forall|i: int| 0 <= i < ps.len() ==> (#[trigger] ps[i]).chapter_id.0@ != chs[0].id.0@,
    ensures
        pages_read(ps, chs, m) == pages_read(ps, chs.drop_first(), m),
    decreases ps.len(),
{
    if ps.len() > 0 {
        lemma_pages_read_skip_chapter(ps.drop_last(), chs, m);
        assert(ps.last() == ps[ps.len() - 1]);
    }
}

proof fn lemma_pages_read_no_chapters(ps: Seq<ReadingProgress>, chs: Seq<ChapterMeta>, m: Seq<char>)
    requires
        chs.len() == 0,
    ensures
        pages_read(ps, chs, m) == 0,
    decreases ps.len(),
{
    if ps.len() > 0 {
        lemma_pages_read_no_chapters(ps.drop_last(), chs, m);
    }
}

/// The pages counted as read never exceed the series' total when each
/// chapter has at most one progress record: each record counts at most its
/// chapter's page count.
pub proof fn lemma_read_never_exceeds_total(ps: Seq<ReadingProgress>, chs: Seq<ChapterMeta>, manga_id: Seq<char>)
    requires
        one_record_per_chapter(ps),
    ensures
        pages_read(ps, chs, manga_id) <= total_pages(chs),
    decreases chs.len(),
{
    if chs.len() == 0 {
        lemma_pages_read_no_chapters(ps, chs, manga_id);
    } else {
        let rest = chs.drop_first();
        lemma_total_pages_front(chs);
        if exists|k: int| 0 <= k < ps.len() && (#[trigger] ps[k]).chapter_id.0@ == chs[0].id.0@ {
            let k = choose|k: int| 0 <= k < ps.len() && (#[trigger] ps[k]).chapter_id.0@ == chs[0].id.0@;
            let ps2 = ps.remove(k);
            lemma_pages_read_remove(ps, chs, manga_id, k);
            assert forall|i: int| 0 <= i < ps2.len() implies (#[trigger] ps2[i]).chapter_id.0@ != chs[0].id.0@ by {
                if i < k {
                    assert(ps2[i] == ps[i]);
                } else {
                    assert(ps2[i] == ps[i + 1]);
                }
            }
            assert(one_record_per_chapter(ps2)) by {
                assert forall|i: int, j: int| 0 <= i < j < ps2.len() implies ps2[i].chapter_id.0@ != ps2[j].chapter_id.0@ by {
                    let a = if i < k { i } else { i + 1 };
                    let b = if j < k { j } else { j + 1 };
                    assert(ps2[i] == ps[a] && ps2[j] == ps[b]);
                }
            }
            lemma_pages_read_skip_chapter(ps2, chs, manga_id);
            lemma_read_never_exceeds_total(ps2, rest, manga_id);
            assert(find_chapter(chs, ps[k].chapter_id.0@) == Some(chs[0]));
            assert(pages_read_of(ps[k], chs, manga_id) <= chs[0].page_count);
        } else {
            lemma_pages_read_skip_chapter(ps, chs, manga_id);
            lemma_read_never_exceeds_total(ps, rest, manga_id);
        }
    }
}

} // verus!
