//! Stored records: manga series, chapters, reading progress, and the
//! interleaved library view of volumes and lone chapters.

use vstd::prelude::*;
use crate::ordering::{ChapterNumbered, sort_by_chapter_number, stable_sorted};

verus! {

/// Where a manga series comes from.
#[derive(Debug, Clone)]
pub enum MangaSource {
    Local,
    WeebCentral { series_url: String },
}

impl Default for MangaSource {
    fn default() -> (s: Self)
        ensures
            s is Local,
    {
        MangaSource::Local
    }
}

/// Where a chapter comes from.
#[derive(Debug, Clone)]
pub enum ChapterSource {
    Local,
    WeebCentral { chapter_id: String },
}

impl Default for ChapterSource {
    fn default() -> (s: Self)
        ensures
            s is Local,
    {
        ChapterSource::Local
    }
}

/// Identifier of a manga series.
#[derive(Debug, Clone)]
pub struct MangaId(pub String);

/// Identifier of a chapter.
#[derive(Debug, Clone)]
pub struct ChapterId(pub String);

/// A manga series.
#[derive(Debug, Clone)]
pub struct MangaMeta {
    pub id: MangaId,
    pub title: String,
    pub mangadex_id: Option<String>,
    pub source: MangaSource,
}

/// A chapter of a manga series.
#[derive(Debug, Clone)]
pub struct ChapterMeta {
    pub id: ChapterId,
    pub manga_id: MangaId,
    /// Fractional chapter number (e.g. 1.5 for a bonus chapter), as the bit
    /// pattern of a single-precision float; it orders the chapters.
    pub chapter_number_bits: u32,
    pub tankobon_number: Option<u32>,
    pub filename: String,
    pub page_count: u32,
    pub source: ChapterSource,
    /// Image URLs of web chapters; empty for local chapters.
    pub page_urls: Vec<String>,
}

impl ChapterNumbered for ChapterMeta {
    open spec fn number_bits_spec(&self) -> u32 {
        self.chapter_number_bits
    }

    fn number_bits(&self) -> (b: u32) {
        self.chapter_number_bits
    }
}

/// An entry in the interleaved library view.
#[derive(Debug, Clone)]
pub enum LibraryEntry {
    /// A physical volume grouping one or more chapters.
    Tankobon { number: u32, chapters: Vec<ChapterMeta> },
    /// A chapter that belongs to no volume.
    LoneChapter(ChapterMeta),
}

/// Mathematical form of a library entry.
pub enum EntryView {
    Volume { number: u32, chapters: Seq<ChapterMeta> },
    Lone(ChapterMeta),
}

impl View for LibraryEntry {
    type V = EntryView;

    open spec fn view(&self) -> EntryView {
        match self {
            LibraryEntry::Tankobon { number, chapters } => EntryView::Volume {
                number: *number,
                chapters: chapters@,
            },
            LibraryEntry::LoneChapter(c) => EntryView::Lone(*c),
        }
    }
}

/// Reading position within one chapter.
#[derive(Debug, Clone)]
pub struct ReadingProgress {
    pub manga_id: MangaId,
    pub chapter_id: ChapterId,
    pub page: usize,
}

/// The last place the user was, restored on the next start.
#[derive(Debug, Clone)]
pub enum LastOpened {
    Shelf,
    Library { manga_id: String },
    Reader { manga_id: String, chapter_id: String, page: usize },
}

/// The chapters an entry stands for, in order.
pub open spec fn entry_chapters(e: EntryView) -> Seq<ChapterMeta> {
    match e {
        EntryView::Volume { chapters, .. } => chapters,
        EntryView::Lone(c) => seq![c],
    }
}

/// All chapters of a sequence of entries, in order.
pub open spec fn flatten_entries(es: Seq<EntryView>) -> Seq<ChapterMeta>
    decreases es.len(),
{
    if es.len() == 0 {
        Seq::empty()
    } else {
        flatten_entries(es.drop_last()) + entry_chapters(es.last())
    }
}

/// A volume holds at least one chapter, and every chapter in it carries the
/// volume's number; a lone chapter carries no volume number.
pub open spec fn entry_well_formed(e: EntryView) -> bool {
    match e {
        EntryView::Volume { number, chapters } => {
            &&& chapters.len() > 0
            &&& forall|k: int| 0 <= k < chapters.len() ==> #[trigger] chapters[k].tankobon_number
                == Some(number)
        },
        EntryView::Lone(c) => c.tankobon_number is None,
    }
}

/// Two volumes that follow each other have different numbers (each volume
/// is a maximal run of chapters).
pub open spec fn no_adjacent_same_volume(es: Seq<EntryView>) -> bool {
    forall|i: int|
        0 <= i < es.len() - 1 ==> !(#[trigger] es[i] matches EntryView::Volume { number: a, .. }
            && es[i + 1] matches EntryView::Volume { number: b, .. } && a == b)
}

/// The entries are a library view of exactly the chapters `chs`, in that order.
pub open spec fn is_library_view_of(es: Seq<EntryView>, chs: Seq<ChapterMeta>) -> bool {
    &&& flatten_entries(es) == chs
    &&& forall|i: int| 0 <= i < es.len() ==> entry_well_formed(#[trigger] es[i])
    &&& no_adjacent_same_volume(es)
}

/// View of a vector of entries.
pub open spec fn entries_view(v: Seq<LibraryEntry>) -> Seq<EntryView> {
    v.map_values(|e: LibraryEntry| e@)
}

proof fn lemma_flatten_push(es: Seq<EntryView>, e: EntryView)
    ensures
        flatten_entries(es.push(e)) == flatten_entries(es) + entry_chapters(e),
{
    assert(es.push(e).drop_last() =~= es);
}

/// Build the interleaved library view from a flat list of chapters.
///
/// The chapters are stably sorted by chapter number; consecutive chapters
/// with the same volume number form one volume entry, and chapters without a
/// volume number become lone-chapter entries where they fall in the order.
pub fn build_library_entries(chapters: Vec<ChapterMeta>) -> (entries: Vec<LibraryEntry>)
    ensures
        is_library_view_of(entries_view(entries@), stable_sorted(chapters@)),
{
    let sorted = sort_by_chapter_number(chapters);
    let ghost s = sorted@;
    let mut input = sorted;
    let n: usize = input.len();
    let mut entries: Vec<LibraryEntry> = Vec::new();
    let mut pending_number: u32 = 0;
    let mut pending: Vec<ChapterMeta> = Vec::new();
    let mut has_pending: bool = false;
    let mut i: usize = 0;
    while input.len() > 0
        invariant
            n == s.len(),
            i + input.len() == n,
            input@ == s.skip(i as int),
            has_pending ==> pending@.len() > 0,
            !has_pending ==> pending@.len() == 0,
            has_pending ==> forall|k: int| 0 <= k < pending@.len() ==>
                #[trigger] pending@[k].tankobon_number == Some(pending_number),
            flatten_entries(entries_view(entries@)) + pending@ == s.take(i as int),
            forall|j: int| 0 <= j < entries@.len() ==>
                entry_well_formed(#[trigger] entries_view(entries@)[j]),
            no_adjacent_same_volume(entries_view(entries@)),
            has_pending && entries@.len() > 0 ==> !(entries_view(entries@).last() matches
                EntryView::Volume { number: a, .. } && a == pending_number),
            !has_pending && entries@.len() > 0 ==> entries_view(entries@).last() is Lone,
        decreases input.len(),
    {
        let chapter = input.remove(0);
        let ghost old_entries = entries_view(entries@);
        let ghost old_pending = pending@;
        proof {
            assert(s.take(i + 1) =~= s.take(i as int).push(chapter));
            assert(input@ =~= s.skip(i + 1));
        }
        match chapter.tankobon_number {
            Some(vol) => {
                if has_pending && pending_number == vol {
                    pending.push(chapter);
                    proof {
                        assert(flatten_entries(entries_view(entries@)) + pending@ =~=
                            flatten_entries(old_entries) + old_pending + seq![chapter]);
                    }
                } else {
                    if has_pending {
                        let mut group: Vec<ChapterMeta> = Vec::new();
                        std::mem::swap(&mut group, &mut pending);
                        let e = LibraryEntry::Tankobon { number: pending_number, chapters: group };
                        entries.push(e);
                        proof {
                            assert(entries_view(entries@) =~= old_entries.push(e@));
                            lemma_flatten_push(old_entries, e@);
                        }
                    }
                    pending.push(chapter);
                    pending_number = vol;
                    has_pending = true;
                    proof {
                        assert(flatten_entries(entries_view(entries@)) + pending@ =~=
                            flatten_entries(old_entries) + old_pending + seq![chapter]);
                    }
                }
            },
            None => {
                if has_pending {
                    let mut group: Vec<ChapterMeta> = Vec::new();
                        std::mem::swap(&mut group, &mut pending);
                    let e = LibraryEntry::Tankobon { number: pending_number, chapters: group };
                    entries.push(e);
                    has_pending = false;
                    proof {
                        assert(entries_view(entries@) =~= old_entries.push(e@));
                        lemma_flatten_push(old_entries, e@);
                    }
                }
                let ghost mid = entries_view(entries@);
                let e = LibraryEntry::LoneChapter(chapter);
                entries.push(e);
                proof {
                    assert(entries_view(entries@) =~= mid.push(e@));
                    lemma_flatten_push(mid, e@);
                    assert(flatten_entries(entries_view(entries@)) + pending@ =~=
                        flatten_entries(old_entries) + old_pending + seq![chapter]);
                }
            },
        }
        i = i + 1;
    }
    if has_pending {
        let ghost old_entries = entries_view(entries@);
        let e = LibraryEntry::Tankobon { number: pending_number, chapters: pending };
        entries.push(e);
        proof {
            assert(entries_view(entries@) =~= old_entries.push(e@));
            lemma_flatten_push(old_entries, e@);
        }
    }
    proof {
        assert(s.take(i as int) =~= s);
    }
    entries
}

} // verus!
