//! The volume (tankobon) table: a CSV file of `manga_title, chapter_number,
//! tankobon_number` rows.

use vstd::prelude::*;
use crate::text::{
    chars_of, find_char, first_index, lemma_first_index_range, parse_u32_range, parse_u32_spec,
    lowercase, split_pieces, split_scan, str_equal, string_of_range, to_lowercase, trim,
    trim_bounds, Separator,
};

verus! {

/// One row of the volume table.
#[derive(Debug, Clone)]
pub struct TankobonRow {
    pub manga_title: String,
    pub chapter: String,
    pub tankobon: u32,
}

/// One chapter of a series as a metadata service lists it, with the volume
/// it was collected in, where it has been.
#[derive(Debug, Clone, PartialEq)]
pub struct ChapterVolumeEntry {
    pub chapter: String,
    pub volume: Option<String>,
}

impl ChapterVolumeEntry {
    /// The volume as a number: `None` when the entry names no volume or the
    /// name is not a `u32` as `u32::from_str` reads it.
    pub fn volume_number(&self) -> (r: Option<u32>)
        ensures
            r == match self.volume {
                Some(v) => parse_u32_spec(v@),
                None => None,
            },
    {
        match &self.volume {
            Some(v) => {
                let cs = chars_of(v.as_str());
                assert(cs@.subrange(0, cs@.len() as int) =~= v@);
                parse_u32_range(&cs, 0, cs.len())
            },
            None => None,
        }
    }
}

/// Where the volumes of an import are looked up.
#[derive(Debug, Clone, Copy, PartialEq, Eq, Structural)]
pub enum VolumeSource {
    /// The chapter list fetched from MangaDex.
    MangaDex,
    /// The bundled volume table.
    Table,
}

/// MangaDex's chapter list takes priority over the volume table whenever the
/// user picked a MangaDex series that lists chapters.
pub fn volume_source(mangadex_entries: &Vec<ChapterVolumeEntry>) -> (r: VolumeSource)
    ensures
        r == (if mangadex_entries@.len() > 0 { VolumeSource::MangaDex } else { VolumeSource::Table }),
{
    if mangadex_entries.len() > 0 {
        VolumeSource::MangaDex
    } else {
        VolumeSource::Table
    }
}

/// A row as (title, chapter, volume).
pub open spec fn row_view(r: TankobonRow) -> (Seq<char>, Seq<char>, u32) {
    (r.manga_title@, r.chapter@, r.tankobon)
}

/// The row a line of the table stands for: the trimmed line is skipped when
/// empty or a `#` comment; otherwise it is split at its first two commas into
/// title, chapter and volume (each trimmed), and skipped when it has fewer
/// than three fields or the volume is not a `u32`.
pub open spec fn csv_row(line: Seq<char>) -> Option<(Seq<char>, Seq<char>, u32)> {
    let t = trim(line);
    if t.len() == 0 || t[0] == '#' {
        None
    } else {
        match first_index(t, ',') {
            None => None,
            Some(i1) => match first_index(t.skip(i1 + 1), ',') {
                None => None,
                Some(k) => {
                    let i2 = i1 + 1 + k;
                    match parse_u32_spec(trim(t.subrange(i2 + 1, t.len() as int))) {
                        None => None,
                        Some(n) => Some((trim(t.take(i1)), trim(t.subrange(i1 + 1, i2)), n)),
                    }
                },
            },
        }
    }
}

/// Rows of a sequence of lines, skipping the lines that hold none.
pub open spec fn csv_rows(lines: Seq<Seq<char>>) -> Seq<(Seq<char>, Seq<char>, u32)>
    decreases lines.len(),
{
    if lines.len() == 0 {
        Seq::empty()
    } else {
        match csv_row(lines.last()) {
            Some(r) => csv_rows(lines.drop_last()).push(r),
            None => csv_rows(lines.drop_last()),
        }
    }
}

/// The rows of a whole table.
pub open spec fn table_rows(csv: Seq<char>) -> Seq<(Seq<char>, Seq<char>, u32)> {
    csv_rows(split_pieces(csv, Separator::Char('\n')))
}

/// The row that the line `cs[a..b]` stands for.
fn parse_line(cs: &Vec<char>, a: usize, b: usize) -> (r: Option<TankobonRow>)
    requires
        a <= b <= cs@.len(),
    ensures
        match r {
            Some(row) => csv_row(cs@.subrange(a as int, b as int)) == Some(row_view(row)),
            None => csv_row(cs@.subrange(a as int, b as int)) is None,
        },
{
    let ghost line = cs@.subrange(a as int, b as int);
    let (ta, tb) = trim_bounds(cs, a, b);
    let ghost t = cs@.subrange(ta as int, tb as int);
    if ta == tb {
        return None;
    }
    assert(t[0] == cs@[ta as int]);
    if cs[ta] == '#' {
        return None;
    }
    let f1 = find_char(cs, ta, tb, ',');
    proof { lemma_first_index_range(cs@, ta as int, tb as int, ',', f1); }
    let i1 = match f1 {
        None => return None,
        Some(i) => i,
    };
    let f2 = find_char(cs, i1 + 1, tb, ',');
    proof {
        lemma_first_index_range(cs@, i1 + 1, tb as int, ',', f2);
        assert(t.skip(i1 + 1 - ta) =~= cs@.subrange(i1 + 1, tb as int));
    }
    let i2 = match f2 {
        None => return None,
        Some(i) => i,
    };
    let (pa, pb) = trim_bounds(cs, i2 + 1, tb);
    proof {
        assert(t.subrange(i2 + 1 - ta, t.len() as int) =~= cs@.subrange(i2 + 1, tb as int));
    }
    let n = match parse_u32_range(cs, pa, pb) {
        None => return None,
        Some(n) => n,
    };
    let (xa, xb) = trim_bounds(cs, ta, i1);
    let (ya, yb) = trim_bounds(cs, i1 + 1, i2);
    proof {
        assert(t.take(i1 - ta) =~= cs@.subrange(ta as int, i1 as int));
        assert(t.subrange(i1 + 1 - ta, i2 - ta) =~= cs@.subrange(i1 + 1, i2 as int));
    }
    let title = string_of_range(cs, xa, xb);
    let chapter = string_of_range(cs, ya, yb);
    Some(TankobonRow { manga_title: title, chapter, tankobon: n })
}

/// Parse the volume table.  Lines that are empty, start with `#`, have fewer
/// than three comma-separated fields, or whose volume is not a number are
/// skipped.
pub fn parse_tankobon_csv(csv: &str) -> (rows: Vec<TankobonRow>)
    ensures
        rows@.map_values(|r: TankobonRow| row_view(r)) == table_rows(csv@),
{
    let cs = chars_of(csv);
    let n = cs.len();
    let mut rows: Vec<TankobonRow> = Vec::new();
    let mut start: usize = 0;
    let mut i: usize = 0;
    let ghost mut done: Seq<Seq<char>> = Seq::empty();
    while i < n
        invariant
            n == cs@.len(),
            start <= i <= n,
            split_scan(cs@.take(i as int), Separator::Char('\n')) == (done, cs@.subrange(start as int, i as int)),
            rows@.map_values(|r: TankobonRow| row_view(r)) == csv_rows(done),
        decreases n - i,
    {
        proof {
            assert(cs@.take(i + 1).drop_last() =~= cs@.take(i as int));
            assert(cs@.take(i + 1).last() == cs@[i as int]);
        }
        if cs[i] == '\n' {
            let ghost piece = cs@.subrange(start as int, i as int);
            let row = parse_line(&cs, start, i);
            let ghost old_rows = rows@;
            match row {
                Some(r) => {
                    rows.push(r);
                    proof {
                        assert(rows@.map_values(|r: TankobonRow| row_view(r)) =~=
                            old_rows.map_values(|r: TankobonRow| row_view(r)).push(row_view(r)));
                    }
                },
                None => {},
            }
            proof {
                assert(done.push(piece).drop_last() =~= done);
                done = done.push(piece);
            }
            start = i + 1;
            proof {
                assert(cs@.subrange(start as int, i + 1) =~= Seq::<char>::empty());
            }
        } else {
            proof {
                assert(cs@.subrange(start as int, i + 1) =~= cs@.subrange(start as int, i as int).push(cs@[i as int]));
            }
        }
        i = i + 1;
    }
    proof {
        assert(cs@.take(n as int) =~= cs@);
    }
    let ghost piece = cs@.subrange(start as int, n as int);
    let row = parse_line(&cs, start, n);
    let ghost old_rows = rows@;
    match row {
        Some(r) => {
            rows.push(r);
            proof {
                assert(rows@.map_values(|r: TankobonRow| row_view(r)) =~=
                    old_rows.map_values(|r: TankobonRow| row_view(r)).push(row_view(r)));
            }
        },
        None => {},
    }
    proof {
        assert(done.push(piece).drop_last() =~= done);
    }
    rows
}

/// Positions of the rows whose title equals `manga_name` ignoring case
/// (equal lower-case forms), in table order.
pub fn rows_for_title(manga_name: &str, rows: &Vec<TankobonRow>) -> (r: Vec<usize>)
    ensures
        forall|k: int| 0 <= k < r@.len() ==> (#[trigger] r@[k]) < rows@.len(),
        forall|k: int, l: int| 0 <= k < l < r@.len() ==> r@[k] < r@[l],
        forall|i: int| 0 <= i < rows@.len() ==> (r@.contains(i as usize)
            <==> lowercase(rows@[i].manga_title@) == lowercase(manga_name@)),
{
    let target = to_lowercase(manga_name);
    let mut r: Vec<usize> = Vec::new();
    let mut i: usize = 0;
    while i < rows.len()
        invariant
            i <= rows@.len(),
            target@ == lowercase(manga_name@),
            forall|k: int| 0 <= k < r@.len() ==> (#[trigger] r@[k]) < i,
            forall|k: int, l: int| 0 <= k < l < r@.len() ==> r@[k] < r@[l],
            forall|j: int| 0 <= j < i ==> (r@.contains(j as usize)
                <==> lowercase(rows@[j].manga_title@) == lowercase(manga_name@)),
        decreases rows.len() - i,
    {
        let t = to_lowercase(rows[i].manga_title.as_str());
        let ghost before = r@;
        if str_equal(t.as_str(), target.as_str()) {
            r.push(i);
        }
        proof {
            assert forall|j: int| 0 <= j < i + 1 implies (r@.contains(j as usize)
                <==> lowercase(rows@[j].manga_title@) == lowercase(manga_name@)) by {
                if j < i {
                    if r@.contains(j as usize) && !before.contains(j as usize) {
                        assert(r@.last() == i);
                    }
                    if before.contains(j as usize) {
                        let w = choose|w: int| 0 <= w < before.len() && before[w] == j as usize;
                        assert(r@[w] == j as usize);
                    }
                } else {
                    if r@.contains(j as usize) && !(r@.len() > before.len()) {
                        let w = choose|w: int| 0 <= w < r@.len() && r@[w] == j as usize;
                        assert(r@[w] < i);
                    }
                    if r@.len() > before.len() {
                        assert(r@[r@.len() - 1] == i);
                    }
                }
            }
        }
        i = i + 1;
    }
    r
}

} // verus!
