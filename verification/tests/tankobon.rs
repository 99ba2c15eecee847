use pmanga::tankobon::{
    parse_tankobon_csv, rows_for_title, volume_source, ChapterVolumeEntry, TankobonRow, VolumeSource,
};

fn row(t: &str, c: &str, v: u32) -> TankobonRow {
    TankobonRow { manga_title: t.to_string(), chapter: c.to_string(), tankobon: v }
}

fn same(a: &[TankobonRow], b: &[TankobonRow]) -> bool {
    a.len() == b.len()
        && a.iter().zip(b).all(|(x, y)| x.manga_title == y.manga_title && x.chapter == y.chapter && x.tankobon == y.tankobon)
}

#[test]
fn csv_rows_are_trimmed_and_parsed() {
    let csv = "# title, chapter, volume\n\n  One Piece , 1 , 1 \nOne Piece,2.5,1\r\nBerserk, 12, +3\n";
    let rows = parse_tankobon_csv(csv);
    assert!(same(&rows, &[row("One Piece", "1", 1), row("One Piece", "2.5", 1), row("Berserk", "12", 3)]));
}

#[test]
fn csv_bad_lines_are_skipped() {
    let csv = "only,two\nA,1,x\nB,1,-1\nC,1,4294967296\nD,1,2,extra\nE,1, 7";
    let rows = parse_tankobon_csv(csv);
    assert_eq!(rows.len(), 1);
    assert_eq!(rows[0].manga_title, "E");
    assert_eq!(rows[0].tankobon, 7);
}

#[test]
fn csv_extra_commas_stay_in_volume_field() {
    // The third field is everything after the second comma.
    let rows = parse_tankobon_csv("D,1,2,3");
    assert!(rows.is_empty());
}

#[test]
fn csv_empty() {
    assert!(parse_tankobon_csv("").is_empty());
    assert!(parse_tankobon_csv("\n\n   \n# x").is_empty());
}

#[test]
fn title_match_ignores_case() {
    let rows = vec![row("One Piece", "1", 1), row("Berserk", "1", 1), row("ONE PIECE", "2", 1)];
    assert_eq!(rows_for_title("one piece", &rows), vec![0, 2]);
    assert_eq!(rows_for_title("BERSERK", &rows), vec![1]);
    assert_eq!(rows_for_title("Naruto", &rows), Vec::<usize>::new());
}

#[test]
fn volume_numbers_of_entries() {
    let e = |v: Option<&str>| ChapterVolumeEntry { chapter: "1".to_string(), volume: v.map(|s| s.to_string()) };
    assert_eq!(e(Some("12")).volume_number(), Some(12));
    assert_eq!(e(Some("none")).volume_number(), None);
    assert_eq!(e(Some("")).volume_number(), None);
    assert_eq!(e(None).volume_number(), None);
}

#[test]
fn mangadex_volumes_take_priority() {
    let e = ChapterVolumeEntry { chapter: "1".to_string(), volume: None };
    assert_eq!(volume_source(&vec![e]), VolumeSource::MangaDex);
    assert_eq!(volume_source(&vec![]), VolumeSource::Table);
}
