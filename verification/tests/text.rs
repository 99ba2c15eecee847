use pmanga::text::{
    chars_of, find_char, find_seq, parse_u32_range, part_bounds, trim_bounds,
    Separator,
};

#[test]
fn trimming_and_splitting() {
    let cs = chars_of("  a b\u{3000}c \t");
    let (a, b) = trim_bounds(&cs, 0, cs.len());
    assert_eq!((a, b), (2, 7));
    assert_eq!(part_bounds(&cs, 0, cs.len(), Separator::Whitespace), vec![(2, 3), (4, 5), (6, 7)]);
    let path = chars_of("/x//y/");
    assert_eq!(part_bounds(&path, 0, path.len(), Separator::Char('/')), vec![(1, 2), (4, 5)]);
}

#[test]
fn searching() {
    let cs = chars_of("abcabc");
    assert_eq!(find_char(&cs, 1, 6, 'a'), Some(3));
    assert_eq!(find_char(&cs, 4, 6, 'a'), None);
    assert_eq!(find_seq(&cs, &chars_of("ca")), Some(2));
    assert_eq!(find_seq(&cs, &chars_of("cc")), None);
}

#[test]
fn u32_parsing() {
    let cs = chars_of("+42|4294967295|4294967296|-1|");
    assert_eq!(parse_u32_range(&cs, 0, 3), Some(42));
    assert_eq!(parse_u32_range(&cs, 4, 14), Some(u32::MAX));
    assert_eq!(parse_u32_range(&cs, 15, 25), None);
    assert_eq!(parse_u32_range(&cs, 26, 28), None);
    assert_eq!(parse_u32_range(&cs, 0, 1), None);
}
