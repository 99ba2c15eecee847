use pmanga::padding::{storage_key, ChapterPadding, Padding};
use pmanga::reader_config::{ReaderConfig, TapAction, TapZone};
use pmanga::input::Action;
use pmanga::scroll::{
    is_at_bottom, is_at_top, strip_command, visible_page, StripMove, SCROLL_BOUNDARY_THRESHOLD_PX,
};
use pmanga::zoom::{nonet_column, nonet_row, NonetColumn, NonetRow, PORTRAIT_QUADRANT_COUNT};

fn pad(up: i32, down: i32, left: i32, right: i32) -> Padding {
    Padding { up, down, left, right }
}

#[test]
fn padding_add_and_zero() {
    assert_eq!(pad(1, 2, 3, 4).add(&pad(10, -20, 30, -40)), pad(11, -18, 33, -36));
    assert!(Padding::default().is_zero());
    assert!(!pad(0, 0, 0, 1).is_zero());
}

#[test]
fn effective_padding_alternates_and_clamps() {
    let cp = ChapterPadding { general: pad(5, 5, 5, 5), odd: pad(1, 0, -10, 0), even: pad(0, 2, 0, -10) };
    assert_eq!(cp.effective_for_page(0), pad(6, 5, 0, 5));
    assert_eq!(cp.effective_for_page(1), pad(5, 7, 5, 0));
    assert_eq!(cp.effective_for_page(2), pad(6, 5, 0, 5));
    assert!(!cp.is_zero());
    assert!(ChapterPadding::default().is_zero());
    assert_eq!(ChapterPadding::default().effective_for_page(7), Padding::default());
}

#[test]
fn padding_storage_key() {
    assert_eq!(storage_key("abc"), "pmanga_padding_abc");
}

#[test]
fn tap_zones() {
    let ltr = ReaderConfig::default();
    assert!(!ltr.rtl_taps && !ltr.vertical_scroll);
    assert_eq!(ltr.tap_action(TapZone::Left), TapAction::NavigateBackward);
    assert_eq!(ltr.tap_action(TapZone::Right), TapAction::NavigateForward);
    assert_eq!(ltr.tap_action(TapZone::Top), TapAction::ToggleOverlay);
    assert_eq!(ltr.tap_action(TapZone::Middle), TapAction::Nothing);
    let rtl = ReaderConfig { rtl_taps: true, vertical_scroll: false };
    assert_eq!(rtl.tap_action(TapZone::Left), TapAction::NavigateForward);
    assert_eq!(rtl.tap_action(TapZone::Right), TapAction::NavigateBackward);
}

#[test]
fn scroll_boundaries() {
    assert_eq!(SCROLL_BOUNDARY_THRESHOLD_PX, 8);
    assert!(is_at_top(0));
    assert!(is_at_top(8));
    assert!(!is_at_top(9));
    assert!(is_at_bottom(992, 100, 1100));
    assert!(!is_at_bottom(991, 100, 1100));
}

#[test]
fn visible_page_by_midpoint() {
    let tops = vec![0, 1000, 2000, 3000];
    assert_eq!(visible_page(&tops, 0, 800), Some(0));
    assert_eq!(visible_page(&tops, 600, 800), Some(1));
    assert_eq!(visible_page(&tops, 1599, 800), Some(1));
    assert_eq!(visible_page(&tops, 1600, 800), Some(2));
    assert_eq!(visible_page(&tops, 9000, 800), Some(3));
    assert_eq!(visible_page(&vec![], 0, 800), None);
    assert_eq!(visible_page(&vec![50, 60], 0, 20), Some(0));
    assert_eq!(visible_page(&vec![0, 10], 0, -21), Some(0));
}

#[test]
fn portrait_zoom_reading_order() {
    assert_eq!(PORTRAIT_QUADRANT_COUNT, 9);
    let order: Vec<(NonetRow, NonetColumn)> = (0..9u8).map(|q| (nonet_row(q), nonet_column(q))).collect();
    assert_eq!(
        order,
        vec![
            (NonetRow::Top, NonetColumn::Right),
            (NonetRow::Top, NonetColumn::Middle),
            (NonetRow::Top, NonetColumn::Left),
            (NonetRow::Middle, NonetColumn::Right),
            (NonetRow::Middle, NonetColumn::Middle),
            (NonetRow::Middle, NonetColumn::Left),
            (NonetRow::Bottom, NonetColumn::Right),
            (NonetRow::Bottom, NonetColumn::Middle),
            (NonetRow::Bottom, NonetColumn::Left),
        ]
    );
    assert_eq!((nonet_row(200), nonet_column(200)), (NonetRow::Bottom, NonetColumn::Left));
}

#[test]
fn strip_actions_cross_chapters_only_at_the_ends() {
    assert_eq!(strip_command(Action::NextPage, false, false), StripMove::ScrollDown);
    assert_eq!(strip_command(Action::NextPage, true, true), StripMove::NextChapter);
    assert_eq!(strip_command(Action::PreviousPage, false, true), StripMove::ScrollUp);
    assert_eq!(strip_command(Action::PreviousPage, true, false), StripMove::PreviousChapter);
    assert_eq!(strip_command(Action::ToggleOverlay, true, true), StripMove::ToggleOverlay);
    assert_eq!(strip_command(Action::GoBack, false, false), StripMove::BackToLibrary);
    assert_eq!(strip_command(Action::Confirm, false, false), StripMove::Nothing);
}
