use lc3_tui::numbers::{bin_string, dec_string, decimal_string, hex_string, push_word_line};
use lc3_tui::points::{PointTable, ToggleStep};

#[test]
fn binary_has_prefix_and_sixteen_digits() {
    assert_eq!(bin_string(5), "0b0000000000000101");
    assert_eq!(bin_string(0xFFFF), "0b1111111111111111");
}

#[test]
fn hex_is_lower_case_with_four_digits() {
    assert_eq!(hex_string(0xBEEF), "0xbeef");
    assert_eq!(hex_string(0x2a), "0x002a");
}

#[test]
fn decimal_is_padded_to_five_digits() {
    assert_eq!(dec_string(42), "00042");
    assert_eq!(dec_string(65535), "65535");
}

#[test]
fn plain_decimal_has_no_padding() {
    assert_eq!(decimal_string(0), "0");
    assert_eq!(decimal_string(131072), "131072");
}

#[test]
fn word_line_shows_three_ways() {
    let mut s = String::from("> ");
    push_word_line(&mut s, 10);
    assert_eq!(s, "> 0b0000000000001010 0x000a 00010\n");
}

#[test]
fn slots_are_numbered_by_rank() {
    let t = PointTable::from_slots(&vec![None, Some(0x3000), None, Some(0x3005)]);
    assert_eq!(t.index_of(0x3000), Some(0));
    assert_eq!(t.index_of(0x3005), Some(1));
    assert!(!t.contains(0x3001));
}

#[test]
fn added_slots_join_existing_points() {
    let mut t = PointTable::new();
    t.record_set(0x10, Some(9));
    t.add_slots(&vec![Some(0x20)]);
    assert_eq!(t.index_of(0x10), Some(9));
    assert_eq!(t.index_of(0x20), Some(0));
}

#[test]
fn toggle_removes_or_asks_to_place() {
    let mut t = PointTable::from_slots(&vec![Some(0x3000)]);
    assert_eq!(t.begin_toggle(0x3000), ToggleStep::Unset(0));
    assert!(!t.contains(0x3000));
    assert_eq!(t.begin_toggle(0x4000), ToggleStep::Place(0x4000));
    assert!(!t.contains(0x4000));
    t.record_set(0x4000, Some(7));
    assert_eq!(t.index_of(0x4000), Some(7));
}

#[test]
fn refused_point_is_not_recorded() {
    let mut t = PointTable::new();
    assert_eq!(t.begin_toggle(0x1234), ToggleStep::Place(0x1234));
    t.record_set(0x1234, None);
    assert!(!t.contains(0x1234));
}

#[test]
fn toggling_twice_restores_the_table() {
    let mut t = PointTable::new();
    assert_eq!(t.begin_toggle(0x3000), ToggleStep::Place(0x3000));
    t.record_set(0x3000, Some(3));
    assert!(t.contains(0x3000));
    assert_eq!(t.begin_toggle(0x3000), ToggleStep::Unset(3));
    assert!(!t.contains(0x3000));
    assert_eq!(t.index_of(0x3000), None);
}
