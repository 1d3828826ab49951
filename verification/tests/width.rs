use diagrustic::width::{
    decimal_width, display_col, display_str_width, display_width, display_width_at_most,
    is_wide, is_zero_width, TAB_WIDTH,
};

#[test]
fn display_width_treats_combining_marks_as_zero_width() {
    assert_eq!(display_width('\u{0301}'), 0);
    assert_eq!(display_width('\u{200D}'), 0);
    assert_eq!(display_width('\u{FE0F}'), 0);
}

#[test]
fn display_col_does_not_advance_for_combining_mark() {
    let line = "cafe\u{301}_value";

    assert_eq!(display_col(line, line.find('_').unwrap()), Some(5));
}

#[test]
fn wide_and_tab_widths() {
    assert_eq!(display_width('a'), 1);
    assert_eq!(display_width('\t'), TAB_WIDTH);
    assert_eq!(display_width('中'), 2);
    assert_eq!(display_width('🦀'), 2);
    assert!(is_wide('\u{AC00}'));
    assert!(!is_wide('z'));
    assert!(is_zero_width('\u{20D0}'));
    assert!(!is_zero_width('e'));
}

#[test]
fn string_width_is_the_sum_of_character_widths() {
    let a = "x\t中";
    let b = "e\u{301}🦀";
    let joined = format!("{a}{b}");

    assert_eq!(display_str_width(a), 7);
    assert_eq!(display_str_width(b), 3);
    assert_eq!(display_str_width(&joined), display_str_width(a) + display_str_width(b));
    assert!(display_width_at_most(&joined, 10));
    assert!(!display_width_at_most(&joined, 9));
}

#[test]
fn display_col_edges() {
    let line = "a中b";
    assert_eq!(display_col(line, 0), Some(1));
    assert_eq!(display_col(line, 1), Some(2));
    assert_eq!(display_col(line, 2), None);
    assert_eq!(display_col(line, 4), Some(4));
    assert_eq!(display_col(line, 5), Some(5));
    assert_eq!(display_col(line, 6), None);
}

#[test]
fn decimal_width_counts_digits() {
    assert_eq!(decimal_width(0), 1);
    assert_eq!(decimal_width(9), 1);
    assert_eq!(decimal_width(10), 2);
    assert_eq!(decimal_width(99), 2);
    assert_eq!(decimal_width(100), 3);
    assert_eq!(decimal_width(1234567), 7);
    assert_eq!(decimal_width(usize::MAX), usize::MAX.to_string().len());
}

#[test]
fn display_columns_grow_along_a_line() {
    let line = "a\t中e\u{301}🦀z";
    let mut last = 0;
    for offset in 0..=line.len() {
        if let Some(col) = display_col(line, offset) {
            assert!(col >= last);
            last = col;
        } else {
            assert!(!line.is_char_boundary(offset));
        }
    }
    assert_eq!(last, 1 + display_str_width(line));
}
