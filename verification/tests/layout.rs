use kaku::layout::{
    byte_pos_at_visual_col, char_to_byte_pos, layout_input, next_word_pos, pad_to_visual_width,
    prev_word_pos, truncate,
};

#[test]
fn char_indices_to_bytes() {
    assert_eq!(char_to_byte_pos("aé中b", 3), 6);
    assert_eq!(char_to_byte_pos("aé中b", 10), 7);
    assert_eq!(char_to_byte_pos("", 0), 0);
}

#[test]
fn word_boundaries() {
    assert_eq!(prev_word_pos("hello big world", 15), 10);
    assert_eq!(prev_word_pos("hello  ", 7), 0);
    assert_eq!(prev_word_pos("hello", 99), 0);
    assert_eq!(next_word_pos("hello big world", 5), 9);
    assert_eq!(next_word_pos("hello", 99), 5);
}

#[test]
fn truncation_by_columns() {
    assert_eq!(truncate("你好abc", 5), "你好a");
    assert_eq!(truncate("你好abc", 3), "你");
    assert_eq!(truncate("abc", 0), "");
    assert_eq!(truncate("abc", 10), "abc");
}

#[test]
fn input_layout_wraps_and_places_the_cursor() {
    let l = layout_input("> ", "hello", 5, 4);
    assert_eq!(l.rows, vec!["> he".to_string(), "llo".to_string()]);
    assert_eq!((l.cursor_row, l.cursor_col), (1, 3));

    let full = layout_input("> ", "ab", 2, 4);
    assert_eq!(full.rows, vec!["> ab".to_string(), String::new()]);
    assert_eq!((full.cursor_row, full.cursor_col), (1, 0));

    let mid = layout_input("", "abcd", 2, 2);
    assert_eq!(mid.rows, vec!["ab".to_string(), "cd".to_string()]);
    assert_eq!((mid.cursor_row, mid.cursor_col), (1, 0));

    let zero = layout_input("> ", "hi", 1, 0);
    assert_eq!(zero.rows, vec!["> hi".to_string()]);
    assert_eq!((zero.cursor_row, zero.cursor_col), (0, 0));
}

#[test]
fn visual_columns() {
    assert_eq!(byte_pos_at_visual_col("a中b", 2), 4);
    assert_eq!(byte_pos_at_visual_col("a中b", 10), 5);
    assert_eq!(byte_pos_at_visual_col("abc", 0), 0);
    assert_eq!(pad_to_visual_width("中", 4), "中  ");
    assert_eq!(pad_to_visual_width("abc", 2), "abc");
}

#[test]
fn cursor_stays_on_a_row_within_the_width() {
    let input = "héllo 世界 wörld, a longer line of text";
    for width in [1usize, 2, 3, 5, 8, 80] {
        for cursor in 0..=input.chars().count() + 2 {
            let l = layout_input("> ", input, cursor, width);
            assert!(l.cursor_row < l.rows.len(), "width {} cursor {}", width, cursor);
            assert!(l.cursor_col <= width, "width {} cursor {}", width, cursor);
        }
    }
    let l = layout_input("> ", input, 3, 0);
    assert_eq!((l.rows.len(), l.cursor_row, l.cursor_col), (1, 0, 0));
}
