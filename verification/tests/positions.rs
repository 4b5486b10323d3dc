use shader_formatter::helpers::span_offset_to_line_and_column;

#[test]
fn first_line_counts_columns_from_zero() {
    assert_eq!(span_offset_to_line_and_column(0, "abc"), (1, 0));
    assert_eq!(span_offset_to_line_and_column(2, "abc"), (1, 2));
}

#[test]
fn a_line_break_opens_its_line() {
    assert_eq!(span_offset_to_line_and_column(2, "ab\ncd"), (2, 0));
    assert_eq!(span_offset_to_line_and_column(3, "ab\ncd"), (2, 1));
    assert_eq!(span_offset_to_line_and_column(4, "ab\ncd"), (2, 2));
    assert_eq!(span_offset_to_line_and_column(0, "\n"), (2, 0));
    assert_eq!(span_offset_to_line_and_column(3, "\n\n\nx"), (4, 1));
}

#[test]
fn offsets_that_start_no_character_give_zero() {
    assert_eq!(span_offset_to_line_and_column(0, ""), (0, 0));
    assert_eq!(span_offset_to_line_and_column(3, "abc"), (0, 0));
    assert_eq!(span_offset_to_line_and_column(100, "abc"), (0, 0));
    assert_eq!(span_offset_to_line_and_column(1, "é"), (0, 0));
    assert_eq!(span_offset_to_line_and_column(usize::MAX - 2, "abc"), (0, 0));
    assert_eq!(span_offset_to_line_and_column(usize::MAX - 1, "abc"), (0, 0));
    assert_eq!(span_offset_to_line_and_column(usize::MAX, "abc"), (0, 0));
    assert_eq!(span_offset_to_line_and_column(usize::MAX, ""), (0, 0));
}

#[test]
fn offsets_are_bytes_and_columns_are_characters() {
    assert_eq!(span_offset_to_line_and_column(2, "éa"), (1, 1));
    assert_eq!(span_offset_to_line_and_column(3, "é\n\u{20AC}b"), (2, 1));
    assert_eq!(span_offset_to_line_and_column(4, "é\n\u{20AC}b"), (0, 0));
    assert_eq!(span_offset_to_line_and_column(6, "é\n\u{20AC}b"), (2, 2));
}
