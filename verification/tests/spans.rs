use rizzler::text::move_kind::MoveKind;
use rizzler::text::buffer::Position;
use rizzler::text::rope::rope_from_str;
use rizzler::text::spans::{
    char_delete_at, clamp_span, delete_line_span, motion_span, overwrite_at, replace_span, rows_span,
    selection_spans, SelectionKind,
};

#[test]
fn clamp_span_cuts_to_the_text() {
    assert_eq!(clamp_span(5, 2, 9), Some((2, 5)));
    assert_eq!(clamp_span(5, 5, 7), None);
    assert_eq!(clamp_span(5, 3, 3), None);
    assert_eq!(clamp_span(5, 4, 1), None);
}

#[test]
fn rows_span_takes_whole_lines() {
    let r = rope_from_str("a\nb\nc");
    assert_eq!(rows_span(&r, 0, 0), Some((0, 2)));
    // Through the last line: the break before the rows goes instead.
    assert_eq!(rows_span(&r, 1, 2), Some((1, 5)));
    assert_eq!(rows_span(&r, 0, 2), Some((0, 5)));
    assert_eq!(rows_span(&r, 1, 9), Some((1, 5)));
    assert_eq!(rows_span(&rope_from_str("abc"), 0, 0), Some((0, 3)));
    assert_eq!(rows_span(&rope_from_str(""), 0, 0), None);
}

#[test]
fn delete_line_span_counts_rows_from_the_cursor() {
    let r = rope_from_str("a\nb\nc");
    assert_eq!(delete_line_span(&r, 1, 5), Some((1, 5)));
    assert_eq!(delete_line_span(&r, 0, 0), Some((0, 2)));
    assert_eq!(delete_line_span(&r, 0, 2), Some((0, 4)));
    assert_eq!(delete_line_span(&r, 3, 1), None);
}

#[test]
fn charwise_selection_includes_both_ends() {
    let r = rope_from_str("hello\nworld");
    let a = Position::new(3usize, 0usize);
    let c = Position::new(1usize, 1usize);
    assert_eq!(selection_spans(&r, a, c, SelectionKind::Char), vec![(3, 8)]);
    assert_eq!(selection_spans(&r, c, a, SelectionKind::Char), vec![(3, 8)]);
    // Past the end of the text nothing is left to delete.
    let end = Position::new(0usize, 2usize);
    assert_eq!(selection_spans(&r, end, end, SelectionKind::Char), vec![]);
}

#[test]
fn linewise_selection_takes_the_rows() {
    let r = rope_from_str("a\nb\nc");
    let a = Position::new(0usize, 1usize);
    let c = Position::new(0usize, 0usize);
    assert_eq!(selection_spans(&r, a, c, SelectionKind::Line), vec![(0, 4)]);
    let last = Position::new(0usize, 2usize);
    assert_eq!(selection_spans(&r, a, last, SelectionKind::Line), vec![(1, 5)]);
}

#[test]
fn block_selection_takes_columns_bottom_row_first() {
    let r = rope_from_str("abcd\nef\nghij");
    let a = Position::new(1usize, 0usize);
    let c = Position::new(2usize, 2usize);
    assert_eq!(selection_spans(&r, a, c, SelectionKind::Block), vec![(9, 11), (6, 7), (1, 3)]);
    let r = rope_from_str("abcd\ne\nghij");
    assert_eq!(selection_spans(&r, c, a, SelectionKind::Block), vec![(8, 10), (1, 3)]);
}

#[test]
fn replace_span_stops_at_the_line_end() {
    let r = rope_from_str("hello\nx");
    assert_eq!(replace_span(&r, 0, 3, 5), Some((3, 5)));
    assert_eq!(replace_span(&r, 0, 3, 0), Some((3, 4)));
    assert_eq!(replace_span(&r, 0, 5, 1), None);
    assert_eq!(replace_span(&r, 1, 0, 3), Some((6, 7)));
}

#[test]
fn overwrite_at_inserts_past_the_line_end() {
    let r = rope_from_str("ab\n");
    assert_eq!(overwrite_at(&r, 0, 1), (1, true));
    assert_eq!(overwrite_at(&r, 0, 2), (2, false));
    assert_eq!(overwrite_at(&r, 1, 0), (3, false));
}

#[test]
fn char_delete_at_keeps_line_breaks() {
    let r = rope_from_str("ab\ncd");
    assert_eq!(char_delete_at(&r, Position::new(1, 1)), Some(4));
    assert_eq!(char_delete_at(&r, Position::new(2, 1)), None);
    assert_eq!(char_delete_at(&r, Position::new(2, 0)), None);
    assert_eq!(char_delete_at(&r, Position::new(0, 5)), None);
}

#[test]
fn motion_span_deletes_to_the_motion_target() {
    let r = rope_from_str("one two\nthree");
    let p = |c: usize, row: usize| Position::new(c, row);
    assert_eq!(motion_span(&r, p(0, 0), p(4, 0), MoveKind::WordForward), Some((0, 4)));
    assert_eq!(motion_span(&r, p(0, 0), p(2, 0), MoveKind::WordEnd), Some((0, 3)));
    assert_eq!(motion_span(&r, p(4, 0), p(0, 0), MoveKind::WordStart), Some((0, 4)));
    assert_eq!(motion_span(&r, p(3, 0), p(3, 0), MoveKind::LineEnd), None);
    // Linewise: the rows between the two, whole.
    assert_eq!(motion_span(&r, p(1, 0), p(0, 1), MoveKind::Relative(Position::new(0, 1))), Some((0, 13)));
    let r = rope_from_str("a\nb\nc");
    assert_eq!(motion_span(&r, p(0, 0), p(0, 1), MoveKind::LineNum(1)), Some((0, 4)));
    assert_eq!(motion_span(&r, p(0, 2), p(0, 0), MoveKind::FileStart), Some((0, 5)));
}
