use ropey::Rope;

use rizzler::text::buffer::Position;
use rizzler::text::cursor::{
    clamp_cursor, move_cursor, move_cursor_n, try_move_cursor, try_move_cursor_n, CursorState, ScrollAnswers,
};
use rizzler::text::move_kind::MoveKind;
use rizzler::text::rope::rope_from_str;

fn mk(text: &str) -> (Rope, CursorState) {
    let st = CursorState {
        cursor: Position::new(0u16, 0u16),
        file: Position::new(0usize, 0usize),
        viewport_rows: 0,
        normal_mode: true,
    };
    (rope_from_str(text), st)
}

fn plain() -> ScrollAnswers {
    ScrollAnswers { visual_step: None, page_target: (0, None), centered_top: 0 }
}

/// One move without a viewport; the sticky column is threaded through.
fn mv(r: &Rope, st: &mut CursorState, goal: &mut Option<usize>, m: MoveKind) {
    let (next, g) = move_cursor(r, *st, *goal, m, plain(), 0);
    *st = next;
    *goal = g;
}

fn cur_row(s: &CursorState) -> usize {
    s.cursor.row as usize + s.file.row
}

fn cur_col(s: &CursorState) -> usize {
    s.cursor.col as usize + s.file.col
}

#[test]
fn line_start_moves_to_col_zero() {
    let (r, mut s) = mk("hello\nworld");
    s.cursor = Position::new(3, 1);
    mv(&r, &mut s, &mut None, MoveKind::LineStart);
    assert_eq!(s.cursor.col, 0);
}

#[test]
fn line_end_does_not_land_on_newline() {
    let (r, mut s) = mk("abc\ndef");
    s.normal_mode = false;
    mv(&r, &mut s, &mut None, MoveKind::LineEnd);
    assert_eq!(s.cursor.col, 3);
}

#[test]
fn line_end_lands_on_last_char_in_normal_mode() {
    let (r, mut s) = mk("abc\ndef");
    mv(&r, &mut s, &mut None, MoveKind::LineEnd);
    assert_eq!(s.cursor.col, 2);
}

#[test]
fn line_end_on_last_line_without_newline() {
    let (r, mut s) = mk("abc\ndef");
    s.cursor = Position::new(0, 1);
    mv(&r, &mut s, &mut None, MoveKind::LineEnd);
    assert_eq!(s.cursor.col, 2);
}

#[test]
fn file_start_resets_row_and_col() {
    let (r, mut s) = mk("hello\nworld");
    s.cursor = Position::new(3, 1);
    mv(&r, &mut s, &mut None, MoveKind::FileStart);
    assert_eq!(cur_row(&s), 0);
    assert_eq!(cur_col(&s), 0);
}

#[test]
fn file_end_moves_to_last_line() {
    let (r, mut s) = mk("a\nb\nc");
    mv(&r, &mut s, &mut None, MoveKind::FileEnd);
    assert_eq!(cur_row(&s), 2);
}

#[test]
fn line_num_moves_to_specified_line() {
    let (r, mut s) = mk("a\nb\nc\nd\ne");
    mv(&r, &mut s, &mut None, MoveKind::LineNum(2));
    assert_eq!(cur_row(&s), 2);
}

#[test]
fn line_num_clamps_to_last_line() {
    let (r, mut s) = mk("a\nb\nc");
    mv(&r, &mut s, &mut None, MoveKind::LineNum(100));
    assert_eq!(cur_row(&s), 2);
}

#[test]
fn line_first_non_blank_skips_leading_whitespace() {
    let (r, mut s) = mk("    hello");
    s.cursor = Position::new(7, 0);
    mv(&r, &mut s, &mut None, MoveKind::LineFirstNonBlank);
    assert_eq!(s.cursor.col, 4);
}

#[test]
fn line_first_non_blank_on_blank_line_stays_at_zero() {
    let (r, mut s) = mk("   \nabc");
    s.cursor = Position::new(2, 0);
    mv(&r, &mut s, &mut None, MoveKind::LineFirstNonBlank);
    assert_eq!(s.cursor.col, 0);
}

#[test]
fn move_cursor_n_scales_relative_delta() {
    let (r, s) = mk("a\nb\nc\nd\ne");
    let (s, _) = move_cursor_n(&r, s, None, MoveKind::Relative(Position::new(0, 1)), 3);
    assert_eq!(cur_row(&s), 3);
}

#[test]
fn move_cursor_n_loops_for_non_relative_kinds() {
    let (r, s) = mk("aaa bbb ccc ddd");
    let (s, _) = move_cursor_n(&r, s, None, MoveKind::WordForward, 2);
    assert_eq!(s.cursor.col, 8);
}

#[test]
fn move_cursor_n_count_zero_runs_once() {
    let (r, s) = mk("a\nb\nc");
    let (s, _) = move_cursor_n(&r, s, None, MoveKind::Relative(Position::new(0, 1)), 0);
    assert_eq!(cur_row(&s), 1);
}

#[test]
fn relative_move_within_bounds() {
    let (r, mut s) = mk("hello\nworld");
    s.cursor = Position::new(2, 0);
    mv(&r, &mut s, &mut None, MoveKind::Relative(Position::new(1, 1)));
    assert_eq!(s.cursor.row, 1);
    assert_eq!(s.cursor.col, 3);
}

#[test]
fn relative_move_clamped_at_top_left() {
    let (r, mut s) = mk("hello\nworld");
    mv(&r, &mut s, &mut None, MoveKind::Relative(Position::new(-5, -5)));
    assert_eq!(s.cursor.row, 0);
    assert_eq!(s.cursor.col, 0);
}

#[test]
fn absolute_moves_to_file_position() {
    let (r, mut s) = mk("aaaa\nbbbb\ncccc\ndddd\neeee");
    s.cursor = Position::new(3, 2);
    mv(&r, &mut s, &mut None, MoveKind::Absolute(Position::new(0, 0)));
    assert_eq!(cur_row(&s), 0);
    assert_eq!(cur_col(&s), 0);
}

#[test]
fn clamp_keeps_cursor_in_buffer() {
    let (r, mut s) = mk("ab\ncd");
    s.cursor = Position::new(50, 50);
    let s = clamp_cursor(&r, s, 0);
    assert_eq!(s.cursor.row, 1);
    assert_eq!(s.cursor.col, 1);
}

#[test]
fn clamp_on_empty_buffer() {
    let (r, mut s) = mk("");
    s.cursor = Position::new(10, 10);
    let s = clamp_cursor(&r, s, 0);
    assert_eq!(s.cursor.row, 0);
    assert_eq!(s.cursor.col, 0);
}

#[test]
fn clamp_does_not_allow_landing_on_newline() {
    let (r, mut s) = mk("abc\ndef");
    s.normal_mode = false;
    s.cursor = Position::new(10, 0);
    let s = clamp_cursor(&r, s, 0);
    assert_eq!(s.cursor.col, 3);
}

// With a viewport, the scroll answers below are the ones the viewport's
// scroll logic gives in these layouts.

#[test]
fn move_down_within_viewport_does_not_scroll() {
    let (r, mut s) = mk("a\nb\nc\nd\ne");
    s.viewport_rows = 3;
    let (s, _) = move_cursor(&r, s, None, MoveKind::Relative(Position::new(0, 2)), plain(), 0);
    assert_eq!(s.cursor.row, 2);
    assert_eq!(s.file.row, 0);
}

#[test]
fn move_down_past_viewport_scrolls_file_pos() {
    let (r, mut s) = mk("a\nb\nc\nd\ne");
    s.viewport_rows = 3;
    let (s, _) = move_cursor(&r, s, None, MoveKind::Relative(Position::new(0, 4)), plain(), 2);
    assert_eq!(s.cursor.row, 2);
    assert_eq!(s.file.row, 2);
    assert_eq!(cur_row(&s), 4);
}

#[test]
fn move_up_past_viewport_scrolls_file_pos() {
    let (r, mut s) = mk("a\nb\nc\nd\ne");
    s.viewport_rows = 2;
    s.file.row = 3;
    let (s, _) = move_cursor(&r, s, None, MoveKind::Relative(Position::new(0, -1)), plain(), 2);
    assert_eq!(s.file.row, 2);
    assert_eq!(s.cursor.row, 0);
}

#[test]
fn file_end_scrolls_to_bottom() {
    let (r, mut s) = mk("a\nb\nc\nd\ne");
    s.viewport_rows = 2;
    let (s, _) = move_cursor(&r, s, None, MoveKind::FileEnd, plain(), 3);
    assert_eq!(s.file.row, 3);
    assert_eq!(s.cursor.row, 1);
}

#[test]
fn file_start_resets_scroll() {
    let (r, mut s) = mk("a\nb\nc\nd\ne");
    s.viewport_rows = 2;
    s.file.row = 3;
    let (s, _) = move_cursor(&r, s, None, MoveKind::FileStart, plain(), 0);
    assert_eq!(s.file.row, 0);
    assert_eq!(s.cursor.row, 0);
}

#[test]
fn relative_up_clamps_at_top_when_already_at_origin() {
    let (r, mut s) = mk("a\nb\nc");
    s.viewport_rows = 2;
    let (s, _) = move_cursor(&r, s, None, MoveKind::Relative(Position::new(0, -5)), plain(), 0);
    assert_eq!(s.file.row, 0);
    assert_eq!(s.cursor.row, 0);
}

#[test]
fn half_page_down_centers_cursor() {
    let (r, mut s) = mk("0\n1\n2\n3\n4\n5\n6\n7\n8\n9");
    s.viewport_rows = 4;
    s.cursor = Position::new(0, 1);
    let ans = ScrollAnswers { visual_step: None, page_target: (3, None), centered_top: 1 };
    let (s, _) = move_cursor(&r, s, None, MoveKind::HalfPageDown, ans, 1);
    assert_eq!(s.file.row, 1);
    assert_eq!(s.cursor.row, 2);
    assert_eq!(cur_row(&s), 3);
}

#[test]
fn half_page_up_centers_cursor() {
    let (r, mut s) = mk("0\n1\n2\n3\n4\n5\n6\n7\n8\n9");
    s.viewport_rows = 4;
    s.file.row = 4;
    s.cursor = Position::new(0, 2);
    let ans = ScrollAnswers { visual_step: None, page_target: (4, None), centered_top: 2 };
    let (s, _) = move_cursor(&r, s, None, MoveKind::HalfPageUp, ans, 2);
    assert_eq!(s.file.row, 2);
    assert_eq!(s.cursor.row, 2);
    assert_eq!(cur_row(&s), 4);
}

#[test]
fn center_puts_cursor_in_middle_of_viewport() {
    let (r, mut s) = mk("0\n1\n2\n3\n4\n5\n6\n7\n8\n9");
    s.viewport_rows = 5;
    s.file.row = 6;
    let ans = ScrollAnswers { visual_step: None, page_target: (0, None), centered_top: 4 };
    let (s, _) = move_cursor(&r, s, None, MoveKind::Center, ans, 4);
    assert_eq!(s.file.row, 4);
    assert_eq!(s.cursor.row, 2);
    assert_eq!(cur_row(&s), 6);
}

#[test]
fn half_page_up_at_top_does_not_scroll_past_origin() {
    let (r, mut s) = mk("0\n1\n2\n3\n4\n5");
    s.viewport_rows = 4;
    s.cursor = Position::new(0, 1);
    let ans = ScrollAnswers { visual_step: None, page_target: (0, None), centered_top: 0 };
    let (s, _) = move_cursor(&r, s, None, MoveKind::HalfPageUp, ans, 0);
    assert_eq!(s.file.row, 0);
    assert_eq!(s.cursor.row, 0);
}

#[test]
fn visual_vertical_motion_preserves_goal_col_across_short_line() {
    let (r, mut s) = mk("12345678\nab\n0123456789");
    s.normal_mode = false;
    let mut g = None;
    mv(&r, &mut s, &mut g, MoveKind::LineEnd);
    assert_eq!(cur_col(&s), 8);
    mv(&r, &mut s, &mut g, MoveKind::Relative(Position::new(0, 1)));
    assert_eq!(cur_col(&s), 2);
    mv(&r, &mut s, &mut g, MoveKind::Relative(Position::new(0, 1)));
    assert_eq!(cur_col(&s), 8);
}

#[test]
fn normal_mode_vertical_motion_preserves_goal_col() {
    let (r, mut s) = mk("12345678\nab\n0123456789");
    s.cursor = Position::new(7, 0);
    let mut g = None;
    mv(&r, &mut s, &mut g, MoveKind::Relative(Position::new(0, 1)));
    assert_eq!(cur_col(&s), 1);
    mv(&r, &mut s, &mut g, MoveKind::Relative(Position::new(0, 1)));
    assert_eq!(cur_col(&s), 7);
}

#[test]
fn insert_mode_vertical_motion_preserves_goal_col() {
    let (r, mut s) = mk("12345678\nab\n0123456789");
    s.normal_mode = false;
    s.cursor = Position::new(8, 0);
    let mut g = None;
    mv(&r, &mut s, &mut g, MoveKind::Relative(Position::new(0, 1)));
    assert_eq!(cur_col(&s), 2);
    mv(&r, &mut s, &mut g, MoveKind::Relative(Position::new(0, 1)));
    assert_eq!(cur_col(&s), 8);
}

#[test]
fn horizontal_motion_resets_goal_col() {
    let (r, mut s) = mk("12345678\nab\n0123456789");
    s.normal_mode = false;
    let mut g = None;
    mv(&r, &mut s, &mut g, MoveKind::LineEnd);
    mv(&r, &mut s, &mut g, MoveKind::Relative(Position::new(0, 1)));
    assert_eq!(cur_col(&s), 2);
    mv(&r, &mut s, &mut g, MoveKind::LineStart);
    mv(&r, &mut s, &mut g, MoveKind::Relative(Position::new(0, 1)));
    assert_eq!(cur_col(&s), 0);
}

#[test]
fn word_and_bracket_motions_move_the_cursor() {
    let (r, mut s) = mk("foo\nbar (x)");
    mv(&r, &mut s, &mut None, MoveKind::WordForward);
    assert_eq!((s.cursor.row, s.cursor.col), (1, 0));
    mv(&r, &mut s, &mut None, MoveKind::MatchBracket);
    assert_eq!((s.cursor.row, s.cursor.col), (1, 6));
    mv(&r, &mut s, &mut None, MoveKind::WordStart);
    assert_eq!((s.cursor.row, s.cursor.col), (1, 5));
}

#[test]
fn try_move_cursor_refuses_a_text_motion_off_the_text() {
    let (r, mut s) = mk("ab\ncd");
    s.cursor = Position::new(0, 5);
    assert_eq!(try_move_cursor(&r, s, None, MoveKind::WordForward, plain(), 0), None);
    // A motion that does not read the text still clamps onto it.
    let (st, g) = try_move_cursor(&r, s, None, MoveKind::LineStart, plain(), 0).unwrap();
    assert_eq!((cur_row(&st), cur_col(&st), g), (1, 0, None));
    s.cursor = Position::new(7, 1);
    assert_eq!(try_move_cursor(&r, s, None, MoveKind::LineEnd, plain(), 0), None);
    s.cursor = Position::new(1, 0);
    let (st, _) = try_move_cursor(&r, s, None, MoveKind::WordForward, plain(), 0).unwrap();
    assert_eq!((cur_row(&st), cur_col(&st)), (1, 0));
}

#[test]
fn try_move_cursor_refuses_an_overflowing_position() {
    let (r, mut s) = mk("ab");
    s.file = Position::new(0, usize::MAX);
    s.cursor = Position::new(0, 1);
    assert_eq!(try_move_cursor(&r, s, None, MoveKind::LineStart, plain(), 0), None);
    assert_eq!(try_move_cursor_n(&r, s, None, MoveKind::LineStart, 1), None);
}

#[test]
fn try_move_cursor_refuses_a_centre_below_the_cursor() {
    let (r, mut s) = mk("a\nb\nc\nd");
    s.viewport_rows = 2;
    s.cursor = Position::new(0, 1);
    let ans = ScrollAnswers { visual_step: None, page_target: (0, None), centered_top: 3 };
    assert_eq!(try_move_cursor(&r, s, None, MoveKind::Center, ans, 0), None);
    let ans = ScrollAnswers { visual_step: None, page_target: (0, None), centered_top: 1 };
    assert!(try_move_cursor(&r, s, None, MoveKind::Center, ans, 1).is_some());
}

#[test]
fn try_move_cursor_n_matches_move_cursor_n() {
    let (r, s) = mk("one two three\nfour");
    assert_eq!(try_move_cursor_n(&r, s, None, MoveKind::WordForward, 2), Some(move_cursor_n(&r, s, None, MoveKind::WordForward, 2)));
    let (st, _) = try_move_cursor_n(&r, s, None, MoveKind::WordForward, 3).unwrap();
    assert_eq!((cur_row(&st), cur_col(&st)), (1, 0));
    let mut v = s;
    v.viewport_rows = 3;
    assert_eq!(try_move_cursor_n(&r, v, None, MoveKind::WordForward, 2), None);
}
