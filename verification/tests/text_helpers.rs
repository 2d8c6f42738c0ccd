use rizzler::text::rope::{char_to_line, len_lines, line_to_char, rope_from_str};
use std::str::FromStr;

use rizzler::text::buffer::Position;
use rizzler::text::edits::{
    advance_point, leading_dedent_bytes, shift_line_edit, shift_lines_edit, shift_selection_edit, Point, ShiftEdit,
    SHIFT_WIDTH,
};
use rizzler::text::move_kind::{is_inclusive_motion, is_linewise_motion, MoveKind};
use rizzler::workspace::{find_workspace_root, path_to_uri, resolve_workdir, uri_to_path};

#[test]
fn move_kind_parses_names() {
    assert_eq!(MoveKind::from_str("down"), Ok(MoveKind::Relative(Position::new(0, 1))));
    assert_eq!(MoveKind::from_str("up"), Ok(MoveKind::Relative(Position::new(0, -1))));
    assert_eq!(MoveKind::from_str("left"), Ok(MoveKind::Relative(Position::new(-1, 0))));
    assert_eq!(MoveKind::from_str("big-word-back-end"), Ok(MoveKind::BigWordBackEnd));
    assert_eq!(MoveKind::from_str("center"), Ok(MoveKind::Center));
    assert_eq!(MoveKind::from_str("sideways"), Err("unknown MoveKind"));
}

#[test]
fn linewise_and_inclusive_motions() {
    assert!(is_linewise_motion(MoveKind::FileEnd));
    assert!(is_linewise_motion(MoveKind::LineNum(3)));
    assert!(is_linewise_motion(MoveKind::Relative(Position::new(0, 2))));
    assert!(!is_linewise_motion(MoveKind::Relative(Position::new(3, 0))));
    assert!(!is_linewise_motion(MoveKind::WordForward));
    assert!(is_inclusive_motion(MoveKind::WordEnd));
    assert!(is_inclusive_motion(MoveKind::BigWordEnd));
    assert!(!MoveKind::WordBackEnd.is_inclusive_motion());
}

#[test]
fn count_scales_relative_once_and_repeats_others() {
    assert_eq!(
        MoveKind::Relative(Position::new(0, 1)).with_count(3),
        (MoveKind::Relative(Position::new(0, 3)), 1)
    );
    assert_eq!(MoveKind::WordForward.with_count(3), (MoveKind::WordForward, 3));
    assert_eq!(MoveKind::WordForward.with_count(0), (MoveKind::WordForward, 1));
    assert_eq!(
        MoveKind::Relative(Position::new(-2, 20000)).with_count(4),
        (MoveKind::Relative(Position::new(-8, i16::MAX)), 1)
    );
}

#[test]
fn dedent_consumes_one_shift_width() {
    assert_eq!(SHIFT_WIDTH, 4);
    assert_eq!(leading_dedent_bytes("      x"), 4);
    assert_eq!(leading_dedent_bytes("  x"), 2);
    assert_eq!(leading_dedent_bytes("\t\tx"), 1);
    assert_eq!(leading_dedent_bytes(" \tx"), 2);
    assert_eq!(leading_dedent_bytes("x   "), 0);
    assert_eq!(leading_dedent_bytes(""), 0);
}

#[test]
fn advance_point_counts_bytes_and_rows() {
    let p = advance_point(Point { row: 2, column: 5 }, "ab");
    assert_eq!(p, Point { row: 2, column: 7 });
    let p = advance_point(Point { row: 2, column: 5 }, "é\nxé");
    assert_eq!(p, Point { row: 3, column: 3 });
}

#[test]
fn workdir_from_start_path() {
    assert_eq!(resolve_workdir(Some("/src"), true, Some("/"), "/home"), "/src");
    assert_eq!(resolve_workdir(Some("/src/a.rs"), false, Some("/src"), "/home"), "/src");
    assert_eq!(resolve_workdir(Some("a.rs"), false, None, "/home"), "/home");
    assert_eq!(resolve_workdir(None, false, None, "/home"), "/home");
}

#[test]
fn workspace_root_is_nearest_marked_dir() {
    let dirs: Vec<String> = vec!["/p/src".into(), "/p".into(), "/".into()];
    assert_eq!(find_workspace_root(&dirs, &[false, true, true]).as_deref(), Some("/p"));
    assert_eq!(find_workspace_root(&dirs, &[false, false, false]).as_deref(), Some("/p/src"));
    assert_eq!(find_workspace_root(&[], &[]), None);
}

#[test]
fn file_uris_roundtrip() {
    assert_eq!(path_to_uri("/home/a.rs", false), "file:///home/a.rs");
    assert_eq!(uri_to_path("file:///home/a.rs", false).as_deref(), Some("/home/a.rs"));
    assert_eq!(uri_to_path("https://x", false), None);
    assert_eq!(path_to_uri("C:\\src\\a.rs", true), "file:///C:/src/a.rs");
    assert_eq!(uri_to_path("file:///C:/src/a.rs", true).as_deref(), Some("C:\\src\\a.rs"));
}

#[test]
fn shift_lines_edit_covers_whole_lines() {
    let r = rizzler::text::rope::rope_from_str("fn a\n  b\nc");
    assert_eq!(
        shift_lines_edit(&r, 0, 1, false),
        Some(ShiftEdit { start: 0, end: 9, text: "    fn a\n      b\n".to_string(), land_col: 4 })
    );
    // Rows past the end clamp to the last line, which has no line break.
    assert_eq!(
        shift_lines_edit(&r, 7, 9, false),
        Some(ShiftEdit { start: 9, end: 10, text: "    c".to_string(), land_col: 4 })
    );
    assert_eq!(
        shift_lines_edit(&r, 1, 1, true),
        Some(ShiftEdit { start: 5, end: 9, text: "b\n".to_string(), land_col: 0 })
    );
}

#[test]
fn shift_lines_edit_is_none_when_nothing_changes() {
    let r = rizzler::text::rope::rope_from_str("a\n\nb");
    assert_eq!(shift_lines_edit(&r, 0, 2, true), None);
    assert_eq!(shift_lines_edit(&r, 1, 1, false), None);
}

#[test]
fn shift_lines_edit_indents_each_rope_row() {
    // A lone CR ends a row of the rope, so both rows get a shift width.
    let r = rizzler::text::rope::rope_from_str("a\rb\n");
    assert_eq!(
        shift_lines_edit(&r, 0, 1, false),
        Some(ShiftEdit { start: 0, end: 4, text: "    a\r    b\n".to_string(), land_col: 4 })
    );
    let r = rizzler::text::rope::rope_from_str("a\n  \n\tb\r\n");
    assert_eq!(
        shift_lines_edit(&r, 0, 2, false),
        Some(ShiftEdit { start: 0, end: 9, text: "    a\n  \n    \tb\r\n".to_string(), land_col: 4 })
    );
    assert_eq!(
        shift_lines_edit(&r, 2, 2, true),
        Some(ShiftEdit { start: 5, end: 9, text: "b\r\n".to_string(), land_col: 0 })
    );
}

#[test]
fn rope_lines_end_at_every_line_break() {
    let r = rope_from_str("a\r\nb\rc\nd\u{2028}e\u{85}f\u{0B}g\u{0C}h\u{2029}");
    assert_eq!(len_lines(&r), 9);
    let starts: Vec<usize> = (0..=9).map(|l| line_to_char(&r, l)).collect();
    assert_eq!(starts, vec![0, 3, 5, 7, 9, 11, 13, 15, 17, 17]);
    // The LF of a CRLF pair is on the CR's line.
    assert_eq!(char_to_line(&r, 2), 0);
    assert_eq!(char_to_line(&r, 3), 1);
    assert_eq!(char_to_line(&r, 17), 8);
    assert_eq!(len_lines(&rope_from_str("")), 1);
    assert_eq!(len_lines(&rope_from_str("x\n")), 2);
}

#[test]
fn shift_line_edit_counts_rows_from_the_cursor() {
    let r = rope_from_str("a\nb\nc");
    assert_eq!(
        shift_line_edit(&r, 1, 0, false),
        Some(ShiftEdit { start: 2, end: 4, text: "    b\n".to_string(), land_col: 4 })
    );
    assert_eq!(
        shift_line_edit(&r, 1, 9, false),
        Some(ShiftEdit { start: 2, end: 5, text: "    b\n    c".to_string(), land_col: 4 })
    );
    assert_eq!(shift_line_edit(&r, 3, 1, false), None);
    assert_eq!(shift_line_edit(&r, 0, 2, true), None);
}

#[test]
fn shift_selection_edit_spans_both_rows() {
    let r = rope_from_str("a\nb\nc");
    let e = Some(ShiftEdit { start: 0, end: 4, text: "    a\n    b\n".to_string(), land_col: 4 });
    assert_eq!(shift_selection_edit(&r, 1, 0, false), e);
    assert_eq!(shift_selection_edit(&r, 0, 1, false), e);
}
