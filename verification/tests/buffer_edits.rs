use rizzler::registers::RegisterEntry;
use rizzler::text::buffer::Position;
use rizzler::text::cursor::{move_cursor_n, CursorState};
use rizzler::text::move_kind::MoveKind;
use rizzler::text::rope::rope_from_str;
use rizzler::text::spans::{
    backspace_at, clamp_span, delete_line_span, motion_span, overwrite_at, paste_edit, replace_span, selection_spans,
    SelectionKind,
};

/// The text with the char range `s..e` removed.
fn remove(text: &str, (s, e): (usize, usize)) -> String {
    let v: Vec<char> = text.chars().collect();
    v[..s].iter().chain(v[e..].iter()).collect()
}

/// The text with `ins` inserted at char `at`.
fn insert(text: &str, at: usize, ins: &str) -> String {
    let v: Vec<char> = text.chars().collect();
    let mut out: String = v[..at].iter().collect();
    out.push_str(ins);
    out.extend(v[at..].iter());
    out
}

/// The text after deleting the selection's pieces, in order.
fn delete_selection(text: &str, anchor: (usize, usize), cursor: (usize, usize), kind: SelectionKind) -> String {
    let r = rope_from_str(text);
    let spans = selection_spans(
        &r,
        Position::new(anchor.0, anchor.1),
        Position::new(cursor.0, cursor.1),
        kind,
    );
    spans.into_iter().fold(text.to_string(), |t, sp| remove(&t, sp))
}

/// The text after `d` with motion `m` from (`col`, `row`): the motion runs
/// with the cursor free to stand past a line's last char.
fn delete_motion(text: &str, col: usize, row: usize, m: MoveKind) -> String {
    let r = rope_from_str(text);
    let st = CursorState {
        cursor: Position::new(col as u16, row as u16),
        file: Position::new(0, 0),
        viewport_rows: 0,
        normal_mode: false,
    };
    let (to, _) = move_cursor_n(&r, st, None, m, 1);
    let to = Position::new(to.cursor.col as usize + to.file.col, to.cursor.row as usize + to.file.row);
    match motion_span(&r, Position::new(col, row), to, m) {
        Some(sp) => remove(text, sp),
        None => text.to_string(),
    }
}

/// The text after `r` with `c` and a count at (`col`, `row`).
fn replace_char_n(text: &str, col: usize, row: usize, c: char, count: u32) -> Option<String> {
    let r = rope_from_str(text);
    let (s, e) = replace_span(&r, row, col, count)?;
    Some(insert(&remove(text, (s, e)), s, &c.to_string().repeat(e - s)))
}

/// The text after a Replace-mode keystroke `c` at (`col`, `row`).
fn overwrite_char(text: &str, col: usize, row: usize, c: char) -> String {
    let r = rope_from_str(text);
    let (at, over) = overwrite_at(&r, row, col);
    let base = if over { remove(text, (at, at + 1)) } else { text.to_string() };
    insert(&base, at, &c.to_string())
}

fn paste(text: &str, col: usize, row: usize, entry: &RegisterEntry, before: bool) -> String {
    let r = rope_from_str(text);
    match paste_edit(&r, row, col, entry, before) {
        Some((at, t, _)) => insert(text, at, &t),
        None => text.to_string(),
    }
}

#[test]
fn delete_selection_visual_single_line_text() {
    assert_eq!(delete_selection("hello", (0, 0), (2, 0), SelectionKind::Char), "lo");
}

#[test]
fn delete_selection_visual_across_lines_joins_text() {
    assert_eq!(delete_selection("abc\ndef\nghi", (1, 0), (1, 1), SelectionKind::Char), "af\nghi");
}

#[test]
fn delete_selection_visual_line_middle_text() {
    assert_eq!(delete_selection("abc\ndef\nghi", (0, 1), (0, 1), SelectionKind::Line), "abc\nghi");
}

#[test]
fn delete_selection_visual_line_last_line_eats_preceding_newline_text() {
    assert_eq!(delete_selection("abc\ndef", (0, 1), (0, 1), SelectionKind::Line), "abc");
}

#[test]
fn delete_selection_visual_block_rectangle_text() {
    assert_eq!(delete_selection("abcde\nfghij\nklmno", (1, 0), (3, 2), SelectionKind::Block), "ae\nfj\nko");
}

#[test]
fn delete_range_within_line_text() {
    let sp = clamp_span(5, 1, 4).unwrap();
    assert_eq!(remove("hello", sp), "ho");
}

#[test]
fn delete_range_across_lines_joins_text() {
    let sp = clamp_span(11, 1, 6).unwrap();
    assert_eq!(remove("abc\ndef\nghi", sp), "af\nghi");
}

#[test]
fn delete_range_empty_is_noop() {
    assert_eq!(clamp_span(5, 2, 2), None);
}

#[test]
fn delete_range_clamps_end_past_eof() {
    let sp = clamp_span(5, 2, 999).unwrap();
    assert_eq!(remove("hello", sp), "he");
}

#[test]
fn delete_line_removes_current_line_and_newline_text() {
    let t = "abc\ndef\nghi";
    assert_eq!(remove(t, delete_line_span(&rope_from_str(t), 1, 1).unwrap()), "abc\nghi");
}

#[test]
fn delete_line_on_last_line_eats_preceding_newline_text() {
    let t = "abc\ndef";
    assert_eq!(remove(t, delete_line_span(&rope_from_str(t), 1, 1).unwrap()), "abc");
}

#[test]
fn delete_line_count_deletes_multiple_lines_text() {
    let t = "a\nb\nc\nd\ne";
    assert_eq!(remove(t, delete_line_span(&rope_from_str(t), 1, 3).unwrap()), "a\ne");
}

#[test]
fn delete_motion_word_forward_drops_through_whitespace() {
    assert_eq!(delete_motion("hello world", 0, 0, MoveKind::WordForward), "world");
}

#[test]
fn delete_motion_word_end_includes_target_char() {
    assert_eq!(delete_motion("hello world", 0, 0, MoveKind::WordEnd), " world");
}

#[test]
fn delete_motion_line_end_stops_before_newline() {
    assert_eq!(delete_motion("hello world\nrest", 6, 0, MoveKind::LineEnd), "hello \nrest");
}

#[test]
fn delete_motion_left_deletes_char_to_the_left() {
    assert_eq!(delete_motion("abc", 1, 0, MoveKind::Relative(Position::new(-1, 0))), "bc");
}

#[test]
fn delete_motion_right_at_end_of_line_deletes_last_char() {
    assert_eq!(delete_motion("abc", 2, 0, MoveKind::Relative(Position::new(1, 0))), "ab");
}

#[test]
fn delete_motion_word_back_deletes_to_prev_word_start() {
    assert_eq!(delete_motion("hello world", 6, 0, MoveKind::WordStart), "world");
}

#[test]
fn delete_motion_down_is_linewise() {
    assert_eq!(delete_motion("a\nb\nc\nd\ne", 0, 1, MoveKind::Relative(Position::new(0, 1))), "a\nd\ne");
}

#[test]
fn delete_motion_file_end_is_linewise() {
    assert_eq!(delete_motion("a\nb\nc\nd\ne", 0, 2, MoveKind::FileEnd), "a\nb");
}

#[test]
fn replace_char_n_swaps_char_under_cursor_text() {
    assert_eq!(replace_char_n("hello", 1, 0, 'a', 1).as_deref(), Some("hallo"));
}

#[test]
fn replace_char_n_with_count_replaces_multiple_text() {
    assert_eq!(replace_char_n("hello", 0, 0, 'x', 3).as_deref(), Some("xxxlo"));
}

#[test]
fn replace_char_n_count_clamps_at_line_end_text() {
    assert_eq!(replace_char_n("hi\nworld", 0, 0, 'z', 5).as_deref(), Some("zz\nworld"));
}

#[test]
fn replace_char_n_on_empty_line_is_noop() {
    assert_eq!(replace_char_n("\nrest", 0, 0, 'x', 1), None);
}

#[test]
fn overwrite_char_replaces_and_advances_text() {
    assert_eq!(overwrite_char("hello", 0, 0, 'H'), "Hello");
}

#[test]
fn overwrite_char_at_eol_extends_line_text() {
    assert_eq!(overwrite_char("hi", 2, 0, '!'), "hi!");
}

#[test]
fn overwrite_char_run_replaces_in_place_text() {
    let t = overwrite_char("hello", 0, 0, 'H');
    let t = overwrite_char(&t, 1, 0, 'E');
    assert_eq!(overwrite_char(&t, 2, 0, 'L'), "HELlo");
}

#[test]
fn paste_charwise_after_inserts_after_cursor() {
    assert_eq!(paste("abc", 0, 0, &RegisterEntry::charwise("XY"), false), "aXYbc");
}

#[test]
fn paste_charwise_before_inserts_at_cursor() {
    assert_eq!(paste("abc", 1, 0, &RegisterEntry::charwise("XY"), true), "aXYbc");
}

#[test]
fn paste_linewise_after_opens_line_below() {
    assert_eq!(paste("abc\ndef\nghi", 0, 1, &RegisterEntry::linewise("XX\n"), false), "abc\ndef\nXX\nghi");
}

#[test]
fn paste_linewise_before_opens_line_above() {
    assert_eq!(paste("abc\ndef\nghi", 0, 1, &RegisterEntry::linewise("XX\n"), true), "abc\nXX\ndef\nghi");
}

#[test]
fn paste_linewise_after_on_last_line_appends() {
    assert_eq!(paste("abc\ndef", 0, 1, &RegisterEntry::linewise("XX\n"), false), "abc\ndef\nXX");
}

/// The text after a backspace at (`col`, `row`).
fn delete_char(text: &str, col: usize, row: usize) -> String {
    match backspace_at(&rope_from_str(text), row, col) {
        Some((i, _)) => remove(text, (i, i + 1)),
        None => text.to_string(),
    }
}

#[test]
fn delete_at_file_start_is_noop() {
    assert_eq!(delete_char("hello", 0, 0), "hello");
}

#[test]
fn delete_char_in_middle_text() {
    assert_eq!(delete_char("hello", 3, 0), "helo");
}

#[test]
fn delete_only_character() {
    assert_eq!(delete_char("a", 1, 0), "");
}

#[test]
fn delete_newline_at_line_start_text() {
    assert_eq!(backspace_at(&rope_from_str("ab\ncd\nef"), 2, 0), Some((5, true)));
    assert_eq!(delete_char("ab\ncd\nef", 0, 2), "ab\ncdef");
}
