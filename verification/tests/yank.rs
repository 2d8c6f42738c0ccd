use rizzler::registers::RegisterKind;
use rizzler::text::rope::rope_from_str;
use rizzler::text::yank::yank_line;

#[test]
fn yank_line_includes_trailing_newline() {
    let r = rope_from_str("abc\ndef\n");
    let (text, kind) = yank_line(&r, 0, 1).unwrap();
    assert_eq!(text, "abc\n");
    assert_eq!(kind, RegisterKind::Line);
}

#[test]
fn yank_line_synthesizes_trailing_newline_on_last_line() {
    let r = rope_from_str("abc\ndef");
    let (text, _) = yank_line(&r, 1, 1).unwrap();
    assert_eq!(text, "def\n");
}

#[test]
fn yank_line_count_spans_multiple_lines() {
    let r = rope_from_str("a\nb\nc\nd");
    let (text, _) = yank_line(&r, 0, 3).unwrap();
    assert_eq!(text, "a\nb\nc\n");
}

#[test]
fn yank_line_clamps_row_and_count() {
    let r = rope_from_str("a\nb\nc");
    assert_eq!(yank_line(&r, 9, 1).unwrap().0, "c\n");
    assert_eq!(yank_line(&r, 1, 0).unwrap().0, "b\n");
    assert_eq!(yank_line(&r, 1, u32::MAX).unwrap().0, "b\nc\n");
}

#[test]
fn yank_line_of_empty_last_line_is_nothing() {
    let r = rope_from_str("a\n");
    assert_eq!(yank_line(&r, 1, 1), None);
    let empty = rope_from_str("");
    assert_eq!(yank_line(&empty, 0, 1), None);
}
