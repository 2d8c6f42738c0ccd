use rizzler::text::motions::{match_bracket, word_back_end, word_back_start, word_end, word_forward};
use rizzler::text::rope::rope_from_str;

#[test]
fn word_end_lands_on_last_char_of_word() {
    let r = rope_from_str("hello world");
    assert_eq!(word_end(&r, 0, false), 4);
}

#[test]
fn word_end_jumps_to_next_word_when_already_at_end() {
    let r = rope_from_str("hello world");
    assert_eq!(word_end(&r, 4, false), 10);
}

#[test]
fn word_start_goes_to_previous_word_start() {
    let r = rope_from_str("hello world foo");
    assert_eq!(word_back_start(&r, 8, false), 6);
}

#[test]
fn word_forward_jumps_to_next_word_start() {
    let r = rope_from_str("hello world foo");
    assert_eq!(word_forward(&r, 0, false), 6);
}

#[test]
fn word_forward_skips_over_multiple_spaces() {
    let r = rope_from_str("a    b");
    assert_eq!(word_forward(&r, 0, false), 5);
}

#[test]
fn word_back_end_from_inside_word_lands_on_prev_word_end() {
    let r = rope_from_str("hello world foo");
    assert_eq!(word_back_end(&r, 8, false), 4);
}

#[test]
fn big_word_forward_treats_punctuation_as_word_char() {
    let r = rope_from_str("foo.bar baz");
    assert_eq!(word_forward(&r, 0, true), 8);
}

#[test]
fn word_forward_splits_on_punctuation() {
    let r = rope_from_str("foo.bar");
    assert_eq!(word_forward(&r, 0, false), 3);
    assert_eq!(word_forward(&r, 3, false), 4);
}

#[test]
fn word_forward_crosses_newline_to_next_line() {
    let r = rope_from_str("foo\nbar");
    assert_eq!(word_forward(&r, 0, false), 4);
}

#[test]
fn word_forward_at_end_stays_on_last_char() {
    let r = rope_from_str("foo   ");
    assert_eq!(word_forward(&r, 0, false), 5);
    assert_eq!(word_forward(&r, 6, false), 6);
    let e = rope_from_str("");
    assert_eq!(word_forward(&e, 0, false), 0);
}

#[test]
fn match_bracket_jumps_forward_to_close_paren() {
    let r = rope_from_str("(abc)");
    assert_eq!(match_bracket(&r, 0, false), 4);
}

#[test]
fn match_bracket_jumps_back_to_open_paren_from_close() {
    let r = rope_from_str("(abc)");
    assert_eq!(match_bracket(&r, 4, false), 0);
}

#[test]
fn match_bracket_scans_line_when_cursor_off_bracket() {
    let r = rope_from_str("foo (bar) baz");
    assert_eq!(match_bracket(&r, 0, false), 8);
}

#[test]
fn match_bracket_handles_nesting() {
    let r = rope_from_str("(a(b)c)");
    assert_eq!(match_bracket(&r, 0, false), 6);
}

#[test]
fn match_bracket_matches_braces_and_brackets() {
    let r = rope_from_str("{[x]}");
    assert_eq!(match_bracket(&r, 0, false), 4);
    assert_eq!(match_bracket(&r, 1, false), 3);
}

#[test]
fn match_bracket_crosses_lines() {
    let r = rope_from_str("(\n  a\n)");
    assert_eq!(match_bracket(&r, 0, false), 6);
}

#[test]
fn match_bracket_no_bracket_on_line_is_noop() {
    let r = rope_from_str("hello world");
    assert_eq!(match_bracket(&r, 3, false), 3);
}

#[test]
fn match_bracket_unmatched_open_stays_put() {
    let r = rope_from_str("(abc");
    assert_eq!(match_bracket(&r, 0, false), 0);
}

#[test]
fn match_bracket_does_not_scan_past_line_end() {
    let r = rope_from_str("ab\n(c)");
    assert_eq!(match_bracket(&r, 0, false), 0);
}
