use std::str::FromStr;

use rizzler::registers::RegisterKind;
use rizzler::text::rope::rope_from_str;
use rizzler::text::text_object::{text_object_range, TextObject};

fn range(text: &str, cidx: usize, obj: TextObject, around: bool, count: u32) -> Option<String> {
    let r = rope_from_str(text);
    text_object_range(&r, cidx, obj, around, count).map(|(lo, hi, kind)| {
        assert_eq!(kind, RegisterKind::Char);
        r.slice(lo..hi).to_string()
    })
}

#[test]
fn iw_on_word_returns_word() {
    assert_eq!(range("hello world", 2, TextObject::Word, false, 1).as_deref(), Some("hello"));
}

#[test]
fn aw_on_word_includes_trailing_space() {
    assert_eq!(range("hello world", 2, TextObject::Word, true, 1).as_deref(), Some("hello "));
}

#[test]
fn aw_at_end_of_line_includes_leading_space() {
    assert_eq!(range("hello world", 8, TextObject::Word, true, 1).as_deref(), Some(" world"));
}

#[test]
fn iw_on_whitespace_returns_whitespace_run() {
    assert_eq!(range("a   b", 2, TextObject::Word, false, 1).as_deref(), Some("   "));
}

#[test]
fn iw_treats_punctuation_as_own_class() {
    assert_eq!(range("foo.bar", 3, TextObject::Word, false, 1).as_deref(), Some("."));
}

#[test]
fn big_word_treats_punctuation_as_word_char() {
    assert_eq!(range("foo.bar baz", 3, TextObject::BigWord, false, 1).as_deref(), Some("foo.bar"));
}

#[test]
fn i_paren_excludes_brackets() {
    assert_eq!(range("foo(bar baz)qux", 5, TextObject::Paren, false, 1).as_deref(), Some("bar baz"));
}

#[test]
fn a_paren_includes_brackets() {
    assert_eq!(range("foo(bar baz)qux", 5, TextObject::Paren, true, 1).as_deref(), Some("(bar baz)"));
}

#[test]
fn i_paren_finds_innermost_when_nested() {
    assert_eq!(range("a(b(c)d)e", 4, TextObject::Paren, false, 1).as_deref(), Some("c"));
}

#[test]
fn paren_count_expands_outward() {
    assert_eq!(range("a(b(c)d)e", 4, TextObject::Paren, false, 2).as_deref(), Some("b(c)d"));
}

#[test]
fn i_paren_when_cursor_on_open_uses_that_pair() {
    assert_eq!(range("(hello)", 0, TextObject::Paren, false, 1).as_deref(), Some("hello"));
}

#[test]
fn pair_returns_none_when_unmatched() {
    assert!(range("(foo", 2, TextObject::Paren, true, 1).is_none());
}

#[test]
fn bracket_object_resolves() {
    assert_eq!(range("a[b]c", 2, TextObject::Bracket, true, 1).as_deref(), Some("[b]"));
}

#[test]
fn brace_object_resolves() {
    assert_eq!(range("x { y } z", 4, TextObject::Brace, false, 1).as_deref(), Some(" y "));
}

#[test]
fn pair_works_across_lines() {
    // Cursor at row 1, column 2 of "foo(\n  bar\n)baz": char index 5 + 2.
    assert_eq!(range("foo(\n  bar\n)baz", 7, TextObject::Paren, false, 1).as_deref(), Some("\n  bar\n"));
}

#[test]
fn i_dquote_inner_text() {
    assert_eq!(
        range(r#"x = "hello world" y"#, 8, TextObject::DoubleQuote, false, 1).as_deref(),
        Some("hello world")
    );
}

#[test]
fn a_dquote_includes_quotes() {
    assert_eq!(
        range(r#"x = "hello world" y"#, 8, TextObject::DoubleQuote, true, 1).as_deref(),
        Some("\"hello world\" ")
    );
}

#[test]
fn quote_skips_escaped_quotes() {
    assert_eq!(
        range(r#""he said \"hi\" then""#, 15, TextObject::DoubleQuote, false, 1).as_deref(),
        Some(r#"he said \"hi\" then"#)
    );
}

#[test]
fn quote_picks_next_pair_when_cursor_in_gap() {
    assert_eq!(range(r#"a "b" c "d" e"#, 6, TextObject::DoubleQuote, false, 1).as_deref(), Some("d"));
}

#[test]
fn single_quote_object() {
    assert_eq!(range("'foo' bar", 2, TextObject::SingleQuote, false, 1).as_deref(), Some("foo"));
}

#[test]
fn quote_returns_none_when_only_one_quote() {
    assert!(range(r#"only "one"#, 7, TextObject::DoubleQuote, false, 1).is_none());
}

#[test]
fn quote_stays_on_the_cursor_line() {
    assert!(range("\"a\nb\"", 3, TextObject::DoubleQuote, false, 1).is_none());
    assert_eq!(range("x\n'q' z", 3, TextObject::SingleQuote, true, 1).as_deref(), Some("'q' "));
}

#[test]
fn backtick_and_angle_objects() {
    assert_eq!(range("a `b` c", 3, TextObject::Backtick, false, 1).as_deref(), Some("b"));
    assert_eq!(range("Vec<u8>", 4, TextObject::Angle, true, 1).as_deref(), Some("<u8>"));
    assert!(range("", 0, TextObject::Word, false, 1).is_none());
}

#[test]
fn count_zero_counts_as_one() {
    assert_eq!(range("a(b(c)d)e", 4, TextObject::Paren, false, 0).as_deref(), Some("c"));
}

#[test]
fn from_str_accepts_friendly_aliases() {
    assert_eq!(TextObject::from_str("word"), Ok(TextObject::Word));
    assert_eq!(TextObject::from_str("("), Ok(TextObject::Paren));
    assert_eq!(TextObject::from_str("b"), Ok(TextObject::Paren));
    assert_eq!(TextObject::from_str("B"), Ok(TextObject::Brace));
    assert_eq!(TextObject::from_str("\""), Ok(TextObject::DoubleQuote));
    assert!(TextObject::from_str("nope").is_err());
}
