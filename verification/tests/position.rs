use rizzler::lsp::position::{advance_position, byte_to_lsp, lsp_to_byte, Encoding, LspPosition};
use rizzler::text::rope::rope_from_str;
use ropey::Rope;

fn rope(s: &str) -> Rope {
    rope_from_str(s)
}

#[test]
fn utf8_ascii_roundtrip() {
    let r = rope("hello\nworld");
    let lsp = byte_to_lsp(&r, 1, 3, Encoding::Utf8);
    assert_eq!(lsp, LspPosition { line: 1, character: 3 });
    assert_eq!(lsp_to_byte(&r, lsp, Encoding::Utf8), (1, 3));
}

#[test]
fn utf16_emoji_counts_two_units() {
    // 😀 is U+1F600, 4 UTF-8 bytes, 2 UTF-16 units.
    let r = rope("a😀b");
    let lsp = byte_to_lsp(&r, 0, 5, Encoding::Utf16); // after the emoji
    assert_eq!(lsp, LspPosition { line: 0, character: 3 }); // a(1) + 😀(2)
    assert_eq!(lsp_to_byte(&r, lsp, Encoding::Utf16), (0, 5));
}

#[test]
fn utf32_cjk_counts_one_unit_per_char() {
    let r = rope("日本語");
    let lsp = byte_to_lsp(&r, 0, 6, Encoding::Utf32); // 2 chars in
    assert_eq!(lsp, LspPosition { line: 0, character: 2 });
    assert_eq!(lsp_to_byte(&r, lsp, Encoding::Utf32), (0, 6));
}

#[test]
fn advance_position_handles_newline() {
    let p = advance_position(LspPosition { line: 1, character: 4 }, "x\ny", Encoding::Utf8);
    assert_eq!(p, LspPosition { line: 2, character: 1 });
}

#[test]
fn mid_char_column_clamps_to_previous_boundary() {
    let r = rope("a😀b");
    assert_eq!(byte_to_lsp(&r, 0, 3, Encoding::Utf16), LspPosition { line: 0, character: 1 });
    assert_eq!(byte_to_lsp(&r, 0, 3, Encoding::Utf32), LspPosition { line: 0, character: 1 });
}

#[test]
fn row_past_end_clamps_to_last_line() {
    let r = rope("ab\ncd");
    assert_eq!(byte_to_lsp(&r, 9, 1, Encoding::Utf16), LspPosition { line: 1, character: 1 });
    assert_eq!(lsp_to_byte(&r, LspPosition { line: 7, character: 1 }, Encoding::Utf16), (1, 1));
}

#[test]
fn utf8_character_past_line_end_clamps_to_line_bytes() {
    let r = rope("ab\ncd");
    // Line 0 is "ab\n": three bytes.
    assert_eq!(lsp_to_byte(&r, LspPosition { line: 0, character: 40 }, Encoding::Utf8), (0, 3));
}

#[test]
fn advance_position_counts_units_per_encoding() {
    let start = LspPosition { line: 0, character: 0 };
    assert_eq!(advance_position(start, "😀", Encoding::Utf8).character, 4);
    assert_eq!(advance_position(start, "😀", Encoding::Utf16).character, 2);
    assert_eq!(advance_position(start, "😀", Encoding::Utf32).character, 1);
}

#[test]
fn encoding_kind_names_roundtrip() {
    for e in [Encoding::Utf8, Encoding::Utf16, Encoding::Utf32] {
        assert_eq!(Encoding::from_lsp(Some(e.to_lsp())), e);
    }
    assert_eq!(Encoding::from_lsp(None), Encoding::Utf16);
    assert_eq!(Encoding::from_lsp(Some("latin-1")), Encoding::Utf16);
    assert_eq!(Encoding::default(), Encoding::Utf16);
    assert_eq!(Encoding::Utf8.to_lsp(), "utf-8");
}
