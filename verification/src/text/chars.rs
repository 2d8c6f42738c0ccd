//! Character classes shared by the word motions and the word text objects.

use vstd::prelude::*;

verus! {

/// Whether `c` has the Unicode `White_Space` property, which
/// `char::is_whitespace` tests: tab through carriage return, space, next
/// line, no-break space, ogham space mark, the en quad through hair space
/// block, line and paragraph separators, narrow no-break space, medium
/// mathematical space and ideographic space.
pub open spec fn char_is_whitespace(c: char) -> bool {
    let v = c as u32;
    (0x9 <= v <= 0xD) || v == 0x20 || v == 0x85 || v == 0xA0 || v == 0x1680 || (0x2000 <= v
        <= 0x200A) || v == 0x2028 || v == 0x2029 || v == 0x202F || v == 0x205F || v == 0x3000
}

/// Whether `c` is alphabetic or numeric in Unicode's sense
/// (`char::is_alphanumeric`).
pub uninterp spec fn char_is_alphanumeric(c: char) -> bool;

/// `char::is_whitespace`.
pub fn is_whitespace(c: char) -> (b: bool)
    ensures
        b == char_is_whitespace(c),
{
    let v = c as u32;
    (0x9 <= v && v <= 0xD) || v == 0x20 || v == 0x85 || v == 0xA0 || v == 0x1680 || (0x2000 <= v
        && v <= 0x200A) || v == 0x2028 || v == 0x2029 || v == 0x202F || v == 0x205F || v == 0x3000
}

/// `char::is_alphanumeric`. The contract names the result and states its
/// value on ASCII (letters and digits); other code points are left to the
/// name.
#[verifier::external_body]
pub fn is_alphanumeric(c: char) -> (b: bool)
    ensures
        b == char_is_alphanumeric(c),
        (c as u32) < 128 ==> (b <==> (('a' <= c && c <= 'z') || ('A' <= c && c <= 'Z') || ('0'
            <= c && c <= '9'))),
{
    c.is_alphanumeric()
}

/// Vim-style character class. `Word` matches `\w` (alphanumeric +
/// underscore), `Punct` is any other non-whitespace char. In "big-word" mode
/// `Word` and `Punct` collapse into one class.
#[derive(PartialEq, Eq, Copy, Clone, Debug, Structural)]
pub enum CharClass {
    Ws,
    Word,
    Punct,
}

pub open spec fn spec_char_class(c: char, big: bool) -> CharClass {
    if char_is_whitespace(c) {
        CharClass::Ws
    } else if big || char_is_alphanumeric(c) || c == '_' {
        CharClass::Word
    } else {
        CharClass::Punct
    }
}

/// Class of `c`; with `big`, every non-whitespace char is a word char.
pub fn char_class(c: char, big: bool) -> (k: CharClass)
    ensures
        k == spec_char_class(c, big),
{
    if is_whitespace(c) {
        CharClass::Ws
    } else if big || is_alphanumeric(c) || c == '_' {
        CharClass::Word
    } else {
        CharClass::Punct
    }
}

} // verus!
