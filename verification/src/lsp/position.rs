//! Convert between the editor's UTF-8 byte/char positions and LSP positions.
//!
//! LSP positions are `(line, character)`. The `character` field counts code
//! units in the negotiated encoding — UTF-16 by default, UTF-8 / UTF-32 if
//! the server agrees during `initialize`. The editor stores positions as
//! `(row, col)` where `col` is a UTF-8 byte offset into the line; we
//! translate at the boundary.

use vstd::prelude::*;

use ropey::Rope;

use crate::strs::str_eq;
use crate::text::rope::{
    char_at, len_bytes, len_lines, lemma_seq_utf8_len_concat, lemma_seq_utf8_len_nonneg,
    lemma_seq_utf8_len_subrange, lemma_seq_utf8_len_take_step,
    line_to_char, rope_chars, rope_line_count, rope_line_start, seq_utf8_len, utf8_len,
};

verus! {

/// Encoding the client picked at `initialize` time.
#[derive(Debug, Clone, Copy, Eq, PartialEq, Structural)]
pub enum Encoding {
    /// Default if the server omits `positionEncoding` from its capabilities.
    Utf16,
    Utf8,
    Utf32,
}

impl Default for Encoding {
    fn default() -> (e: Self)
        ensures
            e == Encoding::Utf16,
    {
        Encoding::Utf16
    }
}

/// The encoding an LSP `positionEncoding` kind names: `"utf-8"` and
/// `"utf-32"` are recognised, anything else (or nothing) means UTF-16.
pub open spec fn spec_encoding_from_kind(kind: Option<Seq<char>>) -> Encoding {
    match kind {
        Some(k) => if k == "utf-8"@ {
            Encoding::Utf8
        } else if k == "utf-32"@ {
            Encoding::Utf32
        } else {
            Encoding::Utf16
        },
        None => Encoding::Utf16,
    }
}

/// The `positionEncoding` kind string of an encoding.
pub open spec fn spec_encoding_kind(e: Encoding) -> Seq<char> {
    match e {
        Encoding::Utf8 => "utf-8"@,
        Encoding::Utf16 => "utf-16"@,
        Encoding::Utf32 => "utf-32"@,
    }
}

/// Naming an encoding by its kind string and reading the kind back gives
/// the same encoding.
pub proof fn law_encoding_kind_roundtrip(e: Encoding)
    ensures
        spec_encoding_from_kind(Some(spec_encoding_kind(e))) == e,
{
    reveal_strlit("utf-8");
    reveal_strlit("utf-16");
    reveal_strlit("utf-32");
    assert("utf-8"@.len() == 5);
    assert("utf-16"@.len() == 6);
    assert("utf-32"@.len() == 6);
    assert("utf-16"@[4] == '1');
    assert("utf-32"@[4] == '3');
}

impl Encoding {
    /// Pick the encoding from the `positionEncoding` kind a server reports
    /// (the kind's string value).
    pub fn from_lsp(kind: Option<&str>) -> (e: Self)
        ensures
            e == spec_encoding_from_kind(
                match kind {
                    Some(k) => Some(k@),
                    None => None,
                },
            ),
    {
        match kind {
            Some(k) => if str_eq(k, "utf-8") {
                Encoding::Utf8
            } else if str_eq(k, "utf-32") {
                Encoding::Utf32
            } else {
                Encoding::Utf16
            },
            None => Encoding::Utf16,
        }
    }

    /// The `positionEncoding` kind string for this encoding.
    pub fn to_lsp(self) -> (k: &'static str)
        ensures
            k@ == spec_encoding_kind(self),
    {
        match self {
            Encoding::Utf8 => "utf-8",
            Encoding::Utf16 => "utf-16",
            Encoding::Utf32 => "utf-32",
        }
    }
}

/// An LSP `Position`: zero-based line and character offset in code units.
#[derive(Debug, Clone, Copy, PartialEq, Eq, Structural)]
pub struct LspPosition {
    pub line: u32,
    pub character: u32,
}

/// UTF-16 code units of `c`.
pub open spec fn utf16_len(c: char) -> int {
    if (c as u32) < 0x10000 {
        1
    } else {
        2
    }
}

/// Code units of `c` in `enc`.
pub open spec fn units_of(c: char, enc: Encoding) -> int {
    match enc {
        Encoding::Utf8 => utf8_len(c),
        Encoding::Utf16 => utf16_len(c),
        Encoding::Utf32 => 1,
    }
}

/// `char::len_utf16`.
pub fn char_len_utf16(c: char) -> (n: usize)
    ensures
        n == utf16_len(c),
{
    if (c as u32) < 0x10000 {
        1
    } else {
        2
    }
}

/// `char::len_utf8`.
pub fn char_len_utf8(c: char) -> (n: usize)
    ensures
        n == utf8_len(c),
{
    let v = c as u32;
    if v < 0x80 {
        1
    } else if v < 0x800 {
        2
    } else if v < 0x10000 {
        3
    } else {
        4
    }
}

/// Code units the chars of `line` from index `k` contribute while their
/// bytes, counted from `byte`, stay within `byte_col`; a char that would
/// straddle `byte_col` stops the count.
pub open spec fn walk_units(line: Seq<char>, k: int, byte: int, byte_col: int, enc: Encoding) -> int
    decreases line.len() - k,
{
    if k < 0 || k >= line.len() || byte >= byte_col || byte + utf8_len(line[k]) > byte_col {
        0
    } else {
        units_of(line[k], enc) + walk_units(line, k + 1, byte + utf8_len(line[k]), byte_col, enc)
    }
}

/// Bytes the chars of `line` from index `k` contribute until the code units,
/// counted from `units`, reach `target`.
pub open spec fn walk_bytes(line: Seq<char>, k: int, units: int, target: int, enc: Encoding) -> int
    decreases line.len() - k,
{
    if k < 0 || k >= line.len() || units >= target {
        0
    } else {
        utf8_len(line[k]) + walk_bytes(line, k + 1, units + units_of(line[k], enc), target, enc)
    }
}

/// The chars of line `row` of `s`, its line break included.
pub open spec fn line_chars(s: Seq<char>, row: int) -> Seq<char> {
    s.subrange(rope_line_start(s, row), rope_line_start(s, row + 1))
}

/// The row a position lands on: `row` clamped to the last line.
pub open spec fn clamp_row(s: Seq<char>, row: int) -> int {
    if row < rope_line_count(s) - 1 {
        row
    } else {
        rope_line_count(s) - 1
    }
}

/// The LSP position of byte column `byte_col` on `row` (clamped to the last
/// line): in UTF-8 the column itself, otherwise the code units of the
/// line's chars that end at or before the column.
pub open spec fn spec_byte_to_lsp(s: Seq<char>, row: int, byte_col: int, enc: Encoding) -> LspPosition {
    let r = clamp_row(s, row);
    LspPosition {
        line: r as u32,
        character: match enc {
            Encoding::Utf8 => byte_col as u32,
            _ => walk_units(line_chars(s, r), 0, 0, byte_col, enc) as u32,
        },
    }
}

/// The byte column that LSP position `pos` names, on its line clamped to
/// the last one: in UTF-8 the character offset clamped to the line's byte
/// length, otherwise the bytes of the line's chars until their code units
/// reach the character offset.
pub open spec fn spec_lsp_to_byte(s: Seq<char>, pos: LspPosition, enc: Encoding) -> (int, int) {
    let r = clamp_row(s, pos.line as int);
    let line = line_chars(s, r);
    let target = pos.character as int;
    (
        r,
        match enc {
            Encoding::Utf8 => if target < seq_utf8_len(line) {
                target
            } else {
                seq_utf8_len(line)
            },
            _ => walk_bytes(line, 0, 0, target, enc),
        },
    )
}

/// Code units of `c` in `enc`.
fn char_units(c: char, enc: Encoding) -> (n: u64)
    ensures
        n == units_of(c, enc),
        1 <= n <= utf8_len(c),
{
    match enc {
        Encoding::Utf8 => char_len_utf8(c) as u64,
        Encoding::Utf16 => char_len_utf16(c) as u64,
        Encoding::Utf32 => 1,
    }
}

/// Start and end (exclusive, line break included) of line `row`, clamped
/// to the last line; the clamped row comes first.
fn line_bounds(rope: &Rope, row: usize) -> (r: (usize, usize, usize))
    ensures
        r.0 == clamp_row(rope_chars(*rope), row as int),
        r.1 == rope_line_start(rope_chars(*rope), r.0 as int),
        r.2 == rope_line_start(rope_chars(*rope), r.0 + 1),
        r.1 <= r.2 <= rope_chars(*rope).len(),
{
    let nlines = len_lines(rope);
    let r = if row < nlines - 1 {
        row
    } else {
        nlines - 1
    };
    let ls = line_to_char(rope, r);
    let next = line_to_char(rope, r + 1);
    (r, ls, next)
}

/// Convert a (row, byte_col) coordinate into an LSP position in the
/// negotiated `encoding`. `byte_col` is the byte offset from the start of
/// `row`; a column inside a multi-byte char counts up to the char boundary
/// before it.
pub fn byte_to_lsp(rope: &Rope, row: usize, byte_col: usize, encoding: Encoding) -> (p:
    LspPosition)
    ensures
        p == spec_byte_to_lsp(rope_chars(*rope), row as int, byte_col as int, encoding),
{
    let ghost s = rope_chars(*rope);
    let (row, ls, next) = line_bounds(rope, row);
    let ghost line = line_chars(s, row as int);
    let character = match encoding {
        Encoding::Utf8 => byte_col as u32,
        _ => {
            let n = next - ls;
            let mut byte: usize = 0;
            let mut units: u64 = 0;
            let mut k: usize = 0;
            while k < n && byte < byte_col && char_len_utf8(char_at(rope, ls + k)) <= byte_col
                - byte
                invariant
                    s == rope_chars(*rope),
                    line == s.subrange(ls as int, next as int),
                    ls <= next <= s.len(),
                    n == next - ls,
                    k <= n,
                    byte <= byte_col,
                    units <= byte,
                    units + walk_units(line, k as int, byte as int, byte_col as int, encoding)
                        == walk_units(line, 0, 0, byte_col as int, encoding),
                decreases n - k,
            {
                let ch = char_at(rope, ls + k);
                byte = byte + char_len_utf8(ch);
                units = units + char_units(ch, encoding);
                k = k + 1;
            }
            units as u32
        },
    };
    LspPosition { line: row as u32, character }
}

/// Convert an LSP position (in the negotiated `encoding`) to a
/// (row, byte_col) coordinate in the rope.
pub fn lsp_to_byte(rope: &Rope, pos: LspPosition, encoding: Encoding) -> (r: (usize, usize))
    ensures
        (r.0 as int, r.1 as int) == spec_lsp_to_byte(rope_chars(*rope), pos, encoding),
{
    let ghost s = rope_chars(*rope);
    let total = len_bytes(rope);
    let (row, ls, next) = line_bounds(rope, pos.line as usize);
    let ghost line = line_chars(s, row as int);
    let target = pos.character;
    let n = next - ls;
    let mut byte: usize = 0;
    let mut k: usize = 0;
    proof {
        lemma_seq_utf8_len_subrange(s, ls as int, next as int);
        assert(line.take(0) =~= Seq::<char>::empty());
    }
    match encoding {
        Encoding::Utf8 => {
            while k < n && byte < target as usize
                invariant
                    s == rope_chars(*rope),
                    total == seq_utf8_len(s),
                    line == s.subrange(ls as int, next as int),
                    ls <= next <= s.len(),
                    n == next - ls,
                    k <= n,
                    byte == seq_utf8_len(line.take(k as int)),
                decreases n - k,
            {
                let ch = char_at(rope, ls + k);
                proof {
                    lemma_seq_utf8_len_take_step(line, k as int);
                    lemma_seq_utf8_len_subrange(line, 0, k + 1);
                    lemma_seq_utf8_len_subrange(s, ls as int, next as int);
                    assert(line.take(k + 1) =~= line.subrange(0, k + 1));
                }
                byte = byte + char_len_utf8(ch);
                k = k + 1;
            }
            proof {
                lemma_seq_utf8_len_subrange(line, 0, k as int);
                assert(line.take(k as int) =~= line.subrange(0, k as int));
                if k == n {
                    assert(line.take(k as int) =~= line);
                }
            }
            if byte >= target as usize {
                (row, target as usize)
            } else {
                (row, byte)
            }
        },
        _ => {
            let mut units: u64 = 0;
            while k < n && units < target as u64
                invariant
                    s == rope_chars(*rope),
                    total == seq_utf8_len(s),
                    line == s.subrange(ls as int, next as int),
                    ls <= next <= s.len(),
                    n == next - ls,
                    k <= n,
                    units <= u32::MAX + 4,
                    byte == seq_utf8_len(line.take(k as int)),
                    byte + walk_bytes(line, k as int, units as int, target as int, encoding)
                        == walk_bytes(line, 0, 0, target as int, encoding),
                decreases n - k,
            {
                let ch = char_at(rope, ls + k);
                proof {
                    lemma_seq_utf8_len_take_step(line, k as int);
                    lemma_seq_utf8_len_subrange(line, 0, k + 1);
                    lemma_seq_utf8_len_subrange(s, ls as int, next as int);
                    assert(line.take(k + 1) =~= line.subrange(0, k + 1));
                }
                byte = byte + char_len_utf8(ch);
                units = units + char_units(ch, encoding);
                k = k + 1;
            }
            (row, byte)
        },
    }
}

/// Code units of a char sequence in `enc`.
pub open spec fn seq_units(s: Seq<char>, enc: Encoding) -> int
    decreases s.len(),
{
    if s.len() == 0 {
        0
    } else {
        seq_units(s.drop_last(), enc) + units_of(s.last(), enc)
    }
}

proof fn lemma_seq_units_take_step(s: Seq<char>, k: int, enc: Encoding)
    requires
        0 <= k < s.len(),
    ensures
        seq_units(s.take(k + 1), enc) == seq_units(s.take(k), enc) + units_of(s[k], enc),
{
    assert(s.take(k + 1).drop_last() =~= s.take(k));
}

/// Prefixes grow strictly in both bytes and code units, and a prefix never
/// has more code units than bytes.
proof fn lemma_prefix_growth(s: Seq<char>, j: int, k: int, enc: Encoding)
    requires
        0 <= j <= k <= s.len(),
    ensures
        j < k ==> seq_utf8_len(s.take(j)) < seq_utf8_len(s.take(k)),
        j < k ==> seq_units(s.take(j), enc) < seq_units(s.take(k), enc),
        seq_utf8_len(s.take(j)) <= seq_utf8_len(s.take(k)),
        seq_units(s.take(j), enc) <= seq_units(s.take(k), enc),
        0 <= seq_units(s.take(k), enc) <= seq_utf8_len(s.take(k)),
    decreases k,
{
    if k > 0 {
        lemma_seq_utf8_len_take_step(s, k - 1);
        lemma_seq_units_take_step(s, k - 1, enc);
        if j < k {
            lemma_prefix_growth(s, j, k - 1, enc);
        } else {
            lemma_prefix_growth(s, k - 1, k - 1, enc);
        }
    } else {
        assert(s.take(0) =~= Seq::<char>::empty());
    }
}

proof fn lemma_walk_units(line: Seq<char>, j: int, k: int, enc: Encoding)
    requires
        0 <= j <= k <= line.len(),
    ensures
        walk_units(
            line,
            j,
            seq_utf8_len(line.take(j)),
            seq_utf8_len(line.take(k)),
            enc,
        ) == seq_units(line.take(k), enc) - seq_units(line.take(j), enc),
    decreases k - j,
{
    if j < k {
        lemma_seq_utf8_len_take_step(line, j);
        lemma_seq_units_take_step(line, j, enc);
        lemma_prefix_growth(line, j, k, enc);
        lemma_prefix_growth(line, j + 1, k, enc);
        lemma_walk_units(line, j + 1, k, enc);
    }
}

proof fn lemma_walk_bytes(line: Seq<char>, j: int, k: int, enc: Encoding)
    requires
        0 <= j <= k <= line.len(),
    ensures
        walk_bytes(
            line,
            j,
            seq_units(line.take(j), enc),
            seq_units(line.take(k), enc),
            enc,
        ) == seq_utf8_len(line.take(k)) - seq_utf8_len(line.take(j)),
    decreases k - j,
{
    if j < k {
        lemma_seq_utf8_len_take_step(line, j);
        lemma_seq_units_take_step(line, j, enc);
        lemma_prefix_growth(line, j, k, enc);
        lemma_walk_bytes(line, j + 1, k, enc);
    }
}

/// Round trip: a byte column at a char boundary of a line converts to an
/// LSP position and back to the same row and column, in every encoding
/// (given the row and column fit LSP's 32-bit fields).
pub proof fn law_byte_lsp_roundtrip(s: Seq<char>, row: int, k: int, enc: Encoding)
    requires
        0 <= row < rope_line_count(s),
        row <= u32::MAX,
        0 <= k <= line_chars(s, row).len(),
        seq_utf8_len(line_chars(s, row).take(k)) <= u32::MAX,
    ensures
        spec_lsp_to_byte(
            s,
            spec_byte_to_lsp(s, row, seq_utf8_len(line_chars(s, row).take(k)), enc),
            enc,
        ) == (row, seq_utf8_len(line_chars(s, row).take(k))),
{
    let line = line_chars(s, row);
    let n = line.len() as int;
    lemma_prefix_growth(line, 0, k, enc);
    lemma_prefix_growth(line, k, n, enc);
    assert(line.take(0) =~= Seq::<char>::empty());
    assert(line.take(n) =~= line);
    lemma_walk_units(line, 0, k, enc);
    lemma_walk_bytes(line, 0, k, enc);
}

/// Chars of `t` outside the Basic Multilingual Plane (code point at least
/// U+10000), the ones UTF-16 writes as a surrogate pair.
pub open spec fn astral_count(t: Seq<char>) -> int
    decreases t.len(),
{
    if t.len() == 0 {
        0
    } else {
        astral_count(t.drop_last()) + if (t.last() as u32) >= 0x10000 {
            1int
        } else {
            0int
        }
    }
}

proof fn lemma_units_by_encoding(t: Seq<char>)
    ensures
        seq_units(t, Encoding::Utf32) == t.len(),
        seq_units(t, Encoding::Utf16) == t.len() + astral_count(t),
    decreases t.len(),
{
    if t.len() > 0 {
        lemma_units_by_encoding(t.drop_last());
    }
}

/// Character offsets count chars: at the byte column just after the first
/// `k` chars of a line, the UTF-32 offset is `k` and the UTF-16 offset is
/// `k` plus the number of those chars outside the Basic Multilingual Plane
/// (each a surrogate pair); every other char is one UTF-16 unit.
pub proof fn law_lsp_offsets_count_chars(s: Seq<char>, row: int, k: int)
    requires
        0 <= row < rope_line_count(s),
        row <= u32::MAX,
        0 <= k <= line_chars(s, row).len(),
        seq_utf8_len(line_chars(s, row).take(k)) <= u32::MAX,
    ensures
        spec_byte_to_lsp(s, row, seq_utf8_len(line_chars(s, row).take(k)), Encoding::Utf32)
            == (LspPosition { line: row as u32, character: k as u32 }),
        spec_byte_to_lsp(s, row, seq_utf8_len(line_chars(s, row).take(k)), Encoding::Utf16)
            == (LspPosition {
            line: row as u32,
            character: (k + astral_count(line_chars(s, row).take(k))) as u32,
        }),
        k + astral_count(line_chars(s, row).take(k)) <= u32::MAX,
{
    let line = line_chars(s, row);
    assert(line.take(0) =~= Seq::<char>::empty());
    lemma_prefix_growth(line, 0, k, Encoding::Utf16);
    lemma_prefix_growth(line, 0, k, Encoding::Utf32);
    lemma_walk_units(line, 0, k, Encoding::Utf16);
    lemma_walk_units(line, 0, k, Encoding::Utf32);
    lemma_units_by_encoding(line.take(k));
    lemma_units_by_encoding(Seq::<char>::empty());
}

/// Where a position ends up after the text `t` is written at `p`: each line
/// feed moves to the start of the next line, every other char advances the
/// character offset by its code units.
pub open spec fn spec_advance(line: int, character: int, t: Seq<char>, enc: Encoding) -> (int, int)
    decreases t.len(),
{
    if t.len() == 0 {
        (line, character)
    } else {
        let q = spec_advance(line, character, t.drop_last(), enc);
        if t.last() == '\n' {
            (q.0 + 1, 0)
        } else {
            (q.0, q.1 + units_of(t.last(), enc))
        }
    }
}

/// The positions met while walking `t` from `start` all fit LSP's 32-bit
/// fields.
pub open spec fn advance_fits(start: LspPosition, t: Seq<char>, enc: Encoding) -> bool {
    forall|k: int|
        0 <= k <= t.len() ==> {
            let q = #[trigger] spec_advance(start.line as int, start.character as int, t.take(k), enc);
            q.0 <= u32::MAX && q.1 <= u32::MAX
        }
}

/// Whether [`advance_position`] can walk `text` from `start` without
/// leaving LSP's 32-bit fields.
pub fn advance_in_range(start: LspPosition, text: &str, encoding: Encoding) -> (b: bool)
    ensures
        b == advance_fits(start, text@, encoding),
{
    let v = crate::strs::collect_chars(text);
    let ghost t = text@;
    let mut line: u64 = start.line as u64;
    let mut character: u64 = start.character as u64;
    let mut k: usize = 0;
    proof {
        assert(t.take(0) =~= Seq::<char>::empty());
    }
    while k < v.len()
        invariant
            v@ == t,
            t == text@,
            k <= t.len(),
            line <= u32::MAX,
            character <= u32::MAX,
            (line as int, character as int) == spec_advance(
                start.line as int,
                start.character as int,
                t.take(k as int),
                encoding,
            ),
            forall|j: int|
                0 <= j <= k ==> {
                    let q = #[trigger] spec_advance(
                        start.line as int,
                        start.character as int,
                        t.take(j),
                        encoding,
                    );
                    q.0 <= u32::MAX && q.1 <= u32::MAX
                },
        decreases t.len() - k,
    {
        let ch = v[k];
        proof {
            assert(t.take(k + 1).drop_last() =~= t.take(k as int));
        }
        if ch == '\n' {
            line = line + 1;
            character = 0;
        } else {
            let step: u64 = match encoding {
                Encoding::Utf8 => char_len_utf8(ch) as u64,
                Encoding::Utf16 => char_len_utf16(ch) as u64,
                Encoding::Utf32 => 1,
            };
            character = character + step;
        }
        k = k + 1;
        proof {
            assert(t.take(k as int).last() == ch);
            assert((line as int, character as int) == spec_advance(
                start.line as int,
                start.character as int,
                t.take(k as int),
                encoding,
            ));
        }
        if line > 0xffff_ffff || character > 0xffff_ffff {
            proof {
                let q = spec_advance(start.line as int, start.character as int, t.take(k as int), encoding);
                assert(q.0 > u32::MAX || q.1 > u32::MAX);
            }
            return false;
        }
    }
    proof {
        assert(t.take(k as int) =~= t);
    }
    true
}

/// Compute the LSP end position after applying a splice that wrote
/// `text` starting at LSP `start`. The position stays within LSP's 32-bit
/// fields all along the way.
pub fn advance_position(start: LspPosition, text: &str, encoding: Encoding) -> (p: LspPosition)
    requires
        advance_fits(start, text@, encoding),
    ensures
        (p.line as int, p.character as int) == spec_advance(
            start.line as int,
            start.character as int,
            text@,
            encoding,
        ),
{
    let mut line = start.line;
    let mut character = start.character;
    let ghost t = text@;
    proof {
        assert(t.take(0) =~= Seq::<char>::empty());
    }
    for ch in it: text.chars()
        invariant
            t == text@,
            it.seq() == t,
            forall|k: int|
                0 <= k <= t.len() ==> {
                    let q = #[trigger] spec_advance(
                        start.line as int,
                        start.character as int,
                        t.take(k),
                        encoding,
                    );
                    q.0 <= u32::MAX && q.1 <= u32::MAX
                },
            (line as int, character as int) == spec_advance(
                start.line as int,
                start.character as int,
                t.take(it.index() as int),
                encoding,
            ),
    {
        let ghost i = it.index() as int;
        proof {
            assert(t.take(i + 1).drop_last() =~= t.take(i));
            let _ = spec_advance(start.line as int, start.character as int, t.take(i + 1), encoding);
        }
        if ch == '\n' {
            line = line + 1;
            character = 0;
        } else {
            let step: u32 = match encoding {
                Encoding::Utf8 => char_len_utf8(ch) as u32,
                Encoding::Utf16 => char_len_utf16(ch) as u32,
                Encoding::Utf32 => 1,
            };
            character = character + step;
        }
    }
    proof {
        assert(t.take(t.len() as int) =~= t);
    }
    LspPosition { line, character }
}

} // verus!
