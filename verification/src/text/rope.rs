//! The rope (`ropey::Rope`) that holds a buffer's text, as the verified code
//! sees it: a sequence of chars, split into lines by ropey's line breaks
//! (those its default features recognise; a CRLF pair is one break, and a
//! break belongs to the line it ends).

use vstd::prelude::*;

use ropey::Rope;

verus! {

#[verifier::external_type_specification]
#[verifier::external_body]
pub struct ExRope(ropey::Rope);

/// The chars a rope holds, in order.
pub uninterp spec fn rope_chars(r: Rope) -> Seq<char>;

/// A char ropey ends a line with (its default line breaks): LF, VT, FF,
/// CR, NEL, LINE SEPARATOR and PARAGRAPH SEPARATOR.
pub open spec fn is_line_break(c: char) -> bool {
    c == '\n' || c == '\x0B' || c == '\x0C' || c == '\r' || c == '\u{85}' || c == '\u{2028}'
        || c == '\u{2029}'
}

/// Char `i` of `s` ends a line: it is a line break, and not the CR of a
/// CRLF pair, which makes one break that ends at its LF.
pub open spec fn ends_line_at(s: Seq<char>, i: int) -> bool {
    &&& 0 <= i < s.len()
    &&& is_line_break(s[i])
    &&& !(s[i] == '\r' && i + 1 < s.len() && s[i + 1] == '\n')
}

/// Line breaks among the first `n` chars of `s`.
#[verifier::opaque]
pub open spec fn breaks_before(s: Seq<char>, n: int) -> int
    decreases n,
{
    if n <= 0 {
        0
    } else {
        breaks_before(s, n - 1) + if ends_line_at(s, n - 1) {
            1int
        } else {
            0int
        }
    }
}

/// Where the line that holds position `p` ends: just past the first line
/// break at or after `p`, or the end of `s`.
#[verifier::opaque]
pub open spec fn next_line_start(s: Seq<char>, p: int) -> int
    decreases s.len() - p,
{
    if p >= s.len() {
        s.len() as int
    } else if ends_line_at(s, p) {
        p + 1
    } else {
        next_line_start(s, p + 1)
    }
}

/// Number of lines ropey counts in `s`: one more than its line breaks.
pub open spec fn rope_line_count(s: Seq<char>) -> int {
    breaks_before(s, s.len() as int) + 1
}

/// Char index where line `line` of `s` starts: 0 for the first line, just
/// past the break that ends the line before for the others, and the end
/// of `s` for the line one past the last.
#[verifier::opaque]
pub open spec fn rope_line_start(s: Seq<char>, line: int) -> int
    decreases line,
{
    if line <= 0 {
        0
    } else {
        next_line_start(s, rope_line_start(s, line - 1))
    }
}

/// Line that char index `i` of `s` falls on: the line breaks before it.
pub open spec fn rope_line_of(s: Seq<char>, i: int) -> int {
    breaks_before(s, i)
}

/// One more char adds a break exactly when it ends a line.
proof fn lemma_breaks_step(s: Seq<char>, n: int)
    requires
        0 <= n,
    ensures
        breaks_before(s, n + 1) == breaks_before(s, n) + if ends_line_at(s, n) {
            1int
        } else {
            0int
        },
{
    reveal(breaks_before);
}

/// Break counts grow with the prefix, by at most one per char, and stop
/// growing at the end of the text.
proof fn lemma_breaks_mono(s: Seq<char>, a: int, b: int)
    requires
        0 <= a <= b,
    ensures
        breaks_before(s, a) <= breaks_before(s, b) <= breaks_before(s, a) + (b - a),
        0 <= breaks_before(s, a) <= a,
        b >= s.len() && a >= s.len() ==> breaks_before(s, a) == breaks_before(s, b),
    decreases b,
{
    reveal(breaks_before);
    if b > a {
        lemma_breaks_mono(s, a, b - 1);
    } else if a > 0 {
        lemma_breaks_mono(s, a - 1, a - 1);
    }
}

/// From position `p`, the next line start `q` is past `p` and within the
/// text; the break count does not change before `q`; and either `q` is
/// just past a break, one more than at `p`, or no break follows `p`.
proof fn lemma_next_line_start(s: Seq<char>, p: int)
    requires
        0 <= p <= s.len(),
    ensures
        p <= next_line_start(s, p) <= s.len(),
        forall|i: int|
            p <= i < next_line_start(s, p) ==> #[trigger] breaks_before(s, i) == breaks_before(s, p),
        ({
            let q = next_line_start(s, p);
            ||| (p < q && ends_line_at(s, q - 1) && breaks_before(s, q) == breaks_before(s, p) + 1)
            ||| (q == s.len() && breaks_before(s, s.len() as int) == breaks_before(s, p))
        }),
    decreases s.len() - p,
{
    reveal(next_line_start);
    if p < s.len() {
        lemma_breaks_step(s, p);
        if !ends_line_at(s, p) {
            lemma_next_line_start(s, p + 1);
            let q = next_line_start(s, p);
            assert forall|i: int| p <= i < q implies #[trigger] breaks_before(s, i) == breaks_before(
                s,
                p,
            ) by {
                if i > p {
                    assert(breaks_before(s, i) == breaks_before(s, p + 1));
                }
            }
        }
    }
}

/// Line `l` (below the line count) starts where `l` breaks lie before it,
/// just past the last of them; line `count` starts at the end of the text;
/// and line starts grow with the line.
pub proof fn lemma_line_start(s: Seq<char>, l: int)
    requires
        0 <= l <= rope_line_count(s),
    ensures
        0 <= rope_line_start(s, l) <= s.len(),
        l < rope_line_count(s) ==> breaks_before(s, rope_line_start(s, l)) == l,
        0 < l < rope_line_count(s) ==> ends_line_at(s, rope_line_start(s, l) - 1)
            && breaks_before(s, rope_line_start(s, l) - 1) == l - 1,
        l == rope_line_count(s) ==> rope_line_start(s, l) == s.len(),
        l == 0 ==> rope_line_start(s, l) == 0,
        forall|k: int| 0 <= k <= l ==> #[trigger] rope_line_start(s, k) <= rope_line_start(s, l),
    decreases l,
{
    reveal(rope_line_start);
    reveal(breaks_before);
    lemma_breaks_mono(s, 0, s.len() as int);
    if l > 0 {
        lemma_line_start(s, l - 1);
        let p = rope_line_start(s, l - 1);
        lemma_next_line_start(s, p);
        let q = next_line_start(s, p);
        assert(rope_line_start(s, l) == q);
        lemma_breaks_mono(s, q, s.len() as int);
        if q > p {
            assert(breaks_before(s, q - 1) == breaks_before(s, p));
        }
        assert forall|k: int| 0 <= k <= l implies #[trigger] rope_line_start(s, k) <= rope_line_start(
            s,
            l,
        ) by {
            if k < l {
                assert(rope_line_start(s, k) <= rope_line_start(s, l - 1));
            }
        }
    }
}

/// The line of char index `i` is a line of the text, no more than `i`,
/// starts at or before `i`, and (for a char inside the text) the next line
/// starts after it.
pub proof fn lemma_line_of(s: Seq<char>, i: int)
    requires
        0 <= i <= s.len(),
    ensures
        0 <= rope_line_of(s, i) < rope_line_count(s),
        rope_line_of(s, i) <= i,
        0 <= rope_line_start(s, rope_line_of(s, i)) <= i,
        i < s.len() ==> i < rope_line_start(s, rope_line_of(s, i) + 1),
{
    let l = breaks_before(s, i);
    lemma_breaks_mono(s, i, s.len() as int);
    lemma_line_start(s, l);
    let p = rope_line_start(s, l);
    if l > 0 && i < p {
        lemma_breaks_mono(s, i, p - 1);
    }
    if i < s.len() {
        lemma_line_start(s, l + 1);
        let q = rope_line_start(s, l + 1);
        if l + 1 < rope_line_count(s) && q <= i {
            lemma_breaks_mono(s, q, i);
        }
    }
}

/// `Rope::from_str`: the rope holds exactly the chars of `text`.
#[verifier::external_body]
pub fn rope_from_str(text: &str) -> (r: Rope)
    ensures
        rope_chars(r) == text@,
{
    Rope::from_str(text)
}

/// `Rope::len_chars`.
#[verifier::external_body]
pub fn len_chars(r: &Rope) -> (n: usize)
    ensures
        n == rope_chars(*r).len(),
{
    r.len_chars()
}

/// `Rope::char`, which panics past the end.
#[verifier::external_body]
pub fn char_at(r: &Rope, i: usize) -> (c: char)
    requires
        i < rope_chars(*r).len(),
    ensures
        c == rope_chars(*r)[i as int],
{
    r.char(i)
}

/// `Rope::len_lines`: the line-break count plus one.
#[verifier::external_body]
fn rope_len_lines(r: &Rope) -> (n: usize)
    ensures
        n == rope_line_count(rope_chars(*r)),
{
    r.len_lines()
}

/// `Rope::char_to_line`, which panics past one-past-the-end: the number of
/// line breaks before char `i`.
#[verifier::external_body]
fn rope_char_to_line(r: &Rope, i: usize) -> (l: usize)
    requires
        i <= rope_chars(*r).len(),
    ensures
        l == rope_line_of(rope_chars(*r), i as int),
{
    r.char_to_line(i)
}

/// `Rope::line_to_char`, which panics past one-past-the-last line: where
/// line `l` starts.
#[verifier::external_body]
fn rope_line_to_char(r: &Rope, l: usize) -> (i: usize)
    requires
        l <= rope_line_count(rope_chars(*r)),
    ensures
        i == rope_line_start(rope_chars(*r), l as int),
{
    r.line_to_char(l)
}

/// The rope's number of lines, at least one.
pub fn len_lines(r: &Rope) -> (n: usize)
    ensures
        n == rope_line_count(rope_chars(*r)),
        n >= 1,
{
    proof {
        lemma_breaks_mono(rope_chars(*r), 0, rope_chars(*r).len() as int);
    }
    rope_len_lines(r)
}

/// The line that char `i` falls on: a real line, at most the char index
/// (each break is a char), starting at or before the char, and (for a char
/// inside the text) the next line starts after it.
pub fn char_to_line(r: &Rope, i: usize) -> (l: usize)
    requires
        i <= rope_chars(*r).len(),
    ensures
        l == rope_line_of(rope_chars(*r), i as int),
        l < rope_line_count(rope_chars(*r)),
        l <= i,
        0 <= rope_line_start(rope_chars(*r), l as int) <= i,
        i < rope_chars(*r).len() ==> i < rope_line_start(rope_chars(*r), l + 1),
{
    proof {
        lemma_line_of(rope_chars(*r), i as int);
    }
    rope_char_to_line(r, i)
}

/// Where line `l` starts. Line starts are ordered (no earlier line starts
/// after this one), the first line starts at 0, and one-past-the-last line
/// starts at the end of the text.
pub fn line_to_char(r: &Rope, l: usize) -> (i: usize)
    requires
        l <= rope_line_count(rope_chars(*r)),
    ensures
        i == rope_line_start(rope_chars(*r), l as int),
        i <= rope_chars(*r).len(),
        l == 0 ==> i == 0,
        l == rope_line_count(rope_chars(*r)) ==> i == rope_chars(*r).len(),
        l > 0 ==> rope_line_start(rope_chars(*r), l - 1) <= i,
        forall|k: int| 0 <= k <= l ==> #[trigger] rope_line_start(rope_chars(*r), k) <= i,
{
    proof {
        lemma_line_start(rope_chars(*r), l as int);
    }
    rope_line_to_char(r, l)
}

/// UTF-8 bytes of `c`.
pub open spec fn utf8_len(c: char) -> int {
    if (c as u32) < 0x80 {
        1
    } else if (c as u32) < 0x800 {
        2
    } else if (c as u32) < 0x10000 {
        3
    } else {
        4
    }
}

/// UTF-8 bytes of a char sequence.
pub open spec fn seq_utf8_len(s: Seq<char>) -> int
    decreases s.len(),
{
    if s.len() == 0 {
        0
    } else {
        seq_utf8_len(s.drop_last()) + utf8_len(s.last())
    }
}

/// `Rope::len_bytes`: the UTF-8 length of the text.
#[verifier::external_body]
pub fn len_bytes(r: &Rope) -> (n: usize)
    ensures
        n == seq_utf8_len(rope_chars(*r)),
{
    r.len_bytes()
}

pub proof fn lemma_seq_utf8_len_concat(a: Seq<char>, b: Seq<char>)
    ensures
        seq_utf8_len(a + b) == seq_utf8_len(a) + seq_utf8_len(b),
    decreases b.len(),
{
    if b.len() == 0 {
        assert(a + b =~= a);
    } else {
        lemma_seq_utf8_len_concat(a, b.drop_last());
        assert((a + b).drop_last() =~= a + b.drop_last());
    }
}

pub proof fn lemma_seq_utf8_len_nonneg(s: Seq<char>)
    ensures
        seq_utf8_len(s) >= 0,
    decreases s.len(),
{
    if s.len() > 0 {
        lemma_seq_utf8_len_nonneg(s.drop_last());
    }
}

/// A run of chars taken from inside a text has no more UTF-8 bytes than
/// the whole text.
pub proof fn lemma_seq_utf8_len_subrange(s: Seq<char>, i: int, j: int)
    requires
        0 <= i <= j <= s.len(),
    ensures
        0 <= seq_utf8_len(s.subrange(i, j)) <= seq_utf8_len(s),
{
    let a = s.subrange(0, i);
    let b = s.subrange(i, j);
    let c = s.subrange(j, s.len() as int);
    assert(s =~= a + b + c);
    lemma_seq_utf8_len_concat(a, b);
    lemma_seq_utf8_len_concat(a + b, c);
    lemma_seq_utf8_len_nonneg(a);
    lemma_seq_utf8_len_nonneg(b);
    lemma_seq_utf8_len_nonneg(c);
}

/// Taking one more char adds that char's bytes.
pub proof fn lemma_seq_utf8_len_take_step(s: Seq<char>, k: int)
    requires
        0 <= k < s.len(),
    ensures
        seq_utf8_len(s.take(k + 1)) == seq_utf8_len(s.take(k)) + utf8_len(s[k]),
{
    assert(s.take(k + 1).drop_last() =~= s.take(k));
}

/// `Rope::char_to_byte`, which panics past the end: the byte offset where
/// char `i` starts.
#[verifier::external_body]
pub(crate) fn char_to_byte(r: &Rope, i: usize) -> (b: usize)
    requires
        i <= rope_chars(*r).len(),
    ensures
        b == seq_utf8_len(rope_chars(*r).take(i as int)),
{
    r.char_to_byte(i)
}

/// `Rope::line_to_byte`, which panics past one-past-the-last line: the byte
/// offset where line `l` starts.
#[verifier::external_body]
pub(crate) fn line_to_byte(r: &Rope, l: usize) -> (b: usize)
    requires
        l <= rope_line_count(rope_chars(*r)),
    ensures
        b == seq_utf8_len(rope_chars(*r).take(rope_line_start(rope_chars(*r), l as int))),
{
    r.line_to_byte(l)
}

/// `Rope::slice` of the char range `start..end`, as a `String`; the slice
/// panics unless the range is ordered and inside the text.
#[verifier::external_body]
pub fn slice_to_string(r: &Rope, start: usize, end: usize) -> (s: String)
    requires
        start <= end <= rope_chars(*r).len(),
    ensures
        s@ == rope_chars(*r).subrange(start as int, end as int),
{
    r.slice(start..end).to_string()
}

/// `Rope::to_string`: the text as a `String`.
#[verifier::external_body]
pub fn rope_to_string(r: &Rope) -> (s: String)
    ensures
        s@ == rope_chars(*r),
{
    r.to_string()
}

} // verus!
