//! Length-prefixed JSON-RPC framing.
//!
//! LSP wraps every message in an HTTP-style header:
//!
//! ```text
//! Content-Length: 123\r\n
//! \r\n
//! {"jsonrpc":"2.0", ...}
//! ```
//!
//! Other headers are tolerated and skipped (some servers emit
//! `Content-Type`). The decoder yields one body per frame; encoding wraps a
//! body in the required header.

use vstd::prelude::*;
use vstd::utf8::{
    decode_first_scalar, decode_utf8, length_of_first_scalar, pop_first_scalar, valid_first_scalar,
    valid_utf8,
};

use crate::strs::{
    ascii_lower, char_to_ascii_lower, chars_to_string, collect_chars, slice_chars, spec_trim,
    trim_bounds, trim_end_from, trim_start_from,
};
use crate::text::chars::char_is_whitespace;

verus! {

/// What went wrong with a frame header.
#[derive(Debug, Clone, Copy, PartialEq, Eq, Structural)]
pub enum FrameErrorKind {
    /// The header bytes are not UTF-8.
    NonUtf8Header,
    /// A header line has no `:`.
    MalformedHeaderLine,
    /// The `Content-Length` value is not a number that fits a `usize`.
    BadContentLength,
    /// No `Content-Length` header.
    MissingContentLength,
}

/// A framing error: its kind and the offending text (the header line for a
/// malformed line, the raw value for a bad length, empty otherwise).
#[derive(Debug, Clone)]
pub struct FrameError {
    pub kind: FrameErrorKind,
    pub detail: String,
}

impl View for FrameError {
    type V = (FrameErrorKind, Seq<char>);

    open spec fn view(&self) -> (FrameErrorKind, Seq<char>) {
        (self.kind, self.detail@)
    }
}

/// The header terminator `\r\n\r\n`.
pub open spec fn header_terminator() -> Seq<u8> {
    seq![13u8, 10u8, 13u8, 10u8]
}

/// First index at or after `i` where `needle` occurs in `hay`.
pub open spec fn find_from(hay: Seq<u8>, needle: Seq<u8>, i: int) -> Option<int>
    decreases hay.len() + 1 - i,
{
    if i < 0 || i + needle.len() > hay.len() {
        None
    } else if hay.subrange(i, i + needle.len()) == needle {
        Some(i)
    } else {
        find_from(hay, needle, i + 1)
    }
}

/// First occurrence of a non-empty `needle` in `hay`.
pub open spec fn spec_find_subslice(hay: Seq<u8>, needle: Seq<u8>) -> Option<int> {
    if needle.len() == 0 || hay.len() < needle.len() {
        None
    } else {
        find_from(hay, needle, 0)
    }
}

proof fn lemma_find_from(hay: Seq<u8>, needle: Seq<u8>, i: int)
    ensures
        find_from(hay, needle, i) matches Some(j) ==> i <= j && j + needle.len() <= hay.len()
            && hay.subrange(j, j + needle.len()) == needle,
    decreases hay.len() + 1 - i,
{
    if 0 <= i && i + needle.len() <= hay.len() && hay.subrange(i, i + needle.len()) != needle {
        lemma_find_from(hay, needle, i + 1);
    }
}

/// Whether `needle` occurs in `hay` at `i`.
fn matches_at(hay: &[u8], needle: &[u8], i: usize) -> (b: bool)
    requires
        i + needle@.len() <= hay@.len(),
    ensures
        b == (hay@.subrange(i as int, i + needle@.len()) == needle@),
{
    let hl = hay.len();
    let mut k: usize = 0;
    while k < needle.len()
        invariant
            hl == hay@.len(),
            i + needle@.len() <= hay@.len(),
            k <= needle@.len(),
            forall|j: int| 0 <= j < k ==> hay@[i + j] == needle@[j],
        decreases needle@.len() - k,
    {
        if hay[i + k] != needle[k] {
            assert(hay@.subrange(i as int, i + needle@.len())[k as int] != needle@[k as int]);
            return false;
        }
        k = k + 1;
    }
    assert(hay@.subrange(i as int, i + needle@.len()) =~= needle@);
    true
}

/// Index of the first occurrence of `needle` in `haystack`; `None` for an
/// empty needle or one longer than the haystack.
pub fn find_subslice(haystack: &[u8], needle: &[u8]) -> (r: Option<usize>)
    ensures
        spec_find_subslice(haystack@, needle@) == (match r {
            Some(i) => Some(i as int),
            None => None::<int>,
        }),
{
    if needle.len() == 0 || haystack.len() < needle.len() {
        return None;
    }
    let last = haystack.len() - needle.len();
    let mut i: usize = 0;
    let hl = haystack.len();
    while i <= last
        invariant
            hl == haystack@.len(),
            last == haystack@.len() - needle@.len(),
            needle@.len() > 0,
            i <= last + 1,
            find_from(haystack@, needle@, i as int) == find_from(haystack@, needle@, 0),
        decreases last + 1 - i,
    {
        if matches_at(haystack, needle, i) {
            return Some(i);
        }
        i = i + 1;
    }
    None
}

/// `std::str::from_utf8`: the bytes as text exactly when they are valid
/// UTF-8, decoded char by char.
#[verifier::external_body]
fn str_from_utf8(bytes: &[u8]) -> (r: Option<&str>)
    ensures
        r is Some <==> valid_utf8(bytes@),
        r matches Some(s) ==> s@ == decode_utf8(bytes@),
{
    std::str::from_utf8(bytes).ok()
}

/// First index at or after `i` where `\r\n` starts in `s` (`s.len()` when
/// there is none).
pub open spec fn next_crlf(s: Seq<char>, i: int) -> int
    decreases s.len() + 1 - i,
{
    if i < 0 || i + 1 >= s.len() {
        s.len() as int
    } else if s[i] == '\r' && s[i + 1] == '\n' {
        i
    } else {
        next_crlf(s, i + 1)
    }
}

/// `str::split("\r\n")` of `s` from index `i`.
pub open spec fn split_crlf_from(s: Seq<char>, i: int) -> Seq<Seq<char>>
    decreases s.len() + 1 - i,
{
    if i < 0 || i > s.len() {
        Seq::empty()
    } else {
        let j = next_crlf(s, i);
        if j >= s.len() {
            seq![s.subrange(i, s.len() as int)]
        } else {
            proof {
                lemma_next_crlf(s, i);
            }
            seq![s.subrange(i, j)] + split_crlf_from(s, j + 2)
        }
    }
}

pub proof fn lemma_next_crlf(s: Seq<char>, i: int)
    requires
        0 <= i <= s.len(),
    ensures
        i <= next_crlf(s, i) <= s.len(),
        next_crlf(s, i) < s.len() ==> next_crlf(s, i) + 1 < s.len() && s[next_crlf(s, i)]
            == '\r' && s[next_crlf(s, i) + 1] == '\n',
    decreases s.len() + 1 - i,
{
    if i + 1 < s.len() && !(s[i] == '\r' && s[i + 1] == '\n') {
        lemma_next_crlf(s, i + 1);
    }
}

/// Index of the first `:` in `line`.
pub open spec fn first_colon(line: Seq<char>, i: int) -> Option<int>
    decreases line.len() - i,
{
    if i < 0 || i >= line.len() {
        None
    } else if line[i] == ':' {
        Some(i)
    } else {
        first_colon(line, i + 1)
    }
}

/// `name.eq_ignore_ascii_case("content-length")`.
pub open spec fn is_content_length_name(name: Seq<char>) -> bool {
    name.len() == 14 && forall|i: int| 0 <= i < 14 ==> ascii_lower(#[trigger] name[i])
        == "content-length"@[i]
}

/// Value of a run of ASCII digits.
pub open spec fn decimal_value(d: Seq<char>) -> int
    decreases d.len(),
{
    if d.len() == 0 {
        0
    } else {
        decimal_value(d.drop_last()) * 10 + ((d.last() as int) - ('0' as int))
    }
}

pub open spec fn all_digits(d: Seq<char>) -> bool {
    forall|i: int| 0 <= i < d.len() ==> '0' <= #[trigger] d[i] <= '9'
}

/// `str::parse::<usize>`: an optional `+` followed by at least one ASCII
/// digit, with a value that fits a `usize`.
pub open spec fn spec_parse_usize(v: Seq<char>) -> Option<int> {
    let d = if v.len() > 0 && v[0] == '+' {
        v.drop_first()
    } else {
        v
    };
    if d.len() == 0 || !all_digits(d) || decimal_value(d) > usize::MAX {
        None
    } else {
        Some(decimal_value(d))
    }
}

/// Walk the header lines: blank lines are skipped, a line without `:` is an
/// error, and each `Content-Length` line (name compared ignoring ASCII
/// case) sets the length from its trimmed value, the last one winning.
pub open spec fn scan_header_lines(lines: Seq<Seq<char>>, acc: Option<int>) -> Result<
    Option<int>,
    (FrameErrorKind, Seq<char>),
>
    decreases lines.len(),
{
    if lines.len() == 0 {
        Ok(acc)
    } else {
        let line = lines[0];
        if line.len() == 0 {
            scan_header_lines(lines.drop_first(), acc)
        } else {
            match first_colon(line, 0) {
                None => Err((FrameErrorKind::MalformedHeaderLine, line)),
                Some(c) => {
                    let value = line.subrange(c + 1, line.len() as int);
                    if is_content_length_name(line.subrange(0, c)) {
                        match spec_parse_usize(spec_trim(value)) {
                            None => Err((FrameErrorKind::BadContentLength, value)),
                            Some(n) => scan_header_lines(lines.drop_first(), Some(n)),
                        }
                    } else {
                        scan_header_lines(lines.drop_first(), acc)
                    }
                },
            }
        }
    }
}

/// What decoding `src` yields: nothing until the header terminator has
/// arrived; an error for a non-UTF-8 header, a malformed line, a bad or
/// missing `Content-Length`; nothing while the body is incomplete; else
/// the body and the number of bytes the frame takes.
pub open spec fn spec_decode(src: Seq<u8>) -> Result<Option<(Seq<u8>, int)>, (FrameErrorKind, Seq<char>)> {
    match spec_find_subslice(src, header_terminator()) {
        None => Ok(None),
        Some(he) => if !valid_utf8(src.subrange(0, he)) {
            Err((FrameErrorKind::NonUtf8Header, Seq::empty()))
        } else {
            match scan_header_lines(split_crlf_from(decode_utf8(src.subrange(0, he)), 0), None) {
                Err(e) => Err(e),
                Ok(None) => Err((FrameErrorKind::MissingContentLength, Seq::empty())),
                Ok(Some(n)) => {
                    let total = he + 4 + n;
                    if src.len() < total {
                        Ok(None)
                    } else {
                        Ok(Some((src.subrange(he + 4, total), total)))
                    }
                },
            }
        },
    }
}

/// What a decode result holds, as plain values.
pub open spec fn decode_view(r: Result<Option<(Vec<u8>, usize)>, FrameError>) -> Result<
    Option<(Seq<u8>, int)>,
    (FrameErrorKind, Seq<char>),
> {
    match r {
        Ok(Some((b, n))) => Ok(Some((b@, n as int))),
        Ok(None) => Ok(None),
        Err(e) => Err(e@),
    }
}

fn next_crlf_exec(h: &Vec<char>, i: usize) -> (j: usize)
    requires
        i <= h@.len(),
    ensures
        j == next_crlf(h@, i as int),
        i <= j <= h@.len(),
{
    let n = h.len();
    let mut j = i;
    while n > 0 && j < n - 1 && !(h[j] == '\r' && h[j + 1] == '\n')
        invariant
            n == h@.len(),
            i <= j <= n,
            next_crlf(h@, j as int) == next_crlf(h@, i as int),
        decreases n - j,
    {
        j = j + 1;
    }
    if n > 0 && j < n - 1 {
        j
    } else {
        n
    }
}

fn first_colon_exec(line: &Vec<char>) -> (r: Option<usize>)
    ensures
        first_colon(line@, 0) == (match r {
            Some(c) => Some(c as int),
            None => None::<int>,
        }),
        r matches Some(c) ==> c < line@.len(),
{
    let mut i: usize = 0;
    while i < line.len()
        invariant
            i <= line@.len(),
            first_colon(line@, i as int) == first_colon(line@, 0),
        decreases line@.len() - i,
    {
        if line[i] == ':' {
            return Some(i);
        }
        i = i + 1;
    }
    None
}


/// Whether `line[0..c]` is `content-length`, ignoring ASCII case.
fn is_content_length_exec(line: &Vec<char>, c: usize) -> (b: bool)
    requires
        c <= line@.len(),
    ensures
        b == is_content_length_name(line@.subrange(0, c as int)),
{
    let key = "content-length";
    proof {
        reveal_strlit("content-length");
    }
    if c != 14 {
        return false;
    }
    let mut i: usize = 0;
    while i < 14
        invariant
            c == 14,
            c <= line@.len(),
            key@ == "content-length"@,
            key@.len() == 14,
            i <= 14,
            forall|j: int| 0 <= j < i ==> ascii_lower(line@[j]) == "content-length"@[j],
        decreases 14 - i,
    {
        if char_to_ascii_lower(line[i]) != key.get_char(i) {
            assert(ascii_lower(line@.subrange(0, c as int)[i as int]) != "content-length"@[i as int]);
            return false;
        }
        i = i + 1;
    }
    assert forall|j: int| 0 <= j < 14 implies ascii_lower(#[trigger] line@.subrange(0, c as int)[j])
        == "content-length"@[j] by {
        assert(line@.subrange(0, c as int)[j] == line@[j]);
    }
    true
}


proof fn lemma_decimal_value_nonneg(x: Seq<char>)
    requires
        all_digits(x),
    ensures
        decimal_value(x) >= 0,
    decreases x.len(),
{
    if x.len() > 0 {
        assert(all_digits(x.drop_last()));
        lemma_decimal_value_nonneg(x.drop_last());
    }
}

proof fn lemma_decimal_value_grows(d: Seq<char>, i: int, j: int)
    requires
        0 <= i <= j <= d.len(),
        all_digits(d),
    ensures
        0 <= decimal_value(d.take(i)) <= decimal_value(d.take(j)),
    decreases j,
{
    if j > i {
        lemma_decimal_value_grows(d, i, j - 1);
        assert(d.take(j).drop_last() =~= d.take(j - 1));
        assert(d.take(j).last() == d[j - 1]);
    } else {
        assert(all_digits(d.take(i)));
        lemma_decimal_value_nonneg(d.take(i));
    }
}

/// `str::parse::<usize>` of the chars `v[a..b]`.
fn parse_usize(v: &Vec<char>, a: usize, b: usize) -> (r: Option<usize>)
    requires
        a <= b <= v@.len(),
    ensures
        spec_parse_usize(v@.subrange(a as int, b as int)) == (match r {
            Some(n) => Some(n as int),
            None => None::<int>,
        }),
{
    let ghost w = v@.subrange(a as int, b as int);
    let start = if a < b && v[a] == '+' {
        a + 1
    } else {
        a
    };
    let ghost d = v@.subrange(start as int, b as int);
    proof {
        assert(d =~= (if w.len() > 0 && w[0] == '+' {
            w.drop_first()
        } else {
            w
        }));
    }
    if start == b {
        return None;
    }
    let mut value: usize = 0;
    let mut i = start;
    while i < b
        invariant
            a <= start <= i <= b <= v@.len(),
            d == v@.subrange(start as int, b as int),
            w == v@.subrange(a as int, b as int),
            d == (if w.len() > 0 && w[0] == '+' {
                w.drop_first()
            } else {
                w
            }),
            all_digits(d.take(i - start)),
            value == decimal_value(d.take(i - start)),
        decreases b - i,
    {
        let c = v[i];
        if !('0' <= c && c <= '9') {
            assert(d[i - start] == c);
            assert(!all_digits(d));
            return None;
        }
        let dig = (c as u32 - '0' as u32) as usize;
        proof {
            assert(d.take(i - start + 1).drop_last() =~= d.take(i - start));
            assert(d.take(i - start + 1).last() == c);
            assert(decimal_value(d.take(i - start + 1)) == value * 10 + dig);
        }
        if value > (usize::MAX - dig) / 10 {
            proof {
                assert(value * 10 + dig > usize::MAX) by (nonlinear_arith)
                    requires
                        value > (usize::MAX - dig) / 10,
                        dig <= 9,
                ;
                if all_digits(d) {
                    lemma_decimal_value_grows(d, i - start + 1, d.len() as int);
                    assert(d.take(d.len() as int) =~= d);
                }
            }
            return None;
        }
        proof {
            assert(value * 10 + dig <= usize::MAX) by (nonlinear_arith)
                requires
                    value <= (usize::MAX - dig) / 10,
                    dig <= 9,
            ;
            assert(all_digits(d.take(i - start + 1)));
        }
        value = value * 10 + dig;
        i = i + 1;
    }
    proof {
        assert(d.take(i - start) =~= d);
    }
    Some(value)
}

/// The header lines' verdict, as plain values.
pub open spec fn scan_view(r: Result<Option<usize>, FrameError>) -> Result<
    Option<int>,
    (FrameErrorKind, Seq<char>),
> {
    match r {
        Ok(Some(n)) => Ok(Some(n as int)),
        Ok(None) => Ok(None),
        Err(e) => Err(e@),
    }
}

pub open spec fn opt_int(o: Option<usize>) -> Option<int> {
    match o {
        Some(n) => Some(n as int),
        None => None,
    }
}

/// Walk the `\r\n`-separated lines of the header text `h`.
fn scan_header(h: &Vec<char>) -> (r: Result<Option<usize>, FrameError>)
    ensures
        scan_view(r) == scan_header_lines(split_crlf_from(h@, 0), None),
{
    let n = h.len();
    let mut i: usize = 0;
    let mut acc: Option<usize> = None;
    loop
        invariant
            n == h@.len(),
            i <= n,
            scan_header_lines(split_crlf_from(h@, i as int), opt_int(acc)) == scan_header_lines(
                split_crlf_from(h@, 0),
                None,
            ),
        decreases n - i,
    {
        let j = next_crlf_exec(h, i);
        proof {
            lemma_next_crlf(h@, i as int);
        }
        let line = slice_chars(h, i, j);
        let ghost lines = split_crlf_from(h@, i as int);
        let ghost rest = if j >= n {
            Seq::<Seq<char>>::empty()
        } else {
            split_crlf_from(h@, j + 2)
        };
        proof {
            assert(lines =~= seq![line@] + rest);
            assert(lines[0] == line@);
            assert(lines.drop_first() =~= rest);
        }
        if line.len() > 0 {
            match first_colon_exec(&line) {
                None => {
                    return Err(
                        FrameError {
                            kind: FrameErrorKind::MalformedHeaderLine,
                            detail: chars_to_string(&line),
                        },
                    );
                },
                Some(c) => {
                    if is_content_length_exec(&line, c) {
                        let value = slice_chars(&line, c + 1, line.len());
                        let (ta, tb) = trim_bounds(&value);
                        match parse_usize(&value, ta, tb) {
                            None => {
                                return Err(
                                    FrameError {
                                        kind: FrameErrorKind::BadContentLength,
                                        detail: chars_to_string(&value),
                                    },
                                );
                            },
                            Some(v) => {
                                acc = Some(v);
                            },
                        }
                    }
                },
            }
        }
        if j >= n {
            return Ok(acc);
        }
        i = j + 2;
    }
}

/// Decode one frame from the front of `src`. `Ok(None)` means more bytes
/// are needed; `Ok(Some((body, used)))` is the body and the number of bytes
/// of `src` the whole frame takes.
pub fn decode_frame(src: &[u8]) -> (r: Result<Option<(Vec<u8>, usize)>, FrameError>)
    ensures
        decode_view(r) == spec_decode(src@),
{
    let term: Vec<u8> = vec![13u8, 10u8, 13u8, 10u8];
    proof {
        assert(term@ =~= header_terminator());
    }
    let he = match find_subslice(src, term.as_slice()) {
        None => {
            return Ok(None);
        },
        Some(he) => he,
    };
    proof {
        lemma_find_from(src@, header_terminator(), 0);
    }
    let header = &src[0..he];
    let hs = match str_from_utf8(header) {
        None => {
            return Err(FrameError { kind: FrameErrorKind::NonUtf8Header, detail: String::new() });
        },
        Some(hs) => hs,
    };
    let h = collect_chars(hs);
    let body_len = match scan_header(&h) {
        Err(e) => {
            return Err(e);
        },
        Ok(None) => {
            return Err(
                FrameError { kind: FrameErrorKind::MissingContentLength, detail: String::new() },
            );
        },
        Ok(Some(n)) => n,
    };
    let len = src.len();
    if body_len > len - he - 4 {
        return Ok(None);
    }
    let total = he + 4 + body_len;
    let mut body: Vec<u8> = Vec::new();
    let mut k = he + 4;
    while k < total
        invariant
            total <= src@.len(),
            he + 4 <= k <= total,
            body@ == src@.subrange(he + 4, k as int),
        decreases total - k,
    {
        body.push(src[k]);
        k = k + 1;
        proof {
            assert(body@ =~= src@.subrange(he + 4, k as int));
        }
    }
    Ok(Some((body, total)))
}

/// The ASCII bytes of `Content-Length: `.
pub open spec fn content_length_prefix() -> Seq<u8> {
    seq![
        67u8, 111u8, 110u8, 116u8, 101u8, 110u8, 116u8, 45u8, 76u8, 101u8, 110u8, 103u8, 116u8,
        104u8, 58u8, 32u8,
    ]
}

/// Decimal digits of `n` as ASCII bytes (what `format!("{}", n)` prints).
pub open spec fn decimal_bytes(n: nat) -> Seq<u8>
    decreases n,
{
    if n < 10 {
        seq![(48 + n) as u8]
    } else {
        decimal_bytes(n / 10).push((48 + n % 10) as u8)
    }
}

/// A frame holding `body`: `Content-Length: <len>\r\n\r\n<body>`.
pub open spec fn spec_encode(body: Seq<u8>) -> Seq<u8> {
    content_length_prefix() + decimal_bytes(body.len()) + header_terminator() + body
}

/// Append the decimal digits of `n`.
fn push_decimal(out: &mut Vec<u8>, n: usize)
    ensures
        final(out)@ == old(out)@ + decimal_bytes(n as nat),
    decreases n,
{
    if n >= 10 {
        push_decimal(out, n / 10);
    }
    out.push((48 + n % 10) as u8);
    proof {
        if n < 10 {
            assert(final(out)@ =~= old(out)@ + decimal_bytes(n as nat));
        }
    }
}

/// Frame `body`: the `Content-Length` header, a blank line, the body.
pub fn encode_frame(body: &[u8]) -> (out: Vec<u8>)
    ensures
        out@ == spec_encode(body@),
{
    let mut out: Vec<u8> = vec![
        67u8, 111u8, 110u8, 116u8, 101u8, 110u8, 116u8, 45u8, 76u8, 101u8, 110u8, 103u8, 116u8,
        104u8, 58u8, 32u8,
    ];
    proof {
        assert(out@ =~= content_length_prefix());
    }
    push_decimal(&mut out, body.len());
    out.push(13u8);
    out.push(10u8);
    out.push(13u8);
    out.push(10u8);
    let mut k: usize = 0;
    let ghost head = out@;
    proof {
        assert(head =~= content_length_prefix() + decimal_bytes(body@.len()) + header_terminator());
    }
    while k < body.len()
        invariant
            k <= body@.len(),
            out@ == head + body@.take(k as int),
        decreases body@.len() - k,
    {
        out.push(body[k]);
        k = k + 1;
        proof {
            assert(out@ =~= head + body@.take(k as int));
        }
    }
    proof {
        assert(body@.take(k as int) =~= body@);
    }
    out
}

/// Framing for a stream of LSP messages, as used by the transport: decode
/// pulls one body off the front of a byte buffer, encode appends one frame.
#[derive(Debug, Default)]
pub struct LspCodec;

impl LspCodec {
    /// Take the next body off the front of `src`, if a whole frame has
    /// arrived; on an error `src` is left as it was.
    pub fn decode(&mut self, src: &mut Vec<u8>) -> (r: Result<Option<Vec<u8>>, FrameError>)
        ensures
            match spec_decode(old(src)@) {
                Ok(Some((body, used))) => r matches Ok(Some(b)) && b@ == body && final(src)@
                    == old(src)@.subrange(used, old(src)@.len() as int),
                Ok(None) => r matches Ok(None) && final(src)@ == old(src)@,
                Err(e) => r matches Err(x) && x@ == e && final(src)@ == old(src)@,
            },
    {
        match decode_frame(src.as_slice()) {
            Ok(Some((body, used))) => {
                let mut rest: Vec<u8> = Vec::new();
                let mut k = used;
                while k < src.len()
                    invariant
                        used <= k <= src@.len(),
                        rest@ == src@.subrange(used as int, k as int),
                    decreases src@.len() - k,
                {
                    rest.push(src[k]);
                    k = k + 1;
                    proof {
                        assert(rest@ =~= src@.subrange(used as int, k as int));
                    }
                }
                *src = rest;
                Ok(Some(body))
            },
            Ok(None) => Ok(None),
            Err(e) => Err(e),
        }
    }

    /// Append the frame for `item` to `dst`.
    pub fn encode(&mut self, item: Vec<u8>, dst: &mut Vec<u8>)
        ensures
            final(dst)@ == old(dst)@ + spec_encode(item@),
    {
        let frame = encode_frame(item.as_slice());
        let mut k: usize = 0;
        let ghost start = dst@;
        while k < frame.len()
            invariant
                k <= frame@.len(),
                dst@ == start + frame@.take(k as int),
            decreases frame@.len() - k,
        {
            dst.push(frame[k]);
            k = k + 1;
            proof {
                assert(dst@ =~= start + frame@.take(k as int));
            }
        }
        proof {
            assert(frame@.take(k as int) =~= frame@);
        }
    }
}

/// Each byte read as the char with the same code: how ASCII text decodes.
pub open spec fn ascii_chars(bytes: Seq<u8>) -> Seq<char> {
    Seq::new(bytes.len(), |i: int| bytes[i] as char)
}

/// Bytes below 128 are valid UTF-8 and decode one char per byte.
proof fn lemma_ascii_utf8(bytes: Seq<u8>)
    requires
        forall|i: int| 0 <= i < bytes.len() ==> bytes[i] < 128,
    ensures
        valid_utf8(bytes),
        decode_utf8(bytes) == ascii_chars(bytes),
    decreases bytes.len(),
{
    if bytes.len() > 0 {
        let b = bytes[0];
        assert(b < 128);
        assert((b & 0x7f) as u32 == b as u32) by (bit_vector)
            requires
                b < 128,
        ;
        let rest = bytes.subrange(1, bytes.len() as int);
        assert(pop_first_scalar(bytes) =~= rest);
        lemma_ascii_utf8(rest);
        assert(decode_utf8(bytes) =~= ascii_chars(bytes));
    }
}

/// The digits of `n` are ASCII digits, at least one, and read back as `n`.
proof fn lemma_decimal_bytes(n: nat)
    ensures
        decimal_bytes(n).len() >= 1,
        forall|i: int| 0 <= i < decimal_bytes(n).len() ==> 48 <= #[trigger] decimal_bytes(n)[i] <= 57,
        decimal_value(ascii_chars(decimal_bytes(n))) == n,
    decreases n,
{
    if n < 10 {
        let c = ascii_chars(decimal_bytes(n));
        assert(c.drop_last() =~= Seq::<char>::empty());
        let b = (48 + n) as u8;
        assert(b == 48 + n);
        assert(c.last() == b as char);
        assert((b as char) as int == b as int);
        assert(('0' as int) == 48);
        assert(decimal_value(c.drop_last()) == 0);
    } else {
        lemma_decimal_bytes(n / 10);
        let d = decimal_bytes(n / 10);
        let c = ascii_chars(decimal_bytes(n));
        assert(c.drop_last() =~= ascii_chars(d));
        let b = (48 + n % 10) as u8;
        assert(c.last() == b as char);
        assert((b as char) as int == b as int);
        assert(('0' as int) == 48);
        assert((n / 10) * 10 + n % 10 == n);
    }
}

/// The search stops at the first place where the needle's first byte
/// occurs, when the needle is there.
proof fn lemma_find_from_first(hay: Seq<u8>, needle: Seq<u8>, i: int, j: int)
    requires
        0 <= i <= j,
        needle.len() > 0,
        j + needle.len() <= hay.len(),
        hay.subrange(j, j + needle.len()) == needle,
        forall|k: int| i <= k < j ==> hay[k] != needle[0],
    ensures
        find_from(hay, needle, i) == Some(j),
    decreases j - i,
{
    if i < j {
        assert(hay.subrange(i, i + needle.len())[0] == hay[i]);
        lemma_find_from_first(hay, needle, i + 1, j);
    }
}

/// Without the needle's first byte from `i` on, the search finds nothing.
proof fn lemma_find_from_none(hay: Seq<u8>, needle: Seq<u8>, i: int)
    requires
        0 <= i,
        needle.len() > 0,
        forall|k: int| i <= k && k + needle.len() <= hay.len() ==> hay[k] != needle[0],
    ensures
        find_from(hay, needle, i) is None,
    decreases hay.len() + 1 - i,
{
    if i + needle.len() <= hay.len() {
        assert(hay.subrange(i, i + needle.len())[0] == hay[i]);
        lemma_find_from_none(hay, needle, i + 1);
    }
}

/// A line without `\r` from `i` on has no line break there.
proof fn lemma_next_crlf_none(s: Seq<char>, i: int)
    requires
        0 <= i <= s.len(),
        forall|k: int| i <= k < s.len() ==> s[k] != '\r',
    ensures
        next_crlf(s, i) == s.len(),
    decreases s.len() - i,
{
    if i + 1 < s.len() {
        lemma_next_crlf_none(s, i + 1);
    }
}

/// The first `:` from `i` on is at `j`.
proof fn lemma_first_colon_at(line: Seq<char>, i: int, j: int)
    requires
        0 <= i <= j < line.len(),
        line[j] == ':',
        forall|k: int| i <= k < j ==> line[k] != ':',
    ensures
        first_colon(line, i) == Some(j),
    decreases j - i,
{
    if i < j {
        lemma_first_colon_at(line, i + 1, j);
    }
}

/// The header that `spec_encode` writes, before the blank line.
pub open spec fn encoded_header(n: nat) -> Seq<u8> {
    content_length_prefix() + decimal_bytes(n)
}

/// The header written for a body of `n` bytes is ASCII without `\r`, and
/// reading it back gives `n`.
proof fn lemma_encoded_header_scans(n: nat)
    requires
        n <= usize::MAX,
    ensures
        forall|k: int| 0 <= k < encoded_header(n).len() ==> #[trigger] encoded_header(n)[k] < 128
            && encoded_header(n)[k] != 13,
        valid_utf8(encoded_header(n)),
        scan_header_lines(split_crlf_from(decode_utf8(encoded_header(n)), 0), None) == Ok::<
            Option<int>,
            (FrameErrorKind, Seq<char>),
        >(Some(n as int)),
{
    let p = content_length_prefix();
    let d = decimal_bytes(n);
    let h = encoded_header(n);
    lemma_decimal_bytes(n);
    assert(p.len() == 16);
    assert forall|k: int| 0 <= k < 16 implies p[k] < 128 && p[k] != 13 && (k != 14 ==> p[k]
        != 58) by {}
    assert forall|k: int| 0 <= k < h.len() implies #[trigger] h[k] < 128 && h[k] != 13 && (k
        != 14 ==> h[k] != 58) by {
        if k >= 16 {
            assert(h[k] == d[k - 16]);
        }
    }
    lemma_ascii_utf8(h);
    let hc = ascii_chars(h);
    assert(decode_utf8(h) == hc);
    lemma_next_crlf_none(hc, 0);
    assert(split_crlf_from(hc, 0) =~= seq![hc]) by {
        assert(hc.subrange(0, hc.len() as int) =~= hc);
    }
    lemma_first_colon_at(hc, 0, 14);
    let name = hc.subrange(0, 14);
    reveal_strlit("content-length");
    assert(is_content_length_name(name));
    let value = hc.subrange(15, hc.len() as int);
    let digits = ascii_chars(d);
    assert(value.len() == d.len() + 1);
    assert(char_is_whitespace(value[0]));
    assert(trim_start_from(value, 1) == 1) by {
        assert(value[1] == digits[0]);
    }
    assert(trim_end_from(value, value.len() as int, 1) == value.len()) by {
        assert(value[value.len() - 1] == digits[d.len() - 1]);
    }
    assert(spec_trim(value) =~= digits);
    assert(all_digits(digits));
    assert(spec_parse_usize(digits) == Some(n as int));
    let lines = seq![hc];
    assert(lines.drop_first() =~= Seq::<Seq<char>>::empty());
    assert(hc.len() > 0);
    assert(spec_parse_usize(spec_trim(value)) == Some(n as int));
    assert(scan_header_lines(lines.drop_first(), Some(n as int)) == Ok::<
        Option<int>,
        (FrameErrorKind, Seq<char>),
    >(Some(n as int)));
    assert(scan_header_lines(lines, None) == scan_header_lines(lines.drop_first(), Some(n as int)));
}

/// Where the header of `spec_encode(body)` ends, the blank line starting.
pub open spec fn encoded_header_end(body: Seq<u8>) -> int {
    encoded_header(body.len()).len() as int
}

/// Decoding a buffer that starts with a whole frame finds that frame's
/// header end and length.
proof fn lemma_decode_frame_start(body: Seq<u8>, hay: Seq<u8>)
    requires
        body.len() <= usize::MAX,
        hay.len() >= encoded_header_end(body) + 4,
        hay.subrange(0, encoded_header_end(body) + 4) == encoded_header(body.len())
            + header_terminator(),
    ensures
        spec_decode(hay) == (if hay.len() < spec_encode(body).len() {
            Ok(None)
        } else {
            Ok::<Option<(Seq<u8>, int)>, (FrameErrorKind, Seq<char>)>(
                Some((hay.subrange(encoded_header_end(body) + 4, spec_encode(body).len() as int),
                spec_encode(body).len() as int)),
            )
        }),
{
    let n = body.len();
    let h = encoded_header(n);
    let he = encoded_header_end(body);
    lemma_encoded_header_scans(n);
    let pre = hay.subrange(0, he + 4);
    assert forall|k: int| 0 <= k < he implies hay[k] != header_terminator()[0] by {
        assert(pre[k] == h[k]);
    }
    assert(hay.subrange(he, he + 4) =~= header_terminator()) by {
        assert forall|k: int| 0 <= k < 4 implies hay.subrange(he, he + 4)[k]
            == header_terminator()[k] by {
            assert(pre[he + k] == header_terminator()[k]);
        }
    }
    lemma_find_from_first(hay, header_terminator(), 0, he);
    assert(hay.subrange(0, he) =~= h) by {
        assert forall|k: int| 0 <= k < he implies hay.subrange(0, he)[k] == h[k] by {
            assert(pre[k] == h[k]);
        }
    }
    assert(spec_encode(body).len() == he + 4 + n);
}

/// Decoding the frame that `encode` writes gives the body back and uses
/// exactly the frame's bytes, whatever follows it in the buffer.
pub proof fn law_decode_encode_roundtrip(body: Seq<u8>, more: Seq<u8>)
    requires
        body.len() <= usize::MAX,
    ensures
        spec_decode(spec_encode(body) + more) == Ok::<
            Option<(Seq<u8>, int)>,
            (FrameErrorKind, Seq<char>),
        >(Some((body, spec_encode(body).len() as int))),
{
    let e = spec_encode(body);
    let hay = e + more;
    let he = encoded_header_end(body);
    assert(hay.subrange(0, he + 4) =~= encoded_header(body.len()) + header_terminator());
    lemma_decode_frame_start(body, hay);
    assert(hay.subrange(he + 4, e.len() as int) =~= body);
}

/// A buffer holding only part of a frame decodes to nothing yet.
pub proof fn law_partial_frame_waits(body: Seq<u8>, k: int)
    requires
        body.len() <= usize::MAX,
        0 <= k < spec_encode(body).len(),
    ensures
        spec_decode(spec_encode(body).take(k)) == Ok::<
            Option<(Seq<u8>, int)>,
            (FrameErrorKind, Seq<char>),
        >(None),
{
    let e = spec_encode(body);
    let hay = e.take(k);
    let h = encoded_header(body.len());
    let he = encoded_header_end(body);
    lemma_encoded_header_scans(body.len());
    if k >= he + 4 {
        assert(hay.subrange(0, he + 4) =~= h + header_terminator());
        lemma_decode_frame_start(body, hay);
    } else {
        assert forall|j: int| 0 <= j && j + 4 <= hay.len() implies hay[j]
            != header_terminator()[0] by {
            assert(hay[j] == h[j]);
        }
        lemma_find_from_none(hay, header_terminator(), 0);
    }
}

} // verus!
