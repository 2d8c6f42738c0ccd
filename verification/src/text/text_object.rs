//! Vim-style text objects (`iw`, `aw`, `i(`, `a"`, …).
//!
//! A text object resolves to a half-open char range the surrounding operator
//! (delete / yank / change / visual) then acts on. The two flavors:
//!
//! * **inner** (`i<x>`) — just the contents.
//! * **around** (`a<x>`) — contents plus their delimiters. Word objects also
//!   include the adjacent whitespace.
//!
//! Resolution is pure: [`text_object_range`] consults the rope at a char
//! index and returns `Option<(start, end, RegisterKind)>`.

use vstd::prelude::*;

use ropey::Rope;

use crate::registers::RegisterKind;
use crate::strs::str_eq;
use crate::text::chars::{char_class, char_is_whitespace, is_whitespace, spec_char_class, CharClass};
use crate::text::motions::{
    cls, count_in, find_backward, find_forward, lemma_backward_balance, lemma_count_in_split,
    lemma_forward_balance, match_backward_from, match_forward_from,
};
use crate::text::rope::{
    char_at, char_to_line, len_chars, len_lines, line_to_char, rope_chars, rope_line_of,
    rope_line_start,
};

verus! {

/// The set of text objects the editor knows how to resolve.
#[derive(Debug, Clone, Copy, PartialEq, Eq, Hash, Structural)]
pub enum TextObject {
    /// Vim `iw` / `aw` — a word (alphanumeric + `_`) or a punctuation run.
    Word,
    /// Vim `iW` / `aW` — a "big word" (any non-whitespace run).
    BigWord,
    /// Vim `i(` / `a(` / `ib` / `ab` — parenthesized block.
    Paren,
    /// Vim `i[` / `a[` — bracketed block.
    Bracket,
    /// Vim `i{` / `a{` / `iB` / `aB` — braced block.
    Brace,
    /// Vim `i<` / `a<` — angle-bracketed block.
    Angle,
    /// Vim `i"` / `a"` — double-quoted text on the current line.
    DoubleQuote,
    /// Vim `i'` / `a'` — single-quoted text on the current line.
    SingleQuote,
    /// Vim `` i` `` / `` a` `` — backtick-quoted text on the current line.
    Backtick,
}

/// The text object a name stands for, as [`TextObject::parse`] reads it.
pub open spec fn spec_text_object_named(s: Seq<char>) -> Option<TextObject> {
    if s == "word"@ {
        Some(TextObject::Word)
    } else if s == "big-word"@ {
        Some(TextObject::BigWord)
    } else if s == "paren"@ || s == "parens"@ || s == "("@ || s == ")"@ || s == "b"@ {
        Some(TextObject::Paren)
    } else if s == "bracket"@ || s == "brackets"@ || s == "["@ || s == "]"@ {
        Some(TextObject::Bracket)
    } else if s == "brace"@ || s == "braces"@ || s == "{"@ || s == "}"@ || s == "B"@ {
        Some(TextObject::Brace)
    } else if s == "angle"@ || s == "angles"@ || s == "<"@ || s == ">"@ {
        Some(TextObject::Angle)
    } else if s == "double-quote"@ || s == "dquote"@ || s == "\""@ {
        Some(TextObject::DoubleQuote)
    } else if s == "single-quote"@ || s == "squote"@ || s == "'"@ {
        Some(TextObject::SingleQuote)
    } else if s == "backtick"@ || s == "btick"@ || s == "`"@ {
        Some(TextObject::Backtick)
    } else {
        None
    }
}

impl TextObject {
    /// Parse the name the lisp `(delete-inner ...)` / `(yank-around ...)`
    /// builtins accept.
    pub fn parse(s: &str) -> (r: Result<TextObject, &'static str>)
        ensures
            match r {
                Ok(o) => spec_text_object_named(s@) == Some(o),
                Err(e) => spec_text_object_named(s@) is None && e@ == "unknown TextObject"@,
            },
    {
        if str_eq(s, "word") {
            Ok(TextObject::Word)
        } else if str_eq(s, "big-word") {
            Ok(TextObject::BigWord)
        } else if str_eq(s, "paren") || str_eq(s, "parens") || str_eq(s, "(") || str_eq(s, ")")
            || str_eq(s, "b") {
            Ok(TextObject::Paren)
        } else if str_eq(s, "bracket") || str_eq(s, "brackets") || str_eq(s, "[") || str_eq(
            s,
            "]",
        ) {
            Ok(TextObject::Bracket)
        } else if str_eq(s, "brace") || str_eq(s, "braces") || str_eq(s, "{") || str_eq(s, "}")
            || str_eq(s, "B") {
            Ok(TextObject::Brace)
        } else if str_eq(s, "angle") || str_eq(s, "angles") || str_eq(s, "<") || str_eq(s, ">") {
            Ok(TextObject::Angle)
        } else if str_eq(s, "double-quote") || str_eq(s, "dquote") || str_eq(s, "\"") {
            Ok(TextObject::DoubleQuote)
        } else if str_eq(s, "single-quote") || str_eq(s, "squote") || str_eq(s, "'") {
            Ok(TextObject::SingleQuote)
        } else if str_eq(s, "backtick") || str_eq(s, "btick") || str_eq(s, "`") {
            Ok(TextObject::Backtick)
        } else {
            Err("unknown TextObject")
        }
    }
}

impl std::str::FromStr for TextObject {
    type Err = &'static str;

    fn from_str(s: &str) -> (r: Result<Self, Self::Err>)
        ensures
            match r {
                Ok(o) => spec_text_object_named(s@) == Some(o),
                Err(e) => spec_text_object_named(s@) is None && e@ == "unknown TextObject"@,
            },
    {
        TextObject::parse(s)
    }
}

/// Walking left from `i`, the start of the run of class `k` that does not
/// cross a line feed.
pub open spec fn span_start(s: Seq<char>, i: int, k: CharClass, big: bool) -> int
    decreases i,
{
    if 0 < i <= s.len() && s[i - 1] != '\n' && cls(s, i - 1, big) == k {
        span_start(s, i - 1, k, big)
    } else {
        i
    }
}

/// Walking right from `e`, the end (exclusive) of the run of class `k` that
/// does not cross a line feed.
pub open spec fn span_end(s: Seq<char>, e: int, k: CharClass, big: bool) -> int
    decreases s.len() - e,
{
    if 0 <= e < s.len() && s[e] != '\n' && cls(s, e, big) == k {
        span_end(s, e + 1, k, big)
    } else {
        e
    }
}

/// Walking right from `j`, the end of the whitespace run that stays on the
/// line.
pub open spec fn ws_trail_end(s: Seq<char>, j: int, limit: int) -> int
    decreases limit - j,
{
    if 0 <= j < limit && j < s.len() && s[j] != '\n' && char_is_whitespace(s[j]) {
        ws_trail_end(s, j + 1, limit)
    } else {
        j
    }
}

/// Walking left from `j` but not below `floor`, the start of the whitespace
/// run that stays on the line.
pub open spec fn ws_lead_start(s: Seq<char>, j: int, floor: int) -> int
    decreases j,
{
    if floor < j <= s.len() && j > 0 && char_is_whitespace(s[j - 1]) && s[j - 1] != '\n' {
        ws_lead_start(s, j - 1, floor)
    } else {
        j
    }
}

/// `iw` / `aw` (or `iW` / `aW`) at `cidx`. Inner: the same-class run at the
/// cursor (clamped to the last char), not crossing a line feed. Around a
/// whitespace run: the run plus the word run after it. Around a word or
/// punctuation run: the run plus the whitespace after it on the line, or,
/// when there is none, the whitespace before it on the line.
pub open spec fn spec_word_range(s: Seq<char>, cidx: int, around: bool, big: bool) -> Option<
    (int, int),
> {
    if s.len() == 0 {
        None
    } else {
        let i = if cidx < s.len() {
            cidx
        } else {
            s.len() - 1
        };
        let k = cls(s, i, big);
        let start = span_start(s, i, k, big);
        let end = span_end(s, i + 1, k, big);
        if !around {
            Some((start, end))
        } else if k == CharClass::Ws {
            if end < s.len() && cls(s, end, big) != CharClass::Ws {
                Some((start, span_end(s, end + 1, cls(s, end, big), big)))
            } else {
                Some((start, end))
            }
        } else {
            let t = ws_trail_end(s, end, s.len() as int);
            if t > end {
                Some((start, t))
            } else {
                Some((ws_lead_start(s, start, 0), end))
            }
        }
    }
}

proof fn lemma_span_start(s: Seq<char>, i: int, k: CharClass, big: bool)
    requires
        0 <= i <= s.len(),
    ensures
        0 <= span_start(s, i, k, big) <= i,
    decreases i,
{
    if 0 < i <= s.len() && s[i - 1] != '\n' && cls(s, i - 1, big) == k {
        lemma_span_start(s, i - 1, k, big);
    }
}

proof fn lemma_span_end(s: Seq<char>, e: int, k: CharClass, big: bool)
    requires
        0 <= e <= s.len(),
    ensures
        e <= span_end(s, e, k, big) <= s.len(),
    decreases s.len() - e,
{
    if 0 <= e < s.len() && s[e] != '\n' && cls(s, e, big) == k {
        lemma_span_end(s, e + 1, k, big);
    }
}

proof fn lemma_ws_trail_end(s: Seq<char>, j: int, limit: int)
    requires
        0 <= j <= limit <= s.len(),
    ensures
        j <= ws_trail_end(s, j, limit) <= limit,
    decreases limit - j,
{
    if 0 <= j < limit && j < s.len() && s[j] != '\n' && char_is_whitespace(s[j]) {
        lemma_ws_trail_end(s, j + 1, limit);
    }
}

proof fn lemma_ws_lead_start(s: Seq<char>, j: int, floor: int)
    requires
        0 <= floor <= j <= s.len(),
    ensures
        floor <= ws_lead_start(s, j, floor) <= j,
    decreases j,
{
    if floor < j <= s.len() && j > 0 && char_is_whitespace(s[j - 1]) && s[j - 1] != '\n' {
        lemma_ws_lead_start(s, j - 1, floor);
    }
}

/// Walk left and right from `i` while the char class matches, returning the
/// half-open `[start, end)` span. Newlines belong to the whitespace class
/// but also terminate a run.
fn same_class_span(rope: &Rope, i: usize, class: CharClass, big: bool) -> (r: (usize, usize))
    requires
        i < rope_chars(*rope).len(),
    ensures
        r.0 == span_start(rope_chars(*rope), i as int, class, big),
        r.1 == span_end(rope_chars(*rope), i + 1, class, big),
        r.0 <= i < r.1 <= rope_chars(*rope).len(),
{
    let ghost s = rope_chars(*rope);
    let len = len_chars(rope);
    let mut st = i;
    while st > 0 && char_at(rope, st - 1) != '\n' && char_class(char_at(rope, st - 1), big)
        == class
        invariant
            s == rope_chars(*rope),
            len == s.len(),
            st <= i < len,
            span_start(s, st as int, class, big) == span_start(s, i as int, class, big),
        decreases st,
    {
        st = st - 1;
    }
    let mut e = i + 1;
    while e < len && char_at(rope, e) != '\n' && char_class(char_at(rope, e), big) == class
        invariant
            s == rope_chars(*rope),
            len == s.len(),
            i < e <= len,
            span_end(s, e as int, class, big) == span_end(s, i + 1, class, big),
        decreases len - e,
    {
        e = e + 1;
    }
    (st, e)
}

/// Resolve `iw` / `aw` (or `iW` / `aW`).
fn word_range(rope: &Rope, cidx: usize, around: bool, big: bool) -> (r: Option<(usize, usize)>)
    ensures
        spec_word_range(rope_chars(*rope), cidx as int, around, big) == (match r {
            Some(p) => Some((p.0 as int, p.1 as int)),
            None => None::<(int, int)>,
        }),
{
    let ghost s = rope_chars(*rope);
    let len = len_chars(rope);
    if len == 0 {
        return None;
    }
    let i = if cidx < len {
        cidx
    } else {
        len - 1
    };
    let class = char_class(char_at(rope, i), big);
    let (start, end) = same_class_span(rope, i, class, big);
    if !around {
        return Some((start, end));
    }
    if class == CharClass::Ws {
        let mut j = end;
        if j < len {
            let next_class = char_class(char_at(rope, j), big);
            if next_class != CharClass::Ws {
                let (_, e) = same_class_span(rope, j, next_class, big);
                j = e;
            }
        }
        return Some((start, j));
    }
    let mut j = end;
    let mut extended_trailing = false;
    while j < len && char_at(rope, j) != '\n' && is_whitespace(char_at(rope, j))
        invariant
            s == rope_chars(*rope),
            len == s.len(),
            end <= j <= len,
            extended_trailing == (j > end),
            ws_trail_end(s, j as int, len as int) == ws_trail_end(s, end as int, len as int),
        decreases len - j,
    {
        j = j + 1;
        extended_trailing = true;
    }
    if extended_trailing {
        return Some((start, j));
    }
    let mut st = start;
    while st > 0 && is_whitespace(char_at(rope, st - 1)) && char_at(rope, st - 1) != '\n'
        invariant
            s == rope_chars(*rope),
            len == s.len(),
            st <= start < len,
            ws_lead_start(s, st as int, 0) == ws_lead_start(s, start as int, 0),
        decreases st,
    {
        st = st - 1;
    }
    Some((st, end))
}

/// Walking left from `i` with `depth` pairs closed so far, the first `open`
/// that is not closed before the starting point.
pub open spec fn unmatched_from(s: Seq<char>, i: int, open: char, close: char, depth: int) -> Option<
    int,
>
    decreases i + 1,
{
    if i < 0 || i >= s.len() {
        None
    } else if s[i] == close {
        unmatched_from(s, i - 1, open, close, depth + 1)
    } else if s[i] == open {
        if depth == 0 {
            Some(i)
        } else {
            unmatched_from(s, i - 1, open, close, depth - 1)
        }
    } else {
        unmatched_from(s, i - 1, open, close, depth)
    }
}

/// The innermost `(open, close)` pair that encloses `cidx`; when `cidx`
/// itself sits on `open`/`close`, that bracket is one endpoint.
pub open spec fn spec_enclosing_pair(s: Seq<char>, cidx: int, open: char, close: char) -> Option<
    (int, int),
> {
    if cidx < 0 || cidx >= s.len() {
        None
    } else if s[cidx] == open {
        match match_forward_from(s, cidx + 1, open, close, 1) {
            Some(c) => Some((cidx, c)),
            None => None,
        }
    } else if s[cidx] == close {
        match match_backward_from(s, cidx - 1, close, open, 1) {
            Some(o) => Some((o, cidx)),
            None => None,
        }
    } else {
        match unmatched_from(s, cidx - 1, open, close, 0) {
            None => None,
            Some(o) => match match_forward_from(s, o + 1, open, close, 1) {
                Some(c) => Some((o, c)),
                None => None,
            },
        }
    }
}

/// The pair `n` levels out from `cursor` (one level when `n` is 1); the
/// expansion stops early at a pair that opens at the first char.
pub open spec fn spec_pair_levels(s: Seq<char>, cursor: int, open: char, close: char, n: int) -> Option<
    (int, int),
>
    decreases n,
{
    match spec_enclosing_pair(s, cursor, open, close) {
        None => None,
        Some((o, c)) => if n <= 1 || o == 0 {
            Some((o, c))
        } else {
            spec_pair_levels(s, o - 1, open, close, n - 1)
        },
    }
}

/// `i<pair>` / `a<pair>`: the enclosing pair `count` levels out from the
/// cursor (clamped to the last char); inner excludes the brackets, around
/// includes them.
pub open spec fn spec_pair_range(
    s: Seq<char>,
    cidx: int,
    around: bool,
    count: int,
    open: char,
    close: char,
) -> Option<(int, int)> {
    if s.len() == 0 {
        None
    } else {
        let cursor = if cidx < s.len() {
            cidx
        } else {
            s.len() - 1
        };
        match spec_pair_levels(s, cursor, open, close, count) {
            None => None,
            Some((o, c)) => if around {
                Some((o, c + 1))
            } else {
                Some((o + 1, c))
            },
        }
    }
}

proof fn lemma_match_forward_from(s: Seq<char>, i: int, open: char, mate: char, depth: int)
    ensures
        match_forward_from(s, i, open, mate, depth) matches Some(j) ==> i <= j < s.len(),
    decreases s.len() - i,
{
    if 0 <= i < s.len() {
        if s[i] == open {
            lemma_match_forward_from(s, i + 1, open, mate, depth + 1);
        } else if s[i] == mate {
            lemma_match_forward_from(s, i + 1, open, mate, depth - 1);
        } else {
            lemma_match_forward_from(s, i + 1, open, mate, depth);
        }
    }
}

proof fn lemma_match_backward_from(s: Seq<char>, i: int, open: char, mate: char, depth: int)
    ensures
        match_backward_from(s, i, open, mate, depth) matches Some(j) ==> 0 <= j <= i,
    decreases i + 1,
{
    if 0 <= i < s.len() {
        if s[i] == open {
            lemma_match_backward_from(s, i - 1, open, mate, depth + 1);
        } else if s[i] == mate {
            lemma_match_backward_from(s, i - 1, open, mate, depth - 1);
        } else {
            lemma_match_backward_from(s, i - 1, open, mate, depth);
        }
    }
}

proof fn lemma_unmatched_from(s: Seq<char>, i: int, open: char, close: char, depth: int)
    ensures
        unmatched_from(s, i, open, close, depth) matches Some(j) ==> 0 <= j <= i && j < s.len(),
    decreases i + 1,
{
    if 0 <= i < s.len() {
        if s[i] == close {
            lemma_unmatched_from(s, i - 1, open, close, depth + 1);
        } else if s[i] == open {
            lemma_unmatched_from(s, i - 1, open, close, depth - 1);
        } else {
            lemma_unmatched_from(s, i - 1, open, close, depth);
        }
    }
}

/// Walk left from `cidx` looking for an `open` whose matching `close` has
/// not yet been seen — the opener of the enclosing pair.
fn unmatched_opener(rope: &Rope, cidx: usize, open: char, close: char) -> (r: Option<usize>)
    requires
        cidx <= rope_chars(*rope).len(),
    ensures
        unmatched_from(rope_chars(*rope), cidx - 1, open, close, 0) == (match r {
            Some(j) => Some(j as int),
            None => None::<int>,
        }),
{
    let ghost s = rope_chars(*rope);
    if cidx == 0 {
        return None;
    }
    let mut depth: usize = 0;
    let mut i = cidx;
    while i > 0
        invariant
            s == rope_chars(*rope),
            i <= cidx <= s.len(),
            depth <= cidx - i,
            unmatched_from(s, i - 1, open, close, depth as int) == unmatched_from(
                s,
                cidx - 1,
                open,
                close,
                0,
            ),
        decreases i,
    {
        i = i - 1;
        let c = char_at(rope, i);
        if c == close {
            depth = depth + 1;
        } else if c == open {
            if depth == 0 {
                return Some(i);
            }
            depth = depth - 1;
        }
    }
    None
}

/// Find the innermost `(open, close)` pair that encloses `cidx`.
fn enclosing_pair(rope: &Rope, cidx: usize, open: char, close: char) -> (r: Option<
    (usize, usize),
>)
    ensures
        spec_enclosing_pair(rope_chars(*rope), cidx as int, open, close) == (match r {
            Some(p) => Some((p.0 as int, p.1 as int)),
            None => None::<(int, int)>,
        }),
{
    let ghost s = rope_chars(*rope);
    let len = len_chars(rope);
    if cidx >= len {
        return None;
    }
    let here = char_at(rope, cidx);
    if here == open {
        return match find_forward(rope, cidx + 1, open, close) {
            Some(c) => Some((cidx, c)),
            None => None,
        };
    } else if here == close {
        return match find_backward(rope, cidx, close, open) {
            Some(o) => Some((o, cidx)),
            None => None,
        };
    }
    let o = match unmatched_opener(rope, cidx, open, close) {
        Some(o) => o,
        None => {
            return None;
        },
    };
    proof {
        lemma_unmatched_from(s, cidx - 1, open, close, 0);
    }
    match find_forward(rope, o + 1, open, close) {
        Some(c) => Some((o, c)),
        None => None,
    }
}

/// Resolve `i<pair>` / `a<pair>`. `count` expands outward by treating the
/// just-found opener as the cursor and repeating.
fn pair_range(rope: &Rope, cidx: usize, around: bool, count: usize, open: char, close: char) -> (r:
    Option<(usize, usize)>)
    requires
        count >= 1,
    ensures
        spec_pair_range(rope_chars(*rope), cidx as int, around, count as int, open, close) == (
        match r {
            Some(p) => Some((p.0 as int, p.1 as int)),
            None => None::<(int, int)>,
        }),
{
    let ghost s = rope_chars(*rope);
    let len = len_chars(rope);
    if len == 0 {
        return None;
    }
    let mut cursor = if cidx < len {
        cidx
    } else {
        len - 1
    };
    let ghost cursor0 = cursor;
    let mut n = count;
    loop
        invariant
            s == rope_chars(*rope),
            len == s.len(),
            len > 0,
            cursor0 == (if cidx < len {
                cidx
            } else {
                (len - 1) as usize
            }),
            n >= 1,
            spec_pair_levels(s, cursor as int, open, close, n as int) == spec_pair_levels(
                s,
                cursor0 as int,
                open,
                close,
                count as int,
            ),
        decreases n,
    {
        let (o, c) = match enclosing_pair(rope, cursor, open, close) {
            Some(p) => p,
            None => {
                return None;
            },
        };
        proof {
            lemma_match_forward_from(s, cursor + 1, open, close, 1);
            lemma_match_backward_from(s, cursor - 1, close, open, 1);
            lemma_unmatched_from(s, cursor - 1, open, close, 0);
            if let Some(o2) = unmatched_from(s, cursor - 1, open, close, 0) {
                lemma_match_forward_from(s, o2 + 1, open, close, 1);
            }
        }
        if n <= 1 || o == 0 {
            return if around {
                Some((o, c + 1))
            } else {
                Some((o + 1, c))
            };
        }
        cursor = o - 1;
        n = n - 1;
    }
}

/// Positions (absolute char indexes) of the `q` quotes on the line that
/// starts at `ls` and has `ll` chars before its line feed, from line offset
/// `i` on; a backslash escapes the char after it.
pub open spec fn quote_positions(s: Seq<char>, ls: int, ll: int, i: int, q: char) -> Seq<int>
    decreases ll - i + 1,
{
    if i < 0 || i >= ll {
        Seq::<int>::empty()
    } else if s[ls + i] == '\\' {
        quote_positions(s, ls, ll, i + 2, q)
    } else if s[ls + i] == q {
        seq![ls + i] + quote_positions(s, ls, ll, i + 1, q)
    } else {
        quote_positions(s, ls, ll, i + 1, q)
    }
}

/// Pairing the quotes `(qs[0], qs[1]), (qs[2], qs[3]), …` from pair index
/// `k`, the pair that contains `cidx` or, if `cidx` is in a gap, the next
/// pair to its right.
pub open spec fn choose_quote_pair(qs: Seq<int>, cidx: int, k: int) -> Option<(int, int)>
    decreases qs.len() - k,
{
    if 0 <= k && k + 1 < qs.len() {
        let o = qs[k];
        let c = qs[k + 1];
        if (cidx >= o && cidx <= c) || cidx < o {
            Some((o, c))
        } else {
            choose_quote_pair(qs, cidx, k + 2)
        }
    } else {
        None
    }
}

/// Chars on the line that starts at `ls` and ends (exclusive) at `next`,
/// not counting a final line feed.
pub open spec fn line_body_len(s: Seq<char>, ls: int, next: int) -> int {
    if next - ls > 0 && s[next - 1] == '\n' {
        next - ls - 1
    } else {
        next - ls
    }
}

/// `i"` / `a"` (or `'` / `` ` ``) on the line of `cidx` (clamped to the
/// last char): pick the quote pair that holds the cursor or follows it.
/// Inner is between the quotes; around includes them plus the whitespace
/// after the closing quote on the line, or, when there is none, the
/// whitespace before the opening quote on the line.
pub open spec fn spec_quote_range(s: Seq<char>, cidx: int, around: bool, q: char) -> Option<
    (int, int),
> {
    if s.len() == 0 {
        None
    } else {
        let ci = if cidx < s.len() {
            cidx
        } else {
            s.len() - 1
        };
        let row = rope_line_of(s, ci);
        let ls = rope_line_start(s, row);
        let ll = line_body_len(s, ls, rope_line_start(s, row + 1));
        match choose_quote_pair(quote_positions(s, ls, ll, 0, q), cidx, 0) {
            None => None,
            Some((o, c)) => if !around {
                Some((o + 1, c))
            } else {
                let t = ws_trail_end(s, c + 1, ls + ll);
                if t > c + 1 {
                    Some((o, t))
                } else {
                    Some((ws_lead_start(s, o, ls), c + 1))
                }
            },
        }
    }
}

proof fn lemma_quote_positions(s: Seq<char>, ls: int, ll: int, i: int, q: char)
    requires
        0 <= i,
        0 <= ls,
        ls + ll <= s.len(),
    ensures
        forall|k: int|
            0 <= k < quote_positions(s, ls, ll, i, q).len() ==> ls + i <= #[trigger] quote_positions(
                s,
                ls,
                ll,
                i,
                q,
            )[k] < ls + ll,
        forall|k: int, l: int|
            0 <= k < l < quote_positions(s, ls, ll, i, q).len() ==> #[trigger] quote_positions(
                s,
                ls,
                ll,
                i,
                q,
            )[k] < #[trigger] quote_positions(s, ls, ll, i, q)[l],
    decreases ll - i + 1,
{
    if i < ll {
        if s[ls + i] == '\\' {
            lemma_quote_positions(s, ls, ll, i + 2, q);
            assert(quote_positions(s, ls, ll, i, q) == quote_positions(s, ls, ll, i + 2, q));
        } else if s[ls + i] == q {
            lemma_quote_positions(s, ls, ll, i + 1, q);
            let rest = quote_positions(s, ls, ll, i + 1, q);
            let all = seq![ls + i] + rest;
            assert forall|k: int| 0 <= k < all.len() implies ls + i <= #[trigger] all[k] < ls
                + ll by {
                if k > 0 {
                    assert(all[k] == rest[k - 1]);
                }
            }
            assert forall|k: int, l: int| 0 <= k < l < all.len() implies #[trigger] all[k]
                < #[trigger] all[l] by {
                assert(all[l] == rest[l - 1]);
                if k > 0 {
                    assert(all[k] == rest[k - 1]);
                }
            }
            assert(quote_positions(s, ls, ll, i, q) == all);
        } else {
            lemma_quote_positions(s, ls, ll, i + 1, q);
            assert(quote_positions(s, ls, ll, i, q) == quote_positions(s, ls, ll, i + 1, q));
        }
    }
}

proof fn lemma_choose_quote_pair(qs: Seq<int>, cidx: int, k: int, lo: int, hi: int)
    requires
        0 <= k,
        forall|j: int| 0 <= j < qs.len() ==> lo <= #[trigger] qs[j] < hi,
    ensures
        choose_quote_pair(qs, cidx, k) matches Some((o, c)) ==> lo <= o < hi && lo <= c < hi,
    decreases qs.len() - k,
{
    if k + 1 < qs.len() {
        lemma_choose_quote_pair(qs, cidx, k + 2, lo, hi);
    }
}

/// Resolve `i"` / `a"` (or `'` / `` ` ``). Quote objects stay on the
/// current line: scan the line's quote positions, pair them sequentially,
/// and pick the pair whose range contains `cidx` — or, if `cidx` sits in a
/// between-pairs gap, the next pair to the right.
fn quote_range(rope: &Rope, cidx: usize, around: bool, q: char) -> (r: Option<(usize, usize)>)
    ensures
        spec_quote_range(rope_chars(*rope), cidx as int, around, q) == (match r {
            Some(p) => Some((p.0 as int, p.1 as int)),
            None => None::<(int, int)>,
        }),
{
    let ghost s = rope_chars(*rope);
    let len = len_chars(rope);
    if len == 0 {
        return None;
    }
    let ci = if cidx < len {
        cidx
    } else {
        len - 1
    };
    let row = char_to_line(rope, ci);
    let line_start = line_to_char(rope, row);
    let next = line_to_char(rope, row + 1);
    let mut line_len = next - line_start;
    if line_len > 0 && char_at(rope, line_start + line_len - 1) == '\n' {
        line_len = line_len - 1;
    }
    let ghost qs_all = quote_positions(s, line_start as int, line_len as int, 0, q);
    let mut quotes: Vec<usize> = Vec::new();
    let mut i: usize = 0;
    while i < line_len
        invariant
            s == rope_chars(*rope),
            len == s.len(),
            line_start + line_len <= s.len(),
            i <= line_len,
            quotes@.map_values(|x: usize| x as int) + quote_positions(
                s,
                line_start as int,
                line_len as int,
                i as int,
                q,
            ) == qs_all,
        decreases line_len - i,
    {
        let c = char_at(rope, line_start + i);
        let ghost pre = quotes@.map_values(|x: usize| x as int);
        if c == '\\' {
            proof {
                assert(quote_positions(s, line_start as int, line_len as int, i as int, q)
                    == quote_positions(s, line_start as int, line_len as int, i + 2, q));
                assert(quote_positions(s, line_start as int, line_len as int, line_len as int, q)
                    =~= Seq::<int>::empty());
                assert(i + 2 > line_len ==> quote_positions(
                    s,
                    line_start as int,
                    line_len as int,
                    i + 2,
                    q,
                ) =~= Seq::<int>::empty());
            }
            i = if line_len - i >= 2 {
                i + 2
            } else {
                line_len
            };
        } else {
            proof {
                if c != q {
                    assert(quote_positions(s, line_start as int, line_len as int, i as int, q)
                        == quote_positions(s, line_start as int, line_len as int, i + 1, q));
                }
            }
            if c == q {
                let ghost before = quotes@.map_values(|x: usize| x as int);
                quotes.push(line_start + i);
                proof {
                    assert(quotes@.map_values(|x: usize| x as int) =~= before.push(
                        line_start + i,
                    ));
                    assert(before.push(line_start + i) + quote_positions(
                        s,
                        line_start as int,
                        line_len as int,
                        i + 1,
                        q,
                    ) =~= before + (seq![line_start + i] + quote_positions(
                        s,
                        line_start as int,
                        line_len as int,
                        i + 1,
                        q,
                    )));
                }
            }
            i = i + 1;
        }
    }
    proof {
        assert(quotes@.map_values(|x: usize| x as int) =~= qs_all);
        lemma_quote_positions(s, line_start as int, line_len as int, 0, q);
    }
    if quotes.len() < 2 {
        return None;
    }
    let (o, c) = match pick_quote_pair(&quotes, cidx) {
        Some(p) => p,
        None => {
            return None;
        },
    };
    proof {
        lemma_choose_quote_pair(qs_all, cidx as int, 0, line_start as int, line_start + line_len);
    }
    if !around {
        return Some((o + 1, c));
    }
    let limit = line_start + line_len;
    let mut end = c + 1;
    let mut extended = false;
    while end < limit && is_whitespace(char_at(rope, end)) && char_at(rope, end) != '\n'
        invariant
            s == rope_chars(*rope),
            limit <= s.len(),
            c + 1 <= end <= limit,
            extended == (end > c + 1),
            ws_trail_end(s, end as int, limit as int) == ws_trail_end(s, c + 1, limit as int),
        decreases limit - end,
    {
        end = end + 1;
        extended = true;
    }
    if extended {
        return Some((o, end));
    }
    let mut start = o;
    while start > line_start && is_whitespace(char_at(rope, start - 1)) && char_at(rope, start - 1)
        != '\n'
        invariant
            s == rope_chars(*rope),
            line_start <= start <= o < s.len(),
            ws_lead_start(s, start as int, line_start as int) == ws_lead_start(
                s,
                o as int,
                line_start as int,
            ),
        decreases start,
    {
        start = start - 1;
    }
    Some((start, c + 1))
}

/// Pair the quotes sequentially and pick the one holding `cidx` or
/// following it.
fn pick_quote_pair(quotes: &Vec<usize>, cidx: usize) -> (r: Option<(usize, usize)>)
    ensures
        choose_quote_pair(quotes@.map_values(|x: usize| x as int), cidx as int, 0) == (match r {
            Some(p) => Some((p.0 as int, p.1 as int)),
            None => None::<(int, int)>,
        }),
{
    let ghost qs = quotes@.map_values(|x: usize| x as int);
    let mut k: usize = 0;
    while quotes.len() >= 2 && k <= quotes.len() - 2
        invariant
            qs == quotes@.map_values(|x: usize| x as int),
            choose_quote_pair(qs, cidx as int, k as int) == choose_quote_pair(qs, cidx as int, 0),
        decreases quotes.len() - k,
    {
        let o = quotes[k];
        let c = quotes[k + 1];
        if (cidx >= o && cidx <= c) || cidx < o {
            return Some((o, c));
        }
        k = k + 2;
    }
    None
}

/// The range `text_object_range` resolves `obj` to at `cidx`.
pub open spec fn spec_text_object_range(
    s: Seq<char>,
    cidx: int,
    obj: TextObject,
    around: bool,
    count: int,
) -> Option<(int, int)> {
    let n = if count < 1 {
        1
    } else {
        count
    };
    match obj {
        TextObject::Word => spec_word_range(s, cidx, around, false),
        TextObject::BigWord => spec_word_range(s, cidx, around, true),
        TextObject::Paren => spec_pair_range(s, cidx, around, n, '(', ')'),
        TextObject::Bracket => spec_pair_range(s, cidx, around, n, '[', ']'),
        TextObject::Brace => spec_pair_range(s, cidx, around, n, '{', '}'),
        TextObject::Angle => spec_pair_range(s, cidx, around, n, '<', '>'),
        TextObject::DoubleQuote => spec_quote_range(s, cidx, around, '"'),
        TextObject::SingleQuote => spec_quote_range(s, cidx, around, '\''),
        TextObject::Backtick => spec_quote_range(s, cidx, around, '`'),
    }
}

/// Resolve a text object at char index `cidx` to a half-open char range.
/// Returns `None` when no enclosing/at-cursor match exists (e.g. `i(` on a
/// line with no parens). Always charwise.
///
/// `count` is honored by the pair-style objects (expand outward N levels,
/// 0 counting as 1) and is ignored by word/quote objects.
pub fn text_object_range(rope: &Rope, cidx: usize, obj: TextObject, around: bool, count: u32) -> (r:
    Option<(usize, usize, RegisterKind)>)
    ensures
        spec_text_object_range(rope_chars(*rope), cidx as int, obj, around, count as int) == (
        match r {
            Some(t) => Some((t.0 as int, t.1 as int)),
            None => None::<(int, int)>,
        }),
        r matches Some(t) ==> t.2 == RegisterKind::Char,
{
    let count: usize = if count < 1 {
        1
    } else {
        count as usize
    };
    let range = match obj {
        TextObject::Word => word_range(rope, cidx, around, false),
        TextObject::BigWord => word_range(rope, cidx, around, true),
        TextObject::Paren => pair_range(rope, cidx, around, count, '(', ')'),
        TextObject::Bracket => pair_range(rope, cidx, around, count, '[', ']'),
        TextObject::Brace => pair_range(rope, cidx, around, count, '{', '}'),
        TextObject::Angle => pair_range(rope, cidx, around, count, '<', '>'),
        TextObject::DoubleQuote => quote_range(rope, cidx, around, '"'),
        TextObject::SingleQuote => quote_range(rope, cidx, around, '\''),
        TextObject::Backtick => quote_range(rope, cidx, around, '`'),
    };
    match range {
        Some((s, e)) => Some((s, e, RegisterKind::Char)),
        None => None,
    }
}


proof fn lemma_span_end_all(s: Seq<char>, e: int, k: CharClass, big: bool)
    requires
        0 <= e <= s.len(),
    ensures
        e <= span_end(s, e, k, big) <= s.len(),
        forall|j: int|
            e <= j < span_end(s, e, k, big) ==> s[j] != '\n' && #[trigger] cls(s, j, big) == k,
        span_end(s, e, k, big) == s.len() || s[span_end(s, e, k, big)] == '\n' || cls(
            s,
            span_end(s, e, k, big),
            big,
        ) != k,
    decreases s.len() - e,
{
    if 0 <= e < s.len() && s[e] != '\n' && cls(s, e, big) == k {
        lemma_span_end_all(s, e + 1, k, big);
    }
}

proof fn lemma_span_start_all(s: Seq<char>, i: int, k: CharClass, big: bool)
    requires
        0 <= i <= s.len(),
    ensures
        0 <= span_start(s, i, k, big) <= i,
        forall|j: int|
            span_start(s, i, k, big) <= j < i ==> s[j] != '\n' && #[trigger] cls(s, j, big) == k,
        span_start(s, i, k, big) == 0 || s[span_start(s, i, k, big) - 1] == '\n' || cls(
            s,
            span_start(s, i, k, big) - 1,
            big,
        ) != k,
    decreases i,
{
    if 0 < i <= s.len() && s[i - 1] != '\n' && cls(s, i - 1, big) == k {
        lemma_span_start_all(s, i - 1, k, big);
    }
}

proof fn lemma_ws_trail_end_all(s: Seq<char>, j: int)
    requires
        0 <= j <= s.len(),
    ensures
        j <= ws_trail_end(s, j, s.len() as int) <= s.len(),
        forall|m: int|
            j <= m < ws_trail_end(s, j, s.len() as int) ==> #[trigger] s[m] != '\n'
                && char_is_whitespace(s[m]),
        ws_trail_end(s, j, s.len() as int) == s.len() || s[ws_trail_end(s, j, s.len() as int)]
            == '\n' || !char_is_whitespace(s[ws_trail_end(s, j, s.len() as int)]),
    decreases s.len() - j,
{
    if j < s.len() && s[j] != '\n' && char_is_whitespace(s[j]) {
        lemma_ws_trail_end_all(s, j + 1);
    }
}

proof fn lemma_ws_lead_start_all(s: Seq<char>, j: int)
    requires
        0 <= j <= s.len(),
    ensures
        0 <= ws_lead_start(s, j, 0) <= j,
        forall|m: int|
            ws_lead_start(s, j, 0) <= m < j ==> #[trigger] s[m] != '\n' && char_is_whitespace(s[m]),
        ws_lead_start(s, j, 0) == 0 || s[ws_lead_start(s, j, 0) - 1] == '\n' || !char_is_whitespace(
            s[ws_lead_start(s, j, 0) - 1],
        ),
    decreases j,
{
    if 0 < j && char_is_whitespace(s[j - 1]) && s[j - 1] != '\n' {
        lemma_ws_lead_start_all(s, j - 1);
    }
}

/// The word object for `big` (`iw`/`aw`, or `iW`/`aW`).
pub open spec fn word_object(big: bool) -> TextObject {
    if big {
        TextObject::BigWord
    } else {
        TextObject::Word
    }
}

/// `iw` / `iW`: the run of chars of the cursor char's class (whitespace,
/// word or punctuation; any non-whitespace for `iW`) around the cursor,
/// stopping at line feeds; the cursor past the end counts as on the last
/// char.
pub proof fn law_inner_word_is_the_run_at_the_cursor(s: Seq<char>, cidx: int, big: bool, count: int)
    requires
        s.len() > 0,
        0 <= cidx,
    ensures
        ({
            let i = if cidx < s.len() {
                cidx
            } else {
                s.len() - 1
            };
            let k = spec_char_class(s[i], big);
            match spec_text_object_range(s, cidx, word_object(big), false, count) {
                Some((a, b)) => {
                    &&& 0 <= a <= i < b <= s.len()
                    &&& forall|j: int|
                        a <= j < b && j != i ==> s[j] != '\n' && spec_char_class(#[trigger] s[j], big)
                            == k
                    &&& a == 0 || s[a - 1] == '\n' || spec_char_class(s[a - 1], big) != k
                    &&& b == s.len() || s[b] == '\n' || spec_char_class(s[b], big) != k
                },
                None => false,
            }
        }),
{
    let i = if cidx < s.len() {
        cidx
    } else {
        s.len() - 1
    };
    let k = cls(s, i, big);
    lemma_span_start_all(s, i, k, big);
    lemma_span_end_all(s, i + 1, k, big);
    let a = span_start(s, i, k, big);
    let b = span_end(s, i + 1, k, big);
    assert forall|j: int| a <= j < b && j != i implies s[j] != '\n' && spec_char_class(
        #[trigger] s[j],
        big,
    ) == k by {
        assert(cls(s, j, big) == k);
    }
}

/// `aw` / `aW` with the cursor on whitespace: the whitespace run around the
/// cursor (on its line) and, when a word or punctuation char follows it,
/// that char's whole run too; the range then ends strictly after the
/// whitespace, where `iw` would have ended.
pub proof fn law_around_word_on_whitespace(s: Seq<char>, cidx: int, big: bool, count: int)
    requires
        0 <= cidx < s.len(),
        char_is_whitespace(s[cidx]),
    ensures
        ({
            let inner = spec_text_object_range(s, cidx, word_object(big), false, count);
            let around = spec_text_object_range(s, cidx, word_object(big), true, count);
            match (inner, around) {
                (Some((a, w)), Some((a2, b))) => {
                    &&& a2 == a
                    &&& a <= cidx < w <= b <= s.len()
                    &&& forall|j: int|
                        a <= j < w && j != cidx ==> #[trigger] s[j] != '\n' && char_is_whitespace(s[j])
                    &&& if w < s.len() && !char_is_whitespace(s[w]) {
                        &&& w < b
                        &&& forall|j: int|
                            w <= j < b ==> spec_char_class(#[trigger] s[j], big) == spec_char_class(
                                s[w],
                                big,
                            )
                        &&& b == s.len() || spec_char_class(s[b], big) != spec_char_class(s[w], big)
                    } else {
                        b == w
                    }
                },
                _ => false,
            }
        }),
{
    let k = cls(s, cidx, big);
    assert(k == CharClass::Ws);
    lemma_span_start_all(s, cidx, k, big);
    lemma_span_end_all(s, cidx + 1, k, big);
    let a = span_start(s, cidx, k, big);
    let w = span_end(s, cidx + 1, k, big);
    assert forall|j: int| a <= j < w && j != cidx implies #[trigger] s[j] != '\n' && char_is_whitespace(
        s[j],
    ) by {
        assert(cls(s, j, big) == k);
    }
    if w < s.len() && !char_is_whitespace(s[w]) {
        let k2 = cls(s, w, big);
        lemma_span_end_all(s, w + 1, k2, big);
        let b = span_end(s, w + 1, k2, big);
        assert forall|j: int| w <= j < b implies spec_char_class(#[trigger] s[j], big) == spec_char_class(
            s[w],
            big,
        ) by {
            if j > w {
                assert(cls(s, j, big) == k2);
            }
        }
    }
}

/// `aw` / `aW` with the cursor on a word or punctuation char: the run
/// `iw` gives plus the whitespace after it on the line; when no whitespace
/// follows, the whitespace before it on the line instead.
pub proof fn law_around_word_on_word(s: Seq<char>, cidx: int, big: bool, count: int)
    requires
        0 <= cidx < s.len(),
        !char_is_whitespace(s[cidx]),
    ensures
        ({
            let inner = spec_text_object_range(s, cidx, word_object(big), false, count);
            let around = spec_text_object_range(s, cidx, word_object(big), true, count);
            match (inner, around) {
                (Some((a, w)), Some((l, t))) => {
                    let trail = w < s.len() && s[w] != '\n' && char_is_whitespace(s[w]);
                    &&& 0 <= l <= a <= cidx < w <= t <= s.len()
                    &&& if trail {
                        &&& l == a
                        &&& forall|j: int| w <= j < t ==> #[trigger] s[j] != '\n' && char_is_whitespace(s[j])
                        &&& t == s.len() || s[t] == '\n' || !char_is_whitespace(s[t])
                    } else {
                        &&& t == w
                        &&& forall|j: int| l <= j < a ==> #[trigger] s[j] != '\n' && char_is_whitespace(s[j])
                        &&& l == 0 || s[l - 1] == '\n' || !char_is_whitespace(s[l - 1])
                    }
                },
                _ => false,
            }
        }),
{
    let k = cls(s, cidx, big);
    lemma_span_start_all(s, cidx, k, big);
    lemma_span_end_all(s, cidx + 1, k, big);
    let a = span_start(s, cidx, k, big);
    let w = span_end(s, cidx + 1, k, big);
    lemma_ws_trail_end_all(s, w);
    lemma_ws_lead_start_all(s, a);
}


/// The backward scan for an unclosed `open` from `j`, with `depth` closers
/// pending: the depth never drops below zero on the way, and is zero at the
/// `open` it stops on.
proof fn lemma_unmatched_balance(s: Seq<char>, j: int, open: char, close: char, depth: int)
    requires
        depth >= 0,
        open != close,
        j < s.len(),
    ensures
        unmatched_from(s, j, open, close, depth) matches Some(o) ==> {
            &&& 0 <= o <= j
            &&& s[o] == open
            &&& depth + count_in(s, o + 1, j + 1, close) - count_in(s, o + 1, j + 1, open) == 0
            &&& forall|k: int|
                o < k <= j + 1 ==> depth + #[trigger] count_in(s, k, j + 1, close) - count_in(
                    s,
                    k,
                    j + 1,
                    open,
                ) >= 0
        },
    decreases j + 1,
{
    if 0 <= j {
        if s[j] == close {
            lemma_unmatched_balance(s, j - 1, open, close, depth + 1);
        } else if s[j] == open {
            if depth != 0 {
                lemma_unmatched_balance(s, j - 1, open, close, depth - 1);
            }
        } else {
            lemma_unmatched_balance(s, j - 1, open, close, depth);
        }
        if let Some(o) = unmatched_from(s, j, open, close, depth) {
            if o < j {
                crate::text::motions::lemma_count_in_extend(s, o + 1, j, close);
                crate::text::motions::lemma_count_in_extend(s, o + 1, j, open);
                assert forall|k: int| o < k <= j + 1 implies depth + #[trigger] count_in(
                    s,
                    k,
                    j + 1,
                    close,
                ) - count_in(s, k, j + 1, open) >= 0 by {
                    if k <= j {
                        crate::text::motions::lemma_count_in_extend(s, k, j, close);
                        crate::text::motions::lemma_count_in_extend(s, k, j, open);
                    }
                }
            }
        }
    }
}

/// The brackets of a pair object.
pub open spec fn pair_chars(obj: TextObject) -> (char, char) {
    match obj {
        TextObject::Paren => ('(', ')'),
        TextObject::Bracket => ('[', ']'),
        TextObject::Brace => ('{', '}'),
        _ => ('<', '>'),
    }
}

/// `s[o]` opens and `s[c]` closes a pair whose contents are balanced: as
/// many openers as closers, and no prefix with more closers than openers.
pub open spec fn balanced_pair(s: Seq<char>, o: int, c: int, open: char, close: char) -> bool {
    &&& 0 <= o < c < s.len()
    &&& s[o] == open
    &&& s[c] == close
    &&& count_in(s, o + 1, c, open) == count_in(s, o + 1, c, close)
    &&& forall|k: int| o < k <= c ==> #[trigger] count_in(s, o + 1, k, open) >= count_in(s, o + 1, k, close)
}

/// The pair `(o, c)` is the innermost around `cursor`: it starts at the
/// cursor when the cursor is on an opener, ends there when it is on a
/// closer, and otherwise no opener between `o` and the cursor is left
/// unclosed before the cursor.
pub open spec fn innermost_at(s: Seq<char>, cursor: int, o: int, c: int, open: char, close: char) -> bool {
    &&& s[cursor] == open ==> o == cursor
    &&& s[cursor] == close ==> c == cursor
    &&& s[cursor] != open && s[cursor] != close ==> forall|k: int|
        o < k <= cursor ==> #[trigger] count_in(s, k, cursor, close) >= count_in(s, k, cursor, open)
}

/// The pair around `cursor` is a balanced pair that holds it.
proof fn lemma_enclosing_pair_balanced(s: Seq<char>, cursor: int, open: char, close: char)
    requires
        open != close,
    ensures
        spec_enclosing_pair(s, cursor, open, close) matches Some((o, c)) ==> {
            &&& balanced_pair(s, o, c, open, close)
            &&& o <= cursor <= c
            &&& innermost_at(s, cursor, o, c, open, close)
        },
{
    if 0 <= cursor < s.len() {
        if s[cursor] == open {
            lemma_forward_balance(s, cursor + 1, open, close, 1);
        } else if s[cursor] == close {
            lemma_backward_balance(s, cursor - 1, close, open, 1);
            if let Some(o) = match_backward_from(s, cursor - 1, close, open, 1) {
                assert forall|k: int| o < k <= cursor implies #[trigger] count_in(s, o + 1, k, open)
                    >= count_in(s, o + 1, k, close) by {
                    lemma_count_in_split(s, o + 1, k, cursor, open);
                    lemma_count_in_split(s, o + 1, k, cursor, close);
                }
            }
        } else {
            lemma_unmatched_balance(s, cursor - 1, open, close, 0);
            if let Some(o) = unmatched_from(s, cursor - 1, open, close, 0) {
                lemma_forward_balance(s, o + 1, open, close, 1);
                if let Some(c) = match_forward_from(s, o + 1, open, close, 1) {
                    if c < cursor {
                        lemma_count_in_split(s, o + 1, c + 1, cursor, open);
                        lemma_count_in_split(s, o + 1, c + 1, cursor, close);
                        crate::text::motions::lemma_count_in_extend(s, o + 1, c, open);
                        crate::text::motions::lemma_count_in_extend(s, o + 1, c, close);
                        assert(count_in(s, c + 1, cursor, close) >= count_in(s, c + 1, cursor, open));
                        assert(false);
                    }
                }
            }
        }
    }
}

proof fn lemma_pair_levels_balanced(s: Seq<char>, cursor: int, open: char, close: char, n: int)
    requires
        open != close,
    ensures
        spec_pair_levels(s, cursor, open, close, n) matches Some((o, c)) ==> balanced_pair(
            s,
            o,
            c,
            open,
            close,
        ),
        n <= 1 ==> (spec_pair_levels(s, cursor, open, close, n) matches Some((o, c)) ==> o <= cursor
            <= c && innermost_at(s, cursor, o, c, open, close)),
    decreases n,
{
    lemma_enclosing_pair_balanced(s, cursor, open, close);
    if let Some((o, c)) = spec_enclosing_pair(s, cursor, open, close) {
        if n > 1 && o != 0 {
            lemma_pair_levels_balanced(s, o - 1, open, close, n - 1);
        }
    }
}

/// `i(` / `a(` (and `[`, `{`, `<`), with any count: the range is the
/// inside of (or, around, the whole of) a balanced bracket pair; with a
/// count of one (or none) that pair holds the cursor (clamped to the last
/// char), the cursor possibly on one of its brackets, and it is the
/// innermost such pair.
pub proof fn law_pair_object_is_balanced(s: Seq<char>, cidx: int, obj: TextObject, around: bool, count: int)
    requires
        obj == TextObject::Paren || obj == TextObject::Bracket || obj == TextObject::Brace || obj
            == TextObject::Angle,
        0 <= cidx,
    ensures
        spec_text_object_range(s, cidx, obj, around, count) matches Some((a, b)) ==> {
            let cursor = if cidx < s.len() {
                cidx
            } else {
                s.len() - 1
            };
            let (o, c) = if around {
                (a, b - 1)
            } else {
                (a - 1, b)
            };
            &&& balanced_pair(s, o, c, pair_chars(obj).0, pair_chars(obj).1)
            &&& count <= 1 ==> o <= cursor <= c && innermost_at(
                s,
                cursor,
                o,
                c,
                pair_chars(obj).0,
                pair_chars(obj).1,
            )
        },
{
    if s.len() > 0 {
        let cursor = if cidx < s.len() {
            cidx
        } else {
            s.len() - 1
        };
        let n = if count < 1 {
            1
        } else {
            count
        };
        lemma_pair_levels_balanced(s, cursor, pair_chars(obj).0, pair_chars(obj).1, n);
    }
}

proof fn lemma_quote_positions_are_quotes(s: Seq<char>, ls: int, ll: int, i: int, q: char)
    requires
        0 <= i,
    ensures
        forall|k: int|
            0 <= k < quote_positions(s, ls, ll, i, q).len() ==> s[#[trigger] quote_positions(
                s,
                ls,
                ll,
                i,
                q,
            )[k]] == q,
    decreases ll - i + 1,
{
    if 0 <= i < ll {
        if s[ls + i] == '\\' {
            lemma_quote_positions_are_quotes(s, ls, ll, i + 2, q);
            assert(quote_positions(s, ls, ll, i, q) == quote_positions(s, ls, ll, i + 2, q));
        } else if s[ls + i] == q {
            lemma_quote_positions_are_quotes(s, ls, ll, i + 1, q);
            let rest = quote_positions(s, ls, ll, i + 1, q);
            let all = seq![ls + i] + rest;
            assert(quote_positions(s, ls, ll, i, q) == all);
            assert forall|k: int| 0 <= k < all.len() implies s[#[trigger] all[k]] == q by {
                if k > 0 {
                    assert(all[k] == rest[k - 1]);
                }
            }
        } else {
            lemma_quote_positions_are_quotes(s, ls, ll, i + 1, q);
            assert(quote_positions(s, ls, ll, i, q) == quote_positions(s, ls, ll, i + 1, q));
        }
    }
}

proof fn lemma_choose_quote_pair_members(qs: Seq<int>, cidx: int, k: int)
    requires
        0 <= k,
        forall|a: int, b: int| 0 <= a < b < qs.len() ==> #[trigger] qs[a] < #[trigger] qs[b],
    ensures
        choose_quote_pair(qs, cidx, k) matches Some((o, c)) ==> exists|j: int|
            0 <= j && j + 1 < qs.len() && o == #[trigger] qs[j] && c == qs[j + 1] && cidx <= c,
    decreases qs.len() - k,
{
    if k + 1 < qs.len() {
        lemma_choose_quote_pair_members(qs, cidx, k + 2);
        let o = qs[k];
        let c = qs[k + 1];
        if (cidx >= o && cidx <= c) || cidx < o {
            assert(o < c);
            assert(o == qs[k] && c == qs[k + 1]);
        }
    }
}

/// The quote char of a quote object.
pub open spec fn quote_char(obj: TextObject) -> char {
    match obj {
        TextObject::DoubleQuote => '"',
        TextObject::SingleQuote => '\'',
        _ => '`',
    }
}

/// `i"` (and `'`, `` ` ``): the range lies between two quote chars of the
/// cursor's line (the cursor clamped to the last char), the closing one at
/// or after the cursor.
pub proof fn law_inner_quote_is_between_quotes(s: Seq<char>, cidx: int, obj: TextObject)
    requires
        obj == TextObject::DoubleQuote || obj == TextObject::SingleQuote || obj == TextObject::Backtick,
        0 <= cidx,
    ensures
        spec_text_object_range(s, cidx, obj, false, 1) matches Some((a, b)) ==> {
            let ci = if cidx < s.len() {
                cidx
            } else {
                s.len() - 1
            };
            let row = rope_line_of(s, ci);
            &&& rope_line_start(s, row) <= a - 1 < b < rope_line_start(s, row + 1)
            &&& s[a - 1] == quote_char(obj)
            &&& s[b] == quote_char(obj)
            &&& cidx <= b
        },
{
    let q = quote_char(obj);
    if s.len() > 0 {
        let ci = if cidx < s.len() {
            cidx
        } else {
            s.len() - 1
        };
        crate::text::rope::lemma_line_of(s, ci);
        let row = rope_line_of(s, ci);
        crate::text::rope::lemma_line_start(s, row + 1);
        let ls = rope_line_start(s, row);
        let next = rope_line_start(s, row + 1);
        let ll = line_body_len(s, ls, next);
        assert(ls <= next);
        lemma_quote_positions(s, ls, ll, 0, q);
        lemma_quote_positions_are_quotes(s, ls, ll, 0, q);
        let qs = quote_positions(s, ls, ll, 0, q);
        lemma_choose_quote_pair_members(qs, cidx, 0);
        if let Some((o, c)) = choose_quote_pair(qs, cidx, 0) {
            let j = choose|j: int| 0 <= j && j + 1 < qs.len() && o == #[trigger] qs[j] && c == qs[j + 1]
                && cidx <= c;
            assert(qs[j] < qs[j + 1]);
            assert(s[qs[j]] == q);
            assert(s[qs[j + 1]] == q);
        }
    }
}

} // verus!
