//! Word motions (`w`, `b`, `e`, `ge` and their `W`/`B`/`E`/`gE` "big-word"
//! variants) and bracket matching (`%`). Each motion is a pure function over
//! `(rope, current absolute char index) → new absolute char index`.
//! Newlines act as whitespace in every flavor.

use vstd::prelude::*;

use ropey::Rope;

use crate::text::chars::{char_class, char_is_whitespace, spec_char_class, CharClass};
use crate::text::rope::{char_at, len_chars, rope_chars};

verus! {

/// Class of the char at `i`.
pub open spec fn cls(s: Seq<char>, i: int, big: bool) -> CharClass {
    spec_char_class(s[i], big)
}

/// First index at or after `i` whose char is not of class `k` (the length
/// of `s` when the run reaches the end).
pub open spec fn skip_fwd(s: Seq<char>, i: int, k: CharClass, big: bool) -> int
    decreases s.len() - i,
{
    if 0 <= i < s.len() && cls(s, i, big) == k {
        skip_fwd(s, i + 1, k, big)
    } else {
        i
    }
}

/// Walking left from `i`, the first index that is 0 or whose char is not of
/// class `k`.
pub open spec fn skip_back(s: Seq<char>, i: int, k: CharClass, big: bool) -> int
    decreases i,
{
    if i > 0 && cls(s, i, big) == k {
        skip_back(s, i - 1, k, big)
    } else {
        i
    }
}

/// Start of the run of class `k` that ends at `i`: walk left while the char
/// before is of class `k`.
pub open spec fn run_start(s: Seq<char>, i: int, k: CharClass, big: bool) -> int
    decreases i,
{
    if i > 0 && cls(s, i - 1, big) == k {
        run_start(s, i - 1, k, big)
    } else {
        i
    }
}

/// Last index of the run of class `k` that starts at `i`: walk right while
/// the char after is of class `k`.
pub open spec fn run_end(s: Seq<char>, i: int, k: CharClass, big: bool) -> int
    decreases s.len() - i,
{
    if 0 <= i && i + 1 < s.len() && cls(s, i + 1, big) == k {
        run_end(s, i + 1, k, big)
    } else {
        i
    }
}

/// Vim `w`/`W`: past the run under the cursor and the whitespace after it;
/// the last char when that runs off the end.
pub open spec fn spec_word_forward(s: Seq<char>, cidx: int, big: bool) -> int {
    if s.len() == 0 || cidx >= s.len() {
        cidx
    } else {
        let k = cls(s, cidx, big);
        let i1 = if k != CharClass::Ws {
            skip_fwd(s, cidx, k, big)
        } else {
            cidx
        };
        let i2 = skip_fwd(s, i1, CharClass::Ws, big);
        if i2 >= s.len() {
            s.len() - 1
        } else {
            i2
        }
    }
}

/// Vim `b`/`B`: back over whitespace before the cursor, then to the start
/// of the run found there.
pub open spec fn spec_word_back_start(s: Seq<char>, cidx: int, big: bool) -> int {
    if cidx == 0 {
        0
    } else {
        let i = skip_back(s, cidx - 1, CharClass::Ws, big);
        let k = cls(s, i, big);
        if k != CharClass::Ws {
            run_start(s, i, k, big)
        } else {
            i
        }
    }
}

/// Vim `e`/`E`: from the next char, over whitespace, to the end of the run
/// found there; the last char when that runs off the end.
pub open spec fn spec_word_end(s: Seq<char>, cidx: int, big: bool) -> int {
    if s.len() == 0 || cidx + 1 >= s.len() {
        cidx
    } else {
        let i = skip_fwd(s, cidx + 1, CharClass::Ws, big);
        if i >= s.len() {
            s.len() - 1
        } else {
            run_end(s, i, cls(s, i, big), big)
        }
    }
}

/// Vim `ge`/`gE`: to the start of the run under the cursor, then back over
/// the whitespace before it.
pub open spec fn spec_word_back_end(s: Seq<char>, cidx: int, big: bool) -> int {
    if cidx == 0 {
        0
    } else {
        let i0 = if cidx < s.len() && cls(s, cidx, big) != CharClass::Ws {
            run_start(s, cidx, cls(s, cidx, big), big)
        } else {
            cidx
        };
        if i0 == 0 {
            0
        } else {
            skip_back(s, i0 - 1, CharClass::Ws, big)
        }
    }
}

proof fn lemma_skip_fwd_bounds(s: Seq<char>, i: int, k: CharClass, big: bool)
    requires
        0 <= i <= s.len(),
    ensures
        i <= skip_fwd(s, i, k, big) <= s.len(),
        skip_fwd(s, i, k, big) < s.len() ==> cls(s, skip_fwd(s, i, k, big), big) != k,
    decreases s.len() - i,
{
    if i < s.len() && cls(s, i, big) == k {
        lemma_skip_fwd_bounds(s, i + 1, k, big);
    }
}

proof fn lemma_skip_back_bounds(s: Seq<char>, i: int, k: CharClass, big: bool)
    requires
        0 <= i,
    ensures
        0 <= skip_back(s, i, k, big) <= i,
    decreases i,
{
    if i > 0 && cls(s, i, big) == k {
        lemma_skip_back_bounds(s, i - 1, k, big);
    }
}

proof fn lemma_run_start_bounds(s: Seq<char>, i: int, k: CharClass, big: bool)
    requires
        0 <= i,
    ensures
        0 <= run_start(s, i, k, big) <= i,
    decreases i,
{
    if i > 0 && cls(s, i - 1, big) == k {
        lemma_run_start_bounds(s, i - 1, k, big);
    }
}

proof fn lemma_run_end_bounds(s: Seq<char>, i: int, k: CharClass, big: bool)
    requires
        0 <= i < s.len(),
    ensures
        i <= run_end(s, i, k, big) < s.len(),
    decreases s.len() - i,
{
    if i + 1 < s.len() && cls(s, i + 1, big) == k {
        lemma_run_end_bounds(s, i + 1, k, big);
    }
}

/// Index of the first char at or after `i` that is not of class `k`.
fn skip_forward(rope: &Rope, i: usize, k: CharClass, big: bool) -> (j: usize)
    requires
        i <= rope_chars(*rope).len(),
    ensures
        j == skip_fwd(rope_chars(*rope), i as int, k, big),
        i <= j <= rope_chars(*rope).len(),
{
    let len = len_chars(rope);
    let mut j = i;
    while j < len && char_class(char_at(rope, j), big) == k
        invariant
            len == rope_chars(*rope).len(),
            i <= j <= len,
            skip_fwd(rope_chars(*rope), j as int, k, big) == skip_fwd(
                rope_chars(*rope),
                i as int,
                k,
                big,
            ),
        decreases len - j,
    {
        j = j + 1;
    }
    j
}

/// Vim `w`/`W` — start of the next word.
pub fn word_forward(rope: &Rope, cidx: usize, big: bool) -> (r: usize)
    ensures
        r == spec_word_forward(rope_chars(*rope), cidx as int, big),
        cidx < rope_chars(*rope).len() ==> cidx <= r < rope_chars(*rope).len(),
{
    let len = len_chars(rope);
    if len == 0 || cidx >= len {
        return cidx;
    }
    let ghost s = rope_chars(*rope);
    let mut i = cidx;
    let start_class = char_class(char_at(rope, i), big);
    if start_class != CharClass::Ws {
        i = skip_forward(rope, i, start_class, big);
    }
    i = skip_forward(rope, i, CharClass::Ws, big);
    if i >= len {
        len - 1
    } else {
        i
    }
}

/// Vim `b`/`B` — start of the word at or before the cursor.
pub fn word_back_start(rope: &Rope, cidx: usize, big: bool) -> (r: usize)
    requires
        cidx <= rope_chars(*rope).len(),
    ensures
        r == spec_word_back_start(rope_chars(*rope), cidx as int, big),
        r <= cidx,
{
    if cidx == 0 {
        return 0;
    }
    let ghost s = rope_chars(*rope);
    let mut i = cidx - 1;
    while i > 0 && char_class(char_at(rope, i), big) == CharClass::Ws
        invariant
            s == rope_chars(*rope),
            i < s.len(),
            i < cidx,
            skip_back(s, i as int, CharClass::Ws, big) == skip_back(
                s,
                cidx - 1,
                CharClass::Ws,
                big,
            ),
        decreases i,
    {
        i = i - 1;
    }
    let cls_i = char_class(char_at(rope, i), big);
    let ghost i0 = i;
    if cls_i != CharClass::Ws {
        while i > 0 && char_class(char_at(rope, i - 1), big) == cls_i
            invariant
                s == rope_chars(*rope),
                i <= i0 < s.len(),
                i0 < cidx,
                run_start(s, i as int, cls_i, big) == run_start(s, i0 as int, cls_i, big),
            decreases i,
        {
            i = i - 1;
        }
    }
    i
}

/// Vim `e`/`E` — end of the word at or after the cursor.
pub fn word_end(rope: &Rope, cidx: usize, big: bool) -> (r: usize)
    ensures
        r == spec_word_end(rope_chars(*rope), cidx as int, big),
        cidx + 1 < rope_chars(*rope).len() ==> cidx < r < rope_chars(*rope).len(),
{
    let len = len_chars(rope);
    if len == 0 || cidx >= len - 1 {
        return cidx;
    }
    let ghost s = rope_chars(*rope);
    let mut i = skip_forward(rope, cidx + 1, CharClass::Ws, big);
    if i >= len {
        return len - 1;
    }
    let cls_i = char_class(char_at(rope, i), big);
    let ghost i0 = i;
    while i + 1 < len && char_class(char_at(rope, i + 1), big) == cls_i
        invariant
            s == rope_chars(*rope),
            len == s.len(),
            i0 <= i < len,
            run_end(s, i as int, cls_i, big) == run_end(s, i0 as int, cls_i, big),
        decreases len - i,
    {
        i = i + 1;
    }
    i
}

/// Vim `ge`/`gE` — end of the previous word.
pub fn word_back_end(rope: &Rope, cidx: usize, big: bool) -> (r: usize)
    requires
        cidx <= rope_chars(*rope).len(),
    ensures
        r == spec_word_back_end(rope_chars(*rope), cidx as int, big),
        r <= cidx,
{
    if cidx == 0 {
        return 0;
    }
    let ghost s = rope_chars(*rope);
    let len = len_chars(rope);
    let mut i = cidx;
    if i < len {
        let cls_i = char_class(char_at(rope, i), big);
        if cls_i != CharClass::Ws {
            while i > 0 && char_class(char_at(rope, i - 1), big) == cls_i
                invariant
                    s == rope_chars(*rope),
                    i <= cidx < s.len(),
                    run_start(s, i as int, cls_i, big) == run_start(s, cidx as int, cls_i, big),
                decreases i,
            {
                i = i - 1;
            }
        }
    }
    if i == 0 {
        return 0;
    }
    i = i - 1;
    let ghost i1 = i;
    while i > 0 && char_class(char_at(rope, i), big) == CharClass::Ws
        invariant
            s == rope_chars(*rope),
            i <= i1 < s.len(),
            skip_back(s, i as int, CharClass::Ws, big) == skip_back(
                s,
                i1 as int,
                CharClass::Ws,
                big,
            ),
        decreases i,
    {
        i = i - 1;
    }
    i
}

/// The partner of a bracket char and whether it opens (scan forward).
pub open spec fn spec_bracket_pair(c: char) -> Option<(char, bool)> {
    if c == '(' {
        Some((')', true))
    } else if c == '[' {
        Some((']', true))
    } else if c == '{' {
        Some(('}', true))
    } else if c == ')' {
        Some(('(', false))
    } else if c == ']' {
        Some(('[', false))
    } else if c == '}' {
        Some(('{', false))
    } else {
        None
    }
}

fn bracket_pair(c: char) -> (r: Option<(char, bool)>)
    ensures
        r == spec_bracket_pair(c),
{
    if c == '(' {
        Some((')', true))
    } else if c == '[' {
        Some((']', true))
    } else if c == '{' {
        Some(('}', true))
    } else if c == ')' {
        Some(('(', false))
    } else if c == ']' {
        Some(('[', false))
    } else if c == '}' {
        Some(('{', false))
    } else {
        None
    }
}

/// First bracket at or after `i` before the end of its line.
pub open spec fn first_bracket_on_line(s: Seq<char>, i: int) -> Option<int>
    decreases s.len() - i,
{
    if 0 <= i < s.len() && s[i] != '\n' {
        if spec_bracket_pair(s[i]) is Some {
            Some(i)
        } else {
            first_bracket_on_line(s, i + 1)
        }
    } else {
        None
    }
}

/// Scanning right from `i` with `depth` unclosed `open`s, the index of the
/// `mate` that closes the first of them.
pub open spec fn match_forward_from(s: Seq<char>, i: int, open: char, mate: char, depth: int) -> Option<
    int,
>
    decreases s.len() - i,
{
    if i < 0 || i >= s.len() {
        None
    } else if s[i] == open {
        match_forward_from(s, i + 1, open, mate, depth + 1)
    } else if s[i] == mate {
        if depth == 1 {
            Some(i)
        } else {
            match_forward_from(s, i + 1, open, mate, depth - 1)
        }
    } else {
        match_forward_from(s, i + 1, open, mate, depth)
    }
}

/// Scanning left from `i` with `depth` unopened `open`s (closing brackets),
/// the index of the `mate` that opens the first of them.
pub open spec fn match_backward_from(
    s: Seq<char>,
    i: int,
    open: char,
    mate: char,
    depth: int,
) -> Option<int>
    decreases i + 1,
{
    if i < 0 || i >= s.len() {
        None
    } else if s[i] == open {
        match_backward_from(s, i - 1, open, mate, depth + 1)
    } else if s[i] == mate {
        if depth == 1 {
            Some(i)
        } else {
            match_backward_from(s, i - 1, open, mate, depth - 1)
        }
    } else {
        match_backward_from(s, i - 1, open, mate, depth)
    }
}

/// Vim `%`: the partner of the bracket under the cursor, or of the first
/// bracket after it on the line; the cursor itself when there is none.
pub open spec fn spec_match_bracket(s: Seq<char>, cidx: int) -> int {
    if s.len() == 0 {
        cidx
    } else {
        let start = if 0 <= cidx < s.len() && spec_bracket_pair(s[cidx]) is Some {
            Some(cidx)
        } else {
            first_bracket_on_line(s, cidx)
        };
        match start {
            None => cidx,
            Some(st) => {
                let (mate, forward) = spec_bracket_pair(s[st])->Some_0;
                let found = if forward {
                    match_forward_from(s, st + 1, s[st], mate, 1)
                } else {
                    match_backward_from(s, st - 1, s[st], mate, 1)
                };
                match found {
                    Some(j) => j,
                    None => cidx,
                }
            },
        }
    }
}

proof fn lemma_first_bracket(s: Seq<char>, i: int)
    requires
        0 <= i,
    ensures
        first_bracket_on_line(s, i) matches Some(j) ==> i <= j < s.len() && spec_bracket_pair(
            s[j],
        ) is Some,
    decreases s.len() - i,
{
    if 0 <= i < s.len() && s[i] != '\n' && spec_bracket_pair(s[i]) is None {
        lemma_first_bracket(s, i + 1);
    }
}

/// First bracket at or after `from` on its line.
fn scan_line_for_bracket(rope: &Rope, from: usize) -> (r: Option<usize>)
    ensures
        first_bracket_on_line(rope_chars(*rope), from as int) == (match r {
            Some(j) => Some(j as int),
            None => None::<int>,
        }),
        r matches Some(j) ==> from <= j < rope_chars(*rope).len(),
{
    let ghost s = rope_chars(*rope);
    let len = len_chars(rope);
    let mut i = from;
    while i < len && char_at(rope, i) != '\n'
        invariant
            s == rope_chars(*rope),
            len == s.len(),
            from <= i,
            first_bracket_on_line(s, i as int) == first_bracket_on_line(s, from as int),
        decreases len - i,
    {
        if bracket_pair(char_at(rope, i)).is_some() {
            return Some(i);
        }
        i = i + 1;
    }
    None
}

/// Index of the `mate` closing the `open` just before `from`.
pub(crate) fn find_forward(rope: &Rope, from: usize, open: char, mate: char) -> (r: Option<usize>)
    requires
        0 < from,
    ensures
        match_forward_from(rope_chars(*rope), from as int, open, mate, 1) == (match r {
            Some(j) => Some(j as int),
            None => None::<int>,
        }),
        r matches Some(j) ==> j < rope_chars(*rope).len(),
{
    let ghost s = rope_chars(*rope);
    let len = len_chars(rope);
    let mut depth: usize = 1;
    let mut i = from;
    while i < len
        invariant
            s == rope_chars(*rope),
            len == s.len(),
            0 < from <= i,
            1 <= depth <= i - from + 1,
            match_forward_from(s, i as int, open, mate, depth as int) == match_forward_from(
                s,
                from as int,
                open,
                mate,
                1,
            ),
        decreases len - i,
    {
        let c = char_at(rope, i);
        if c == open {
            depth = depth + 1;
        } else if c == mate {
            depth = depth - 1;
            if depth == 0 {
                return Some(i);
            }
        }
        i = i + 1;
    }
    None
}

/// Index of the `mate` opening the `open` at `start`, scanning left.
pub(crate) fn find_backward(rope: &Rope, start: usize, open: char, mate: char) -> (r: Option<usize>)
    requires
        start < rope_chars(*rope).len(),
    ensures
        match_backward_from(rope_chars(*rope), start - 1, open, mate, 1) == (match r {
            Some(j) => Some(j as int),
            None => None::<int>,
        }),
        r matches Some(j) ==> j < start,
{
    let ghost s = rope_chars(*rope);
    let len = len_chars(rope);
    if start == 0 {
        return None;
    }
    let mut depth: usize = 1;
    let mut i = start - 1;
    loop
        invariant
            s == rope_chars(*rope),
            len == s.len(),
            i < start < s.len(),
            1 <= depth <= start - i,
            match_backward_from(s, i as int, open, mate, depth as int) == match_backward_from(
                s,
                start - 1,
                open,
                mate,
                1,
            ),
        decreases i,
    {
        let c = char_at(rope, i);
        if c == open {
            depth = depth + 1;
        } else if c == mate {
            depth = depth - 1;
            if depth == 0 {
                return Some(i);
            }
        }
        if i == 0 {
            assert(match_backward_from(s, -1, open, mate, depth as int) is None);
            return None;
        }
        i = i - 1;
    }
}

/// Vim `%` — jump to the matching bracket. If the cursor is not already on
/// one of `()[]{}`, scan forward on the current line for the first bracket
/// and use that as the starting point. Returns the original `cidx` if no
/// bracket is found on the line or no match exists.
pub fn match_bracket(rope: &Rope, cidx: usize, _big: bool) -> (r: usize)
    ensures
        r == spec_match_bracket(rope_chars(*rope), cidx as int),
        r == cidx || r < rope_chars(*rope).len(),
{
    let len = len_chars(rope);
    if len == 0 {
        return cidx;
    }
    let start = if cidx < len && bracket_pair(char_at(rope, cidx)).is_some() {
        cidx
    } else {
        match scan_line_for_bracket(rope, cidx) {
            Some(i) => i,
            None => {
                assert(first_bracket_on_line(rope_chars(*rope), cidx as int) is None);
                return cidx;
            },
        }
    };
    proof {
        lemma_first_bracket(rope_chars(*rope), cidx as int);
    }
    let open = char_at(rope, start);
    let (mate, forward) = match bracket_pair(open) {
        Some(p) => p,
        None => {
            return cidx;
        },
    };
    let found = if forward {
        find_forward(rope, start + 1, open, mate)
    } else {
        find_backward(rope, start, open, mate)
    };
    match found {
        Some(j) => j,
        None => cidx,
    }
}


/// Occurrences of `c` among `s[a..b)`.
pub open spec fn count_in(s: Seq<char>, a: int, b: int, c: char) -> int
    decreases b - a,
{
    if a >= b {
        0
    } else {
        (if s[a] == c {
            1int
        } else {
            0int
        }) + count_in(s, a + 1, b, c)
    }
}

pub proof fn lemma_count_in_extend(s: Seq<char>, a: int, b: int, c: char)
    requires
        a <= b,
    ensures
        count_in(s, a, b + 1, c) == count_in(s, a, b, c) + if s[b] == c {
            1int
        } else {
            0int
        },
    decreases b - a,
{
    if a < b {
        lemma_count_in_extend(s, a + 1, b, c);
    } else {
        assert(count_in(s, b + 1, b + 1, c) == 0);
    }
}

/// Counts over `s[a..b)` split at any `k` between.
pub proof fn lemma_count_in_split(s: Seq<char>, a: int, k: int, b: int, c: char)
    requires
        a <= k <= b,
    ensures
        count_in(s, a, b, c) == count_in(s, a, k, c) + count_in(s, k, b, c),
    decreases k - a,
{
    if a < k {
        lemma_count_in_split(s, a + 1, k, b, c);
    }
}

/// The forward scan with `depth` unclosed `open`s stops on a `mate` at
/// depth zero: every stretch it crosses from `j` keeps the depth positive.
pub proof fn lemma_forward_balance(s: Seq<char>, j: int, open: char, mate: char, depth: int)
    requires
        depth >= 1,
        open != mate,
    ensures
        match_forward_from(s, j, open, mate, depth) matches Some(r) ==> {
            &&& 0 <= j <= r < s.len()
            &&& s[r] == mate
            &&& depth + count_in(s, j, r, open) - count_in(s, j, r, mate) == 1
            &&& forall|k: int|
                j <= k <= r ==> depth + #[trigger] count_in(s, j, k, open) - count_in(s, j, k, mate) >= 1
        },
    decreases s.len() - j,
{
    if 0 <= j < s.len() {
        if s[j] == open {
            lemma_forward_balance(s, j + 1, open, mate, depth + 1);
        } else if s[j] == mate {
            if depth != 1 {
                lemma_forward_balance(s, j + 1, open, mate, depth - 1);
            }
        } else {
            lemma_forward_balance(s, j + 1, open, mate, depth);
        }
        if let Some(r) = match_forward_from(s, j, open, mate, depth) {
            if r > j {
                assert forall|k: int| j <= k <= r implies depth + #[trigger] count_in(s, j, k, open) - count_in(
                    s,
                    j,
                    k,
                    mate,
                ) >= 1 by {
                    if k > j {
                        assert(count_in(s, j, k, open) == (if s[j] == open {
                            1int
                        } else {
                            0int
                        }) + count_in(s, j + 1, k, open));
                    }
                }
            }
        }
    }
}

/// The backward scan with `depth` unopened closers (`close`) stops on an
/// `opener` at depth zero: every stretch it crosses back from `j` keeps the
/// depth positive.
pub proof fn lemma_backward_balance(s: Seq<char>, j: int, close: char, opener: char, depth: int)
    requires
        depth >= 1,
        close != opener,
        j < s.len(),
    ensures
        match_backward_from(s, j, close, opener, depth) matches Some(r) ==> {
            &&& 0 <= r <= j
            &&& s[r] == opener
            &&& depth + count_in(s, r + 1, j + 1, close) - count_in(s, r + 1, j + 1, opener) == 1
            &&& forall|k: int|
                r < k <= j + 1 ==> depth + #[trigger] count_in(s, k, j + 1, close) - count_in(s, k, j + 1, opener)
                    >= 1
        },
    decreases j + 1,
{
    if 0 <= j {
        if s[j] == close {
            lemma_backward_balance(s, j - 1, close, opener, depth + 1);
        } else if s[j] == opener {
            if depth != 1 {
                lemma_backward_balance(s, j - 1, close, opener, depth - 1);
            }
        } else {
            lemma_backward_balance(s, j - 1, close, opener, depth);
        }
        if let Some(r) = match_backward_from(s, j, close, opener, depth) {
            if r < j {
                lemma_count_in_extend(s, r + 1, j, close);
                lemma_count_in_extend(s, r + 1, j, opener);
                assert forall|k: int| r < k <= j + 1 implies depth + #[trigger] count_in(s, k, j + 1, close)
                    - count_in(s, k, j + 1, opener) >= 1 by {
                    if k <= j {
                        lemma_count_in_extend(s, k, j, close);
                        lemma_count_in_extend(s, k, j, opener);
                    }
                }
            }
        }
    }
}

/// `%` on an opening bracket that finds a partner: the partner is after it,
/// is the matching closer, and the text between the two is balanced for
/// that pair (as many openers as closers, and no prefix with more closers
/// than openers).
pub proof fn law_match_bracket_forward(s: Seq<char>, i: int)
    requires
        0 <= i < s.len(),
        s[i] == '(' || s[i] == '[' || s[i] == '{',
    ensures
        ({
            let close = if s[i] == '(' {
                ')'
            } else if s[i] == '[' {
                ']'
            } else {
                '}'
            };
            let r = spec_match_bracket(s, i);
            r != i ==> {
                &&& i < r < s.len()
                &&& s[r] == close
                &&& count_in(s, i + 1, r, s[i]) == count_in(s, i + 1, r, close)
                &&& forall|k: int| i < k <= r ==> #[trigger] count_in(s, i + 1, k, s[i]) >= count_in(s, i + 1, k, close)
            }
        }),
{
    lemma_forward_balance(s, i + 1, s[i], spec_bracket_pair(s[i])->Some_0.0, 1);
}

/// `%` on a closing bracket that finds a partner: the partner is before
/// it, is the matching opener, and the text between the two is balanced
/// for that pair (as many openers as closers, and no suffix with more
/// openers than closers).
pub proof fn law_match_bracket_backward(s: Seq<char>, i: int)
    requires
        0 <= i < s.len(),
        s[i] == ')' || s[i] == ']' || s[i] == '}',
    ensures
        ({
            let open = if s[i] == ')' {
                '('
            } else if s[i] == ']' {
                '['
            } else {
                '{'
            };
            let r = spec_match_bracket(s, i);
            r != i ==> {
                &&& 0 <= r < i
                &&& s[r] == open
                &&& count_in(s, r + 1, i, s[i]) == count_in(s, r + 1, i, open)
                &&& forall|k: int| r < k <= i ==> #[trigger] count_in(s, k, i, s[i]) >= count_in(s, k, i, open)
            }
        }),
{
    lemma_backward_balance(s, i - 1, s[i], spec_bracket_pair(s[i])->Some_0.0, 1);
}


proof fn lemma_forward_finds(s: Seq<char>, j: int, open: char, mate: char, depth: int, r: int)
    requires
        depth >= 1,
        open != mate,
        0 <= j <= r < s.len(),
        s[r] == mate,
        depth + count_in(s, j, r, open) - count_in(s, j, r, mate) == 1,
        forall|k: int| j <= k <= r ==> depth + #[trigger] count_in(s, j, k, open) - count_in(s, j, k, mate) >= 1,
    ensures
        match_forward_from(s, j, open, mate, depth) == Some(r),
    decreases r - j,
{
    if j == r {
        assert(count_in(s, j, j, open) == 0 && count_in(s, j, j, mate) == 0);
    } else {
        let w_open: int = if s[j] == open {
            1
        } else {
            0
        };
        let w_mate: int = if s[j] == mate {
            1
        } else {
            0
        };
        let d2 = depth + w_open - w_mate;
        assert(depth + count_in(s, j, j + 1, open) - count_in(s, j, j + 1, mate) >= 1);
        assert(count_in(s, j + 1, j + 1, open) == 0 && count_in(s, j + 1, j + 1, mate) == 0);
        assert(d2 >= 1);
        assert forall|k: int| j + 1 <= k <= r implies d2 + #[trigger] count_in(s, j + 1, k, open)
            - count_in(s, j + 1, k, mate) >= 1 by {
            assert(depth + count_in(s, j, k, open) - count_in(s, j, k, mate) >= 1);
        }
        lemma_forward_finds(s, j + 1, open, mate, d2, r);
    }
}

proof fn lemma_backward_finds(s: Seq<char>, j: int, close: char, opener: char, depth: int, r: int)
    requires
        depth >= 1,
        close != opener,
        0 <= r <= j < s.len(),
        s[r] == opener,
        depth + count_in(s, r + 1, j + 1, close) - count_in(s, r + 1, j + 1, opener) == 1,
        forall|k: int|
            r < k <= j + 1 ==> depth + #[trigger] count_in(s, k, j + 1, close) - count_in(s, k, j + 1, opener)
                >= 1,
    ensures
        match_backward_from(s, j, close, opener, depth) == Some(r),
    decreases j - r,
{
    if j == r {
        assert(count_in(s, j + 1, j + 1, close) == 0 && count_in(s, j + 1, j + 1, opener) == 0);
    } else {
        let w_close: int = if s[j] == close {
            1
        } else {
            0
        };
        let w_open: int = if s[j] == opener {
            1
        } else {
            0
        };
        let d2 = depth + w_close - w_open;
        assert(depth + count_in(s, j, j + 1, close) - count_in(s, j, j + 1, opener) >= 1);
        assert(count_in(s, j + 1, j + 1, close) == 0 && count_in(s, j + 1, j + 1, opener) == 0);
        lemma_count_in_extend(s, r + 1, j, close);
        lemma_count_in_extend(s, r + 1, j, opener);
        assert forall|k: int| r < k <= j implies d2 + #[trigger] count_in(s, k, j, close) - count_in(
            s,
            k,
            j,
            opener,
        ) >= 1 by {
            lemma_count_in_extend(s, k, j, close);
            lemma_count_in_extend(s, k, j, opener);
            assert(depth + count_in(s, k, j + 1, close) - count_in(s, k, j + 1, opener) >= 1);
        }
        lemma_backward_finds(s, j - 1, close, opener, d2, r);
    }
}

/// `%` on an opening bracket finds the closer that balances it: for any
/// matching closer after it with balanced text between (as many openers
/// as closers, no prefix with more closers than openers), `%` lands on it.
pub proof fn law_match_bracket_forward_finds(s: Seq<char>, i: int, r: int)
    requires
        0 <= i < r < s.len(),
        (s[i] == '(' && s[r] == ')') || (s[i] == '[' && s[r] == ']') || (s[i] == '{' && s[r] == '}'),
        count_in(s, i + 1, r, s[i]) == count_in(s, i + 1, r, s[r]),
        forall|k: int| i < k <= r ==> #[trigger] count_in(s, i + 1, k, s[i]) >= count_in(s, i + 1, k, s[r]),
    ensures
        spec_match_bracket(s, i) == r,
{
    assert forall|k: int| i + 1 <= k <= r implies 1 + #[trigger] count_in(s, i + 1, k, s[i]) - count_in(
        s,
        i + 1,
        k,
        s[r],
    ) >= 1 by {}
    lemma_forward_finds(s, i + 1, s[i], s[r], 1, r);
}

/// `%` on a closing bracket finds the opener that balances it: for any
/// matching opener before it with balanced text between (as many openers
/// as closers, no suffix with more openers than closers), `%` lands on it.
pub proof fn law_match_bracket_backward_finds(s: Seq<char>, i: int, r: int)
    requires
        0 <= r < i < s.len(),
        (s[i] == ')' && s[r] == '(') || (s[i] == ']' && s[r] == '[') || (s[i] == '}' && s[r] == '{'),
        count_in(s, r + 1, i, s[i]) == count_in(s, r + 1, i, s[r]),
        forall|k: int| r < k <= i ==> #[trigger] count_in(s, k, i, s[i]) >= count_in(s, k, i, s[r]),
    ensures
        spec_match_bracket(s, i) == r,
{
    assert forall|k: int| r < k <= i implies 1 + #[trigger] count_in(s, k, i, s[i]) - count_in(
        s,
        k,
        i,
        s[r],
    ) >= 1 by {}
    lemma_backward_finds(s, i - 1, s[i], s[r], 1, r);
}

/// A word (a WORD when `big`) starts at `j`: a char that is not whitespace
/// and is first in the text, or follows whitespace or a char of another
/// class.
pub open spec fn word_starts_at(s: Seq<char>, j: int, big: bool) -> bool {
    &&& 0 <= j < s.len()
    &&& !char_is_whitespace(s[j])
    &&& (j == 0 || char_is_whitespace(s[j - 1]) || spec_char_class(s[j - 1], big) != spec_char_class(
        s[j],
        big,
    ))
}

/// A word (a WORD when `big`) ends at `j`: a char that is not whitespace
/// and is last in the text, or is followed by whitespace or a char of
/// another class.
pub open spec fn word_ends_at(s: Seq<char>, j: int, big: bool) -> bool {
    &&& 0 <= j < s.len()
    &&& !char_is_whitespace(s[j])
    &&& (j + 1 == s.len() || char_is_whitespace(s[j + 1]) || spec_char_class(s[j + 1], big)
        != spec_char_class(s[j], big))
}

proof fn lemma_skip_fwd_all(s: Seq<char>, i: int, k: CharClass, big: bool)
    requires
        0 <= i <= s.len(),
    ensures
        i <= skip_fwd(s, i, k, big) <= s.len(),
        skip_fwd(s, i, k, big) < s.len() ==> cls(s, skip_fwd(s, i, k, big), big) != k,
        forall|j: int| i <= j < skip_fwd(s, i, k, big) ==> #[trigger] cls(s, j, big) == k,
    decreases s.len() - i,
{
    if i < s.len() && cls(s, i, big) == k {
        lemma_skip_fwd_all(s, i + 1, k, big);
    }
}

proof fn lemma_run_end_all(s: Seq<char>, i: int, k: CharClass, big: bool)
    requires
        0 <= i < s.len(),
    ensures
        i <= run_end(s, i, k, big) < s.len(),
        run_end(s, i, k, big) + 1 == s.len() || cls(s, run_end(s, i, k, big) + 1, big) != k,
        forall|j: int| i < j <= run_end(s, i, k, big) ==> #[trigger] cls(s, j, big) == k,
    decreases s.len() - i,
{
    if i + 1 < s.len() && cls(s, i + 1, big) == k {
        lemma_run_end_all(s, i + 1, k, big);
    }
}

proof fn lemma_skip_back_all(s: Seq<char>, i: int, k: CharClass, big: bool)
    requires
        0 <= i,
    ensures
        0 <= skip_back(s, i, k, big) <= i,
        skip_back(s, i, k, big) == 0 || cls(s, skip_back(s, i, k, big), big) != k,
        forall|j: int| skip_back(s, i, k, big) < j <= i ==> #[trigger] cls(s, j, big) == k,
    decreases i,
{
    if i > 0 && cls(s, i, big) == k {
        lemma_skip_back_all(s, i - 1, k, big);
    }
}

proof fn lemma_run_start_all(s: Seq<char>, i: int, k: CharClass, big: bool)
    requires
        0 <= i,
    ensures
        0 <= run_start(s, i, k, big) <= i,
        run_start(s, i, k, big) == 0 || cls(s, run_start(s, i, k, big) - 1, big) != k,
        forall|j: int| run_start(s, i, k, big) <= j < i ==> #[trigger] cls(s, j, big) == k,
    decreases i,
{
    if i > 0 && cls(s, i - 1, big) == k {
        lemma_run_start_all(s, i - 1, k, big);
    }
}

/// Vim `e` / `E`: the first word end after the cursor; the last char when
/// no word ends after it.
pub proof fn law_word_end_is_next_end(s: Seq<char>, cidx: int, big: bool)
    requires
        0 <= cidx,
        cidx + 1 < s.len(),
    ensures
        ({
            let r = spec_word_end(s, cidx, big);
            &&& cidx < r < s.len()
            &&& forall|j: int| cidx < j < r ==> !#[trigger] word_ends_at(s, j, big)
            &&& word_ends_at(s, r, big) || (r == s.len() - 1 && forall|j: int|
                cidx < j < s.len() ==> !#[trigger] word_ends_at(s, j, big))
        }),
{
    let i = skip_fwd(s, cidx + 1, CharClass::Ws, big);
    lemma_skip_fwd_all(s, cidx + 1, CharClass::Ws, big);
    if i < s.len() {
        let k = cls(s, i, big);
        lemma_run_end_all(s, i, k, big);
        let r = run_end(s, i, k, big);
        assert(cls(s, r, big) == k);
        assert forall|j: int| cidx < j < r implies !#[trigger] word_ends_at(s, j, big) by {
            if j < i {
                assert(cls(s, j, big) == CharClass::Ws);
            } else {
                assert(cls(s, j, big) == k);
                assert(cls(s, j + 1, big) == k);
            }
        }
    } else {
        assert forall|j: int| cidx < j < s.len() implies !#[trigger] word_ends_at(s, j, big) by {
            assert(cls(s, j, big) == CharClass::Ws);
        }
    }
}

/// Vim `w` / `W`: the first word start after the cursor; the last char
/// when no word starts after it.
pub proof fn law_word_forward_is_next_start(s: Seq<char>, cidx: int, big: bool)
    requires
        0 <= cidx < s.len(),
    ensures
        ({
            let r = spec_word_forward(s, cidx, big);
            &&& cidx <= r < s.len()
            &&& forall|j: int| cidx < j < r ==> !#[trigger] word_starts_at(s, j, big)
            &&& (cidx < r && word_starts_at(s, r, big)) || (r == s.len() - 1 && forall|j: int|
                cidx < j < s.len() ==> !#[trigger] word_starts_at(s, j, big))
        }),
{
    let k = cls(s, cidx, big);
    let i1 = if k != CharClass::Ws {
        skip_fwd(s, cidx, k, big)
    } else {
        cidx
    };
    lemma_skip_fwd_all(s, cidx, k, big);
    lemma_skip_fwd_all(s, i1, CharClass::Ws, big);
    let i2 = skip_fwd(s, i1, CharClass::Ws, big);
    assert forall|j: int| cidx < j < i2 implies !#[trigger] word_starts_at(s, j, big) by {
        if j < i1 {
            assert(cls(s, j, big) == k);
            assert(cls(s, j - 1, big) == k);
        } else {
            assert(cls(s, j, big) == CharClass::Ws);
        }
    }
    if i2 < s.len() {
        if i2 > i1 {
            assert(cls(s, i2 - 1, big) == CharClass::Ws);
        } else {
            assert(cls(s, i2 - 1, big) == k);
        }
    }
}

/// Vim `b` / `B`: the last word start before the cursor; the first char
/// when no word starts before it.
pub proof fn law_word_back_start_is_previous_start(s: Seq<char>, cidx: int, big: bool)
    requires
        0 < cidx <= s.len(),
    ensures
        ({
            let r = spec_word_back_start(s, cidx, big);
            &&& 0 <= r < cidx
            &&& forall|j: int| r < j < cidx ==> !#[trigger] word_starts_at(s, j, big)
            &&& word_starts_at(s, r, big) || (r == 0 && forall|j: int|
                0 <= j < cidx ==> !#[trigger] word_starts_at(s, j, big))
        }),
{
    let i = skip_back(s, cidx - 1, CharClass::Ws, big);
    lemma_skip_back_all(s, cidx - 1, CharClass::Ws, big);
    let k = cls(s, i, big);
    if k != CharClass::Ws {
        lemma_run_start_all(s, i, k, big);
        let r = run_start(s, i, k, big);
        assert(cls(s, r, big) == k);
        assert forall|j: int| r < j < cidx implies !#[trigger] word_starts_at(s, j, big) by {
            if j <= i {
                assert(cls(s, j, big) == k);
                assert(cls(s, j - 1, big) == k);
            } else {
                assert(cls(s, j, big) == CharClass::Ws);
            }
        }
    } else {
        assert forall|j: int| 0 <= j < cidx implies !#[trigger] word_starts_at(s, j, big) by {
            if j > i {
                assert(cls(s, j, big) == CharClass::Ws);
            }
        }
    }
}

/// Vim `ge` / `gE`: the last word end before the start of the word under
/// the cursor; the first char when there is none.
pub proof fn law_word_back_end_is_previous_end(s: Seq<char>, cidx: int, big: bool)
    requires
        0 < cidx <= s.len(),
    ensures
        ({
            let r = spec_word_back_end(s, cidx, big);
            &&& 0 <= r < cidx
            &&& forall|j: int| r < j < cidx ==> !#[trigger] word_ends_at(s, j, big)
            &&& word_ends_at(s, r, big) || (r == 0 && forall|j: int|
                0 <= j < cidx ==> !#[trigger] word_ends_at(s, j, big))
        }),
{
    let on_word = cidx < s.len() && cls(s, cidx, big) != CharClass::Ws;
    let k = cls(s, cidx, big);
    lemma_run_start_all(s, cidx, k, big);
    let i0 = if on_word {
        run_start(s, cidx, k, big)
    } else {
        cidx
    };
    if i0 == 0 {
        assert forall|j: int| 0 <= j < cidx implies !#[trigger] word_ends_at(s, j, big) by {
            assert(cls(s, j, big) == k);
            assert(cls(s, j + 1, big) == k);
        }
    } else {
        let r = skip_back(s, i0 - 1, CharClass::Ws, big);
        lemma_skip_back_all(s, i0 - 1, CharClass::Ws, big);
        assert forall|j: int| r < j < cidx implies !#[trigger] word_ends_at(s, j, big) by {
            if j < i0 {
                assert(cls(s, j, big) == CharClass::Ws);
            } else {
                assert(cls(s, j, big) == k);
                assert(cls(s, j + 1, big) == k);
            }
        }
        if cls(s, r, big) != CharClass::Ws {
            if r + 1 < i0 {
                assert(cls(s, r + 1, big) == CharClass::Ws);
            }
        } else {
            assert forall|j: int| 0 <= j < cidx implies !#[trigger] word_ends_at(s, j, big) by {
                if j < i0 {
                    if j > 0 {
                        assert(cls(s, j, big) == CharClass::Ws);
                    }
                } else {
                    assert(cls(s, j, big) == k);
                    assert(cls(s, j + 1, big) == k);
                }
            }
        }
    }
}

} // verus!
