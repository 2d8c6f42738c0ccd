//! Arithmetic the buffer's edits rely on: how much a dedent removes from a
//! line, and where a syntax-tree point ends up after text is written.

use vstd::prelude::*;

use crate::lsp::position::char_len_utf8;
use crate::strs::{chars_to_string, collect_chars};
use crate::text::chars::{char_is_whitespace, is_whitespace};
use crate::text::rope::{
    len_chars, len_lines, line_to_char, rope_chars, rope_line_count, rope_line_start,
    slice_to_string, utf8_len,
};

use ropey::Rope;

verus! {

/// Columns one `>>` / `<<` shifts a line by, and the count of spaces an
/// indent inserts.
pub const SHIFT_WIDTH: usize = 4;

/// Leading bytes of `line` a dedent by one shift width drops, `cols`
/// columns having been consumed already: a space is one column, a tab a
/// full shift width; it stops once a shift width is consumed or at the
/// first other char.
pub open spec fn dedent_from(line: Seq<char>, cols: int) -> int
    decreases line.len(),
{
    if line.len() == 0 || cols >= SHIFT_WIDTH {
        0
    } else if line[0] == ' ' {
        1 + dedent_from(line.drop_first(), cols + 1)
    } else if line[0] == '\t' {
        1 + dedent_from(line.drop_first(), cols + SHIFT_WIDTH)
    } else {
        0
    }
}

/// Leading bytes to drop to dedent `line` by one shift width. Leading
/// whitespace is ASCII, so the byte count equals the char count.
pub fn leading_dedent_bytes(line: &str) -> (n: usize)
    ensures
        n == dedent_from(line@, 0),
{
    let v = crate::strs::collect_chars(line);
    let mut cols: usize = 0;
    let mut bytes: usize = 0;
    let mut i: usize = 0;
    assert(line@.subrange(0, line@.len() as int) =~= line@);
    while i < v.len()
        invariant
            v@ == line@,
            i <= v@.len(),
            bytes == i,
            cols <= SHIFT_WIDTH + SHIFT_WIDTH,
            dedent_from(line@, 0) == i + dedent_from(line@.subrange(i as int, line@.len() as int), cols as int),
        ensures
            bytes == dedent_from(line@, 0),
        decreases v@.len() - i,
    {
        if cols >= SHIFT_WIDTH {
            break;
        }
        let c = v[i];
        let ghost rest = line@.subrange(i as int, line@.len() as int);
        proof {
            assert(rest.drop_first() =~= line@.subrange(i + 1, line@.len() as int));
        }
        if c == ' ' {
            cols = cols + 1;
        } else if c == '\t' {
            cols = cols + SHIFT_WIDTH;
        } else {
            proof {
                assert(rest[0] == c);
            }
            break;
        }
        bytes = bytes + char_len_utf8(c);
        i = i + 1;
    }
    bytes
}

/// A point in a syntax tree's coordinates: row, and column in bytes from
/// the start of the row.
#[derive(Debug, Clone, Copy, PartialEq, Eq, Structural)]
pub struct Point {
    pub row: usize,
    pub column: usize,
}

/// Where `(row, column)` ends up after `t` is written there: a line feed
/// starts the next row at column 0, any other char moves the column by its
/// UTF-8 length.
pub open spec fn spec_advance_point(row: int, column: int, t: Seq<char>) -> (int, int)
    decreases t.len(),
{
    if t.len() == 0 {
        (row, column)
    } else {
        let q = spec_advance_point(row, column, t.drop_last());
        if t.last() == '\n' {
            (q.0 + 1, 0)
        } else {
            (q.0, q.1 + utf8_len(t.last()))
        }
    }
}

/// The row and column stay within `usize` while walking `t` from `start`.
pub open spec fn point_advance_fits(start: Point, t: Seq<char>) -> bool {
    forall|k: int|
        0 <= k <= t.len() ==> {
            let q = #[trigger] spec_advance_point(start.row as int, start.column as int, t.take(k));
            q.0 <= usize::MAX && q.1 <= usize::MAX
        }
}

/// Advance a syntax-tree point forward across `s`.
pub fn advance_point(start: Point, s: &str) -> (p: Point)
    requires
        point_advance_fits(start, s@),
    ensures
        (p.row as int, p.column as int) == spec_advance_point(start.row as int, start.column as int, s@),
{
    let v = crate::strs::collect_chars(s);
    let ghost t = s@;
    let mut row = start.row;
    let mut column = start.column;
    let mut k: usize = 0;
    proof {
        assert(t.take(0) =~= Seq::<char>::empty());
    }
    while k < v.len()
        invariant
            v@ == t,
            t == s@,
            k <= t.len(),
            point_advance_fits(start, t),
            (row as int, column as int) == spec_advance_point(
                start.row as int,
                start.column as int,
                t.take(k as int),
            ),
        decreases t.len() - k,
    {
        let ch = v[k];
        proof {
            assert(t.take(k + 1).drop_last() =~= t.take(k as int));
            assert(t.take(k + 1).last() == ch);
            let _ = spec_advance_point(start.row as int, start.column as int, t.take(k + 1));
        }
        if ch == '\n' {
            row = row + 1;
            column = 0;
        } else {
            column = column + char_len_utf8(ch);
        }
        k = k + 1;
    }
    proof {
        assert(t.take(k as int) =~= t);
    }
    Point { row, column }
}


/// Whether every char of `s` is whitespace (so is the empty line).
pub open spec fn all_whitespace(s: Seq<char>) -> bool {
    forall|k: int| 0 <= k < s.len() ==> char_is_whitespace(#[trigger] s[k])
}

/// One line's body shifted: a dedent drops what [`dedent_from`] counts; an
/// indent puts a shift width of spaces in front, except on a blank line,
/// which stays as it is. The flag says whether the body changed.
pub open spec fn shift_body(body: Seq<char>, dedent: bool) -> (Seq<char>, bool) {
    if dedent {
        let d = dedent_from(body, 0);
        (body.subrange(d, body.len() as int), d > 0)
    } else if all_whitespace(body) {
        (body, false)
    } else {
        (seq![' ', ' ', ' ', ' '] + body, true)
    }
}

/// Columns the chars of `t` take as indentation: a tab a full shift width
/// (4), any other char one.
pub open spec fn indent_cols(t: Seq<char>) -> int
    decreases t.len(),
{
    if t.len() == 0 {
        0
    } else {
        (if t[0] == '\t' {
            4int
        } else {
            1int
        }) + indent_cols(t.drop_first())
    }
}

proof fn lemma_dedent_from_props(line: Seq<char>, cols: int)
    requires
        cols >= 0,
    ensures
        ({
            let d = dedent_from(line, cols);
            &&& 0 <= d <= line.len()
            &&& forall|j: int| 0 <= j < d ==> #[trigger] line[j] == ' ' || line[j] == '\t'
            &&& d > 0 ==> cols + indent_cols(line.take(d - 1)) < 4
            &&& d == line.len() || !(line[d] == ' ' || line[d] == '\t') || cols + indent_cols(line.take(d))
                >= 4
        }),
    decreases line.len(),
{
    if line.len() > 0 && cols < SHIFT_WIDTH && (line[0] == ' ' || line[0] == '\t') {
        let rest = line.drop_first();
        let w: int = if line[0] == '\t' {
            4
        } else {
            1
        };
        lemma_dedent_from_props(rest, cols + w);
        let dd = dedent_from(rest, cols + w);
        let d = dedent_from(line, cols);
        assert(d == 1 + dd);
        assert forall|j: int| 0 <= j < d implies #[trigger] line[j] == ' ' || line[j] == '\t' by {
            if j > 0 {
                assert(line[j] == rest[j - 1]);
            }
        }
        assert(line.take(d).drop_first() =~= rest.take(dd));
        assert(indent_cols(line.take(d)) == w + indent_cols(rest.take(dd)));
        if dd > 0 {
            assert(line.take(d - 1).drop_first() =~= rest.take(dd - 1));
            assert(indent_cols(line.take(d - 1)) == w + indent_cols(rest.take(dd - 1)));
        } else {
            assert(line.take(0) =~= Seq::<char>::empty());
        }
    } else if line.len() > 0 {
        assert(line.take(0) =~= Seq::<char>::empty());
    }
}

/// Shifting one line's body: an indent puts four spaces in front of a line
/// with a char that is not whitespace and leaves a blank line as it is; a
/// dedent drops a run of leading spaces and tabs (a tab counting four
/// columns), starting each dropped char before four columns are reached,
/// and stopping at four columns or at the first other char. The flag says
/// whether the line changed.
pub proof fn law_shift_body(body: Seq<char>, dedent: bool)
    ensures
        !dedent ==> shift_body(body, false) == (if exists|j: int|
            0 <= j < body.len() && !char_is_whitespace(#[trigger] body[j]) {
            (seq![' ', ' ', ' ', ' '] + body, true)
        } else {
            (body, false)
        }),
        dedent ==> exists|d: int|
            {
                &&& 0 <= d <= body.len()
                &&& shift_body(body, true) == (#[trigger] body.subrange(d, body.len() as int), d > 0)
                &&& forall|j: int| 0 <= j < d ==> #[trigger] body[j] == ' ' || body[j] == '\t'
                &&& d > 0 ==> indent_cols(body.take(d - 1)) < 4
                &&& d == body.len() || !(body[d] == ' ' || body[d] == '\t') || indent_cols(body.take(d))
                    >= 4
            },
{
    lemma_dedent_from_props(body, 0);
    if dedent {
        let d = dedent_from(body, 0);
        assert(shift_body(body, true) == (body.subrange(d, body.len() as int), d > 0));
    }
}

/// Chars of `v[lo..hi]` a dedent by one shift width drops.
fn dedent_span(v: &Vec<char>, lo: usize, hi: usize) -> (n: usize)
    requires
        lo <= hi <= v@.len(),
    ensures
        n == dedent_from(v@.subrange(lo as int, hi as int), 0),
        n <= hi - lo,
{
    let ghost body = v@.subrange(lo as int, hi as int);
    let mut cols: usize = 0;
    let mut i: usize = lo;
    assert(body.subrange(0, body.len() as int) =~= body);
    while i < hi
        invariant
            body == v@.subrange(lo as int, hi as int),
            lo <= i <= hi <= v@.len(),
            cols <= SHIFT_WIDTH + SHIFT_WIDTH,
            dedent_from(body, 0) == (i - lo) + dedent_from(
                body.subrange(i - lo, body.len() as int),
                cols as int,
            ),
        ensures
            i - lo == dedent_from(body, 0),
        decreases hi - i,
    {
        let ghost rest = body.subrange(i - lo, body.len() as int);
        proof {
            lemma_dedent_bound(rest, cols as int);
        }
        if cols >= SHIFT_WIDTH {
            break;
        }
        let c = v[i];
        proof {
            assert(rest[0] == c);
            assert(rest.drop_first() =~= body.subrange(i - lo + 1, body.len() as int));
        }
        if c == ' ' {
            cols = cols + 1;
        } else if c == '\t' {
            cols = cols + SHIFT_WIDTH;
        } else {
            break;
        }
        i = i + 1;
    }
    proof {
        lemma_dedent_bound(body, 0);
    }
    i - lo
}

proof fn lemma_dedent_bound(line: Seq<char>, cols: int)
    ensures
        0 <= dedent_from(line, cols) <= line.len(),
        line.len() == 0 ==> dedent_from(line, cols) == 0,
    decreases line.len(),
{
    if line.len() > 0 && cols < SHIFT_WIDTH {
        lemma_dedent_bound(line.drop_first(), cols + 1);
        lemma_dedent_bound(line.drop_first(), cols + SHIFT_WIDTH);
    }
}

/// Append the shifted body `v[lo..hi]` to `out`; whether it changed.
fn push_shifted_body(v: &Vec<char>, lo: usize, hi: usize, dedent: bool, out: &mut Vec<char>) -> (changed: bool)
    requires
        lo <= hi <= v@.len(),
    ensures
        final(out)@ == old(out)@ + shift_body(v@.subrange(lo as int, hi as int), dedent).0,
        changed == shift_body(v@.subrange(lo as int, hi as int), dedent).1,
{
    let ghost body = v@.subrange(lo as int, hi as int);
    let ghost before = out@;
    let mut from = lo;
    let mut changed = false;
    if dedent {
        let d = dedent_span(v, lo, hi);
        changed = d > 0;
        from = lo + d;
        proof {
            assert(body.subrange(d as int, body.len() as int) =~= v@.subrange(from as int, hi as int));
        }
    } else {
        let mut blank = true;
        let mut k = lo;
        while k < hi
            invariant
                lo <= k <= hi <= v@.len(),
                blank <==> (forall|m: int| lo <= m < k ==> char_is_whitespace(#[trigger] v@[m])),
            decreases hi - k,
        {
            if !is_whitespace(v[k]) {
                blank = false;
            }
            k = k + 1;
        }
        proof {
            if blank {
                assert forall|m: int| 0 <= m < body.len() implies char_is_whitespace(
                    #[trigger] body[m],
                ) by {
                    assert(body[m] == v@[lo + m]);
                }
            } else {
                let m = choose|m: int| lo <= m < hi && !char_is_whitespace(#[trigger] v@[m]);
                assert(body[m - lo] == v@[m]);
            }
        }
        if !blank {
            changed = true;
            out.push(' ');
            out.push(' ');
            out.push(' ');
            out.push(' ');
        }
        proof {
            assert(body =~= v@.subrange(from as int, hi as int));
        }
    }
    let ghost mid = out@;
    proof {
        if !dedent && changed {
            assert(mid =~= before + seq![' ', ' ', ' ', ' ']);
        }
    }
    let mut k = from;
    while k < hi
        invariant
            from <= k <= hi <= v@.len(),
            out@ == mid + v@.subrange(from as int, k as int),
        decreases hi - k,
    {
        out.push(v[k]);
        k = k + 1;
        proof {
            assert(out@ =~= mid + v@.subrange(from as int, k as int));
        }
    }
    proof {
        assert(out@ =~= before + shift_body(body, dedent).0);
    }
    changed
}

/// Leading whitespace chars of the first line of `t` (a line break ends
/// the line).
pub open spec fn leading_ws(t: Seq<char>) -> int
    decreases t.len(),
{
    if t.len() == 0 || t[0] == '\n' || !char_is_whitespace(t[0]) {
        0
    } else {
        1 + leading_ws(t.drop_first())
    }
}

/// The edit a line shift makes: the char range `start..end` of whole lines
/// is replaced by `text`, and the cursor lands on the first shifted line at
/// column `land_col`, its first non-blank.
#[derive(Debug, PartialEq, Eq)]
pub struct ShiftEdit {
    pub start: usize,
    pub end: usize,
    pub text: String,
    pub land_col: usize,
}

/// Where row `r` of `s` ends: where the next row starts, or the end of
/// the text for the last row.
pub open spec fn row_end(s: Seq<char>, r: int) -> int {
    if r + 1 >= rope_line_count(s) {
        s.len() as int
    } else {
        rope_line_start(s, r + 1)
    }
}

/// Row `r` of `s` (a line of the rope, whatever break ends it) shifted:
/// its body, the row without a final `\n`, goes through [`shift_body`] and
/// the `\n` is kept.
pub open spec fn row_shift(s: Seq<char>, r: int, dedent: bool) -> (Seq<char>, bool) {
    let line = s.subrange(rope_line_start(s, r), row_end(s, r));
    let has_nl = line.len() > 0 && line.last() == '\n';
    let body = if has_nl {
        line.drop_last()
    } else {
        line
    };
    let head = shift_body(body, dedent);
    (
        if has_nl {
            head.0.push('\n')
        } else {
            head.0
        },
        head.1,
    )
}

/// Rows `r ..= h` of `s`, each shifted, one after the other; the flag says
/// whether any of them changed.
pub open spec fn spec_shift_rows(s: Seq<char>, r: int, h: int, dedent: bool) -> (Seq<char>, bool)
    decreases h - r + 1,
{
    if r > h {
        (Seq::empty(), false)
    } else {
        let x = row_shift(s, r, dedent);
        let rest = spec_shift_rows(s, r + 1, h, dedent);
        (x.0 + rest.0, x.1 || rest.1)
    }
}

/// The rows a shift of `lo ..= hi` covers: both clamped to the last row,
/// `hi` to at least `lo`.
pub open spec fn clamp_rows(s: Seq<char>, lo: int, hi: int) -> (int, int) {
    let last = rope_line_count(s) - 1;
    let l = if lo < last {
        lo
    } else {
        last
    };
    let h0 = if hi < last {
        hi
    } else {
        last
    };
    (l, if h0 < l {
        l
    } else {
        h0
    })
}

/// Row `r` of the rope shifted, whether it changed, and where the row
/// ends.
fn shifted_row(rope: &Rope, r: usize, dedent: bool) -> (out: (Vec<char>, bool, usize))
    requires
        r < rope_line_count(rope_chars(*rope)),
    ensures
        (out.0@, out.1) == row_shift(rope_chars(*rope), r as int, dedent),
        out.2 == row_end(rope_chars(*rope), r as int),
        rope_line_start(rope_chars(*rope), r as int) <= out.2 <= rope_chars(*rope).len(),
{
    let ghost s = rope_chars(*rope);
    let total = len_lines(rope);
    let a = line_to_char(rope, r);
    let b = if r + 1 >= total {
        len_chars(rope)
    } else {
        line_to_char(rope, r + 1)
    };
    let line = collect_chars(slice_to_string(rope, a, b).as_str());
    let len = line.len();
    let has_nl = len > 0 && line[len - 1] == '\n';
    let body_end = if has_nl {
        len - 1
    } else {
        len
    };
    let mut out: Vec<char> = Vec::new();
    let changed = push_shifted_body(&line, 0, body_end, dedent, &mut out);
    if has_nl {
        out.push('\n');
    }
    proof {
        let lv = s.subrange(a as int, b as int);
        if has_nl {
            assert(lv.drop_last() =~= line@.subrange(0, body_end as int));
        } else {
            assert(lv =~= line@.subrange(0, body_end as int));
        }
        assert(out@ =~= row_shift(s, r as int, dedent).0);
    }
    (out, changed, b)
}

/// vim `>>` / `<<` over rows `lo_row ..= hi_row` (clamped): every row of
/// the rope in that range, whatever line break ends it, is shifted by one
/// shift width; the edit replaces those rows with the shifted text and
/// lands the cursor on the first row's first non-blank column. None when no
/// row would change.
pub fn shift_lines_edit(rope: &Rope, lo_row: usize, hi_row: usize, dedent: bool) -> (r: Option<
    ShiftEdit,
>)
    ensures
        ({
            let s = rope_chars(*rope);
            let (l, h) = clamp_rows(s, lo_row as int, hi_row as int);
            let shifted = spec_shift_rows(s, l, h, dedent);
            &&& (r is None <==> !shifted.1)
            &&& (r matches Some(x) ==> {
                &&& x.start == rope_line_start(s, l)
                &&& x.end == row_end(s, h)
                &&& x.text@ == shifted.0
                &&& x.land_col == leading_ws(row_shift(s, l, dedent).0)
            })
        }),
{
    let ghost s = rope_chars(*rope);
    let total = len_lines(rope);
    let last = total - 1;
    let lo = if lo_row < last {
        lo_row
    } else {
        last
    };
    let h0 = if hi_row < last {
        hi_row
    } else {
        last
    };
    let hi = if h0 < lo {
        lo
    } else {
        h0
    };
    let start = line_to_char(rope, lo);
    let (mut out, mut changed, mut end) = shifted_row(rope, lo, dedent);
    let first_text = chars_to_string(&out);
    let mut r = lo + 1;
    proof {
        assert(spec_shift_rows(s, lo as int, hi as int, dedent) == (
            out@ + spec_shift_rows(s, r as int, hi as int, dedent).0,
            changed || spec_shift_rows(s, r as int, hi as int, dedent).1,
        ));
    }
    while r <= hi
        invariant
            s == rope_chars(*rope),
            total == rope_line_count(s),
            lo < r <= hi + 1,
            hi < total,
            spec_shift_rows(s, lo as int, hi as int, dedent) == (
                out@ + spec_shift_rows(s, r as int, hi as int, dedent).0,
                changed || spec_shift_rows(s, r as int, hi as int, dedent).1,
            ),
            end == row_end(s, r - 1),
        decreases hi + 1 - r,
    {
        let ghost before = out@;
        let (mut row, row_changed, b) = shifted_row(rope, r, dedent);
        let ghost rowv = row@;
        out.append(&mut row);
        proof {
            assert(before + (rowv + spec_shift_rows(s, r + 1, hi as int, dedent).0) =~= out@
                + spec_shift_rows(s, r + 1, hi as int, dedent).0);
        }
        changed = changed || row_changed;
        end = b;
        r = r + 1;
    }
    if !changed {
        return None;
    }
    let land_col = leading_ws_count(first_text.as_str());
    Some(ShiftEdit { start, end, text: chars_to_string(&out), land_col })
}

/// vim `>>` / `<<` with a count at row `row`: the shift of `count` rows
/// (at least one, at most to the last row) from `row`. None when `row` is
/// past the last row or no row would change.
pub fn shift_line_edit(rope: &Rope, row: usize, count: u32, dedent: bool) -> (r: Option<ShiftEdit>)
    ensures
        ({
            let s = rope_chars(*rope);
            let last = rope_line_count(s) - 1;
            let n = if count == 0 {
                1int
            } else {
                count as int
            };
            let h = if row + n - 1 < last {
                row + n - 1
            } else {
                last
            };
            let shifted = spec_shift_rows(s, row as int, h, dedent);
            if row > last {
                r is None
            } else {
                &&& (r is None <==> !shifted.1)
                &&& (r matches Some(x) ==> {
                    &&& x.start == rope_line_start(s, row as int)
                    &&& x.end == row_end(s, h)
                    &&& x.text@ == shifted.0
                    &&& x.land_col == leading_ws(row_shift(s, row as int, dedent).0)
                })
            }
        }),
{
    let last = len_lines(rope) - 1;
    if row > last {
        return None;
    }
    let n: usize = if count == 0 {
        1
    } else {
        count as usize
    };
    let hi = if n - 1 < last - row {
        row + (n - 1)
    } else {
        last
    };
    shift_lines_edit(rope, row, hi, dedent)
}

/// vim `>` / `<` on a visual selection between rows `anchor_row` and
/// `cursor_row`: the shift of the rows it spans.
pub fn shift_selection_edit(rope: &Rope, anchor_row: usize, cursor_row: usize, dedent: bool) -> (r:
    Option<ShiftEdit>)
    ensures
        ({
            let lo = if anchor_row < cursor_row {
                anchor_row
            } else {
                cursor_row
            };
            let hi = if anchor_row < cursor_row {
                cursor_row
            } else {
                anchor_row
            };
            let s = rope_chars(*rope);
            let (l, h) = clamp_rows(s, lo as int, hi as int);
            let shifted = spec_shift_rows(s, l, h, dedent);
            &&& (r is None <==> !shifted.1)
            &&& (r matches Some(x) ==> {
                &&& x.start == rope_line_start(s, l)
                &&& x.end == row_end(s, h)
                &&& x.text@ == shifted.0
                &&& x.land_col == leading_ws(row_shift(s, l, dedent).0)
            })
        }),
{
    if anchor_row < cursor_row {
        shift_lines_edit(rope, anchor_row, cursor_row, dedent)
    } else {
        shift_lines_edit(rope, cursor_row, anchor_row, dedent)
    }
}

/// Leading whitespace chars of the first line of `t`.
fn leading_ws_count(t: &str) -> (n: usize)
    ensures
        n == leading_ws(t@),
{
    let v = collect_chars(t);
    let mut i: usize = 0;
    assert(t@.subrange(0, t@.len() as int) =~= t@);
    while i < v.len() && v[i] != '\n' && is_whitespace(v[i])
        invariant
            v@ == t@,
            i <= v@.len(),
            leading_ws(t@) == i + leading_ws(t@.subrange(i as int, t@.len() as int)),
        decreases v@.len() - i,
    {
        proof {
            assert(t@.subrange(i as int, t@.len() as int).drop_first() =~= t@.subrange(
                i + 1,
                t@.len() as int,
            ));
        }
        i = i + 1;
    }
    proof {
        let rest = t@.subrange(i as int, t@.len() as int);
        if i < v@.len() {
            assert(rest[0] == v@[i as int]);
        }
    }
    i
}

} // verus!
