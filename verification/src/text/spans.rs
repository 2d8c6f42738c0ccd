//! The char ranges the buffer's delete and replace commands edit: `x`,
//! `dd`, a linewise delete, the delete of a visual selection (charwise,
//! linewise or block), `r` with a count, and a Replace-mode keystroke. Each
//! is computed from the rope and the cursor; the buffer removes or replaces
//! the range and records it for undo.

use vstd::prelude::*;

use ropey::Rope;

use crate::registers::{RegisterEntry, RegisterKind};
use crate::strs::{chars_to_string, collect_chars};
use crate::text::buffer::FilePos;
use crate::text::cursor::{line_body_len, line_extent};
use crate::text::move_kind::{spec_is_inclusive, spec_is_linewise, MoveKind};
use crate::text::rope::{len_chars, len_lines, line_to_char, rope_chars, rope_line_count, rope_line_start};

verus! {

/// `x` capped at `cap`.
pub open spec fn at_most(x: int, cap: int) -> int {
    if x < cap {
        x
    } else {
        cap
    }
}

/// The range `start..end` clamped to a text of `len` chars; none when
/// nothing is left of it.
pub open spec fn spec_clamp_span(len: int, start: int, end: int) -> Option<(usize, usize)> {
    let s = at_most(start, len);
    let e = at_most(end, len);
    if s < e {
        Some((s as usize, e as usize))
    } else {
        None
    }
}

/// What a delete of the char range `start..end` removes: the range clamped
/// to the text, none when it is empty.
pub fn clamp_span(len: usize, start: usize, end: usize) -> (r: Option<(usize, usize)>)
    ensures
        r == spec_clamp_span(len as int, start as int, end as int),
{
    let s = if start < len {
        start
    } else {
        len
    };
    let e = if end < len {
        end
    } else {
        len
    };
    if s < e {
        Some((s, e))
    } else {
        None
    }
}

/// The char range a delete of rows `lo ..= hi` (each clamped to the last
/// row) covers, before it is clamped to the text: the rows and their line
/// breaks; when the rows run to the last row and do not start at the
/// first, the break before them instead, so that no empty last line is
/// left behind.
pub open spec fn spec_rows_range(s: Seq<char>, lo: int, hi: int) -> (int, int) {
    let count = rope_line_count(s);
    let last = count - 1;
    let l = at_most(lo, last);
    let h = at_most(hi, last);
    if h >= last && l > 0 {
        (rope_line_start(s, l) - 1, s.len() as int)
    } else {
        (
            rope_line_start(s, l),
            if h + 1 >= count {
                s.len() as int
            } else {
                rope_line_start(s, h + 1)
            },
        )
    }
}

/// The chars a delete of rows `lo_row ..= hi_row` removes (see
/// [`spec_rows_range`]); none when the range is empty.
pub fn rows_span(rope: &Rope, lo_row: usize, hi_row: usize) -> (r: Option<(usize, usize)>)
    ensures
        ({
            let s = rope_chars(*rope);
            let g = spec_rows_range(s, lo_row as int, hi_row as int);
            r == spec_clamp_span(s.len() as int, g.0, g.1)
        }),
{
    let ghost s = rope_chars(*rope);
    let total = len_lines(rope);
    let len = len_chars(rope);
    let last = total - 1;
    let hi = if hi_row < last {
        hi_row
    } else {
        last
    };
    let lo = if lo_row < last {
        lo_row
    } else {
        last
    };
    if hi >= last && lo > 0 {
        let a = line_to_char(rope, lo);
        proof {
            crate::text::rope::lemma_line_start(s, lo as int);
        }
        clamp_span(len, a - 1, len)
    } else {
        let a = line_to_char(rope, lo);
        let e = if hi + 1 >= total {
            len
        } else {
            line_to_char(rope, hi + 1)
        };
        clamp_span(len, a, e)
    }
}

/// What vim `dd` with a count removes from row `row`: `count` rows (at
/// least one, at most to the last row). None when `row` is past the last
/// row or nothing would be removed.
pub fn delete_line_span(rope: &Rope, row: usize, count: u32) -> (r: Option<(usize, usize)>)
    ensures
        ({
            let s = rope_chars(*rope);
            let last = rope_line_count(s) - 1;
            let n = if count == 0 {
                1int
            } else {
                count as int
            };
            if row > last {
                r is None
            } else {
                let g = spec_rows_range(s, row as int, at_most(row + n - 1, last));
                r == spec_clamp_span(s.len() as int, g.0, g.1)
            }
        }),
{
    let last = len_lines(rope) - 1;
    if row > last {
        return None;
    }
    let n: usize = if count == 0 {
        1
    } else {
        count as usize
    };
    let end = if n - 1 < last - row {
        row + (n - 1)
    } else {
        last
    };
    rows_span(rope, row, end)
}

/// The kinds of visual selection: charwise (`v`), linewise (`V`) and block
/// (`Ctrl-v`).
#[derive(Debug, Clone, Copy, PartialEq, Eq, Structural)]
pub enum SelectionKind {
    Char,
    Line,
    Block,
}

/// `a` comes before `b`, or is `b`: by row, then by column.
pub open spec fn pos_le(a: FilePos, b: FilePos) -> bool {
    a.row < b.row || (a.row == b.row && a.col <= b.col)
}

/// The pieces a block selection over rows `r ..= hi` and columns
/// `lo_col ..= hi_col` removes, bottom row first: on each row, the selected
/// columns that the row's text reaches (its line break excluded); rows that
/// do not reach them give nothing.
pub open spec fn spec_block_spans(s: Seq<char>, r: int, hi: int, lo_col: int, hi_col: int) -> Seq<
    (usize, usize),
>
    decreases hi - r + 1,
{
    if r > hi {
        Seq::empty()
    } else {
        let body = line_body_len(s, hi);
        let a = at_most(lo_col, body);
        let b = at_most(hi_col + 1, body);
        let start = rope_line_start(s, hi);
        let rest = spec_block_spans(s, r, hi - 1, lo_col, hi_col);
        if a < b {
            seq![((start + a) as usize, (start + b) as usize)] + rest
        } else {
            rest
        }
    }
}

/// The char ranges deleting a visual selection between `anchor` and
/// `cursor` removes, in the order they are removed.
pub open spec fn spec_selection_spans(s: Seq<char>, anchor: FilePos, cursor: FilePos, kind: SelectionKind) -> Seq<
    (usize, usize),
> {
    let (lo, hi) = if pos_le(anchor, cursor) {
        (anchor, cursor)
    } else {
        (cursor, anchor)
    };
    let lo_row = at_most(anchor.row as int, cursor.row as int);
    let hi_row = if anchor.row < cursor.row {
        cursor.row as int
    } else {
        anchor.row as int
    };
    let lo_col = at_most(anchor.col as int, cursor.col as int);
    let hi_col = if anchor.col < cursor.col {
        cursor.col as int
    } else {
        anchor.col as int
    };
    let one = |o: Option<(usize, usize)>|
        match o {
            Some(x) => seq![x],
            None => Seq::empty(),
        };
    match kind {
        SelectionKind::Char => one(
            spec_clamp_span(
                s.len() as int,
                rope_line_start(s, lo.row as int) + lo.col,
                rope_line_start(s, hi.row as int) + hi.col + 1,
            ),
        ),
        SelectionKind::Line => {
            let g = spec_rows_range(s, lo_row, hi_row);
            one(spec_clamp_span(s.len() as int, g.0, g.1))
        },
        SelectionKind::Block => spec_block_spans(s, lo_row, hi_row, lo_col, hi_col),
    }
}

/// Where a selection between `anchor` and `cursor` can be deleted: both on
/// lines of the text (a charwise selection may also end one past the last
/// line, where the text ends), with char indices that fit.
pub open spec fn selection_fits(s: Seq<char>, anchor: FilePos, cursor: FilePos, kind: SelectionKind) -> bool {
    let count = rope_line_count(s);
    &&& anchor.row < count || (kind == SelectionKind::Char && anchor.row == count)
    &&& cursor.row < count || (kind == SelectionKind::Char && cursor.row == count)
    &&& rope_line_start(s, anchor.row as int) + anchor.col + 1 <= usize::MAX
    &&& rope_line_start(s, cursor.row as int) + cursor.col + 1 <= usize::MAX
}

/// The pieces of a block selection, rows `lo ..= hi`, bottom row first.
fn block_spans(rope: &Rope, lo: usize, hi: usize, lo_col: usize, hi_col: usize) -> (r: Vec<(usize, usize)>)
    requires
        lo <= hi < rope_line_count(rope_chars(*rope)),
    ensures
        r@ == spec_block_spans(rope_chars(*rope), lo as int, hi as int, lo_col as int, hi_col as int),
{
    let ghost s = rope_chars(*rope);
    let mut out: Vec<(usize, usize)> = Vec::new();
    let mut row = hi;
    loop
        invariant
            s == rope_chars(*rope),
            lo <= row <= hi < rope_line_count(s),
            spec_block_spans(s, lo as int, hi as int, lo_col as int, hi_col as int) == out@
                + spec_block_spans(s, lo as int, row as int, lo_col as int, hi_col as int),
        decreases row,
    {
        let _n = len_chars(rope);
        let (start, _len, body) = line_extent(rope, row);
        let a = if lo_col < body {
            lo_col
        } else {
            body
        };
        let b = if hi_col < body {
            hi_col + 1
        } else {
            body
        };
        let ghost before = out@;
        if a < b {
            out.push((start + a, start + b));
        }
        proof {
            let rest = spec_block_spans(s, lo as int, row - 1, lo_col as int, hi_col as int);
            if a < b {
                assert(before + (seq![((start + a) as usize, (start + b) as usize)] + rest) =~= out@
                    + rest);
            } else {
                assert(out@ == before);
            }
        }
        if row == lo {
            proof {
                assert(spec_block_spans(s, lo as int, lo - 1, lo_col as int, hi_col as int) =~= Seq::<
                    (usize, usize),
                >::empty());
                assert(out@ + Seq::<(usize, usize)>::empty() =~= out@);
            }
            return out;
        }
        row = row - 1;
    }
}

/// What deleting the visual selection between `anchor` and `cursor`
/// removes: for a charwise selection the chars from the first position to
/// the last, both included; for a linewise one the rows and their breaks
/// (see [`spec_rows_range`]); for a block, on each selected row the
/// selected columns its text reaches, bottom row first. Empty ranges are
/// left out.
pub fn selection_spans(rope: &Rope, anchor: FilePos, cursor: FilePos, kind: SelectionKind) -> (r: Vec<
    (usize, usize),
>)
    requires
        selection_fits(rope_chars(*rope), anchor, cursor, kind),
    ensures
        r@ == spec_selection_spans(rope_chars(*rope), anchor, cursor, kind),
{
    let ghost s = rope_chars(*rope);
    let lo_row = if anchor.row < cursor.row {
        anchor.row
    } else {
        cursor.row
    };
    let hi_row = if anchor.row < cursor.row {
        cursor.row
    } else {
        anchor.row
    };
    let lo_col = if anchor.col < cursor.col {
        anchor.col
    } else {
        cursor.col
    };
    let hi_col = if anchor.col < cursor.col {
        cursor.col
    } else {
        anchor.col
    };
    let before = anchor.row < cursor.row || (anchor.row == cursor.row && anchor.col <= cursor.col);
    let (lo, hi) = if before {
        (anchor, cursor)
    } else {
        (cursor, anchor)
    };
    match kind {
        SelectionKind::Char => {
            let _ = len_lines(rope);
            let s0 = line_to_char(rope, lo.row) + lo.col;
            let e0 = line_to_char(rope, hi.row) + hi.col + 1;
            match clamp_span(len_chars(rope), s0, e0) {
                Some(x) => {
                    let mut v: Vec<(usize, usize)> = Vec::new();
                    v.push(x);
                    proof {
                        assert(v@ =~= seq![x]);
                    }
                    v
                },
                None => {
                    let v: Vec<(usize, usize)> = Vec::new();
                    proof {
                        assert(v@ =~= Seq::<(usize, usize)>::empty());
                    }
                    v
                },
            }
        },
        SelectionKind::Line => match rows_span(rope, lo_row, hi_row) {
            Some(x) => {
                let mut v: Vec<(usize, usize)> = Vec::new();
                v.push(x);
                proof {
                    assert(v@ =~= seq![x]);
                }
                v
            },
            None => {
                let v: Vec<(usize, usize)> = Vec::new();
                proof {
                    assert(v@ =~= Seq::<(usize, usize)>::empty());
                }
                v
            },
        },
        SelectionKind::Block => block_spans(rope, lo_row, hi_row, lo_col, hi_col),
    }
}

/// What vim `d` with motion `m` removes, given where the motion starts
/// (`from`) and where it ends (`to`, found with the cursor free to stand
/// past a line's last char): a linewise motion removes the rows between the
/// two (see [`spec_rows_range`]); any other the chars between them, the
/// char at the end too for an inclusive motion (`e`, `E`) moving forward.
pub open spec fn spec_motion_span(s: Seq<char>, from: FilePos, to: FilePos, m: MoveKind) -> Option<
    (usize, usize),
> {
    if spec_is_linewise(m) {
        let lo = at_most(from.row as int, to.row as int);
        let hi = if from.row < to.row {
            to.row as int
        } else {
            from.row as int
        };
        let g = spec_rows_range(s, lo, hi);
        spec_clamp_span(s.len() as int, g.0, g.1)
    } else {
        let a = rope_line_start(s, from.row as int) + from.col;
        let b = rope_line_start(s, to.row as int) + to.col;
        if a <= b {
            spec_clamp_span(
                s.len() as int,
                a,
                if spec_is_inclusive(m) {
                    at_most(b + 1, s.len() as int)
                } else {
                    b
                },
            )
        } else {
            spec_clamp_span(s.len() as int, b, a)
        }
    }
}

/// See [`spec_motion_span`]. Both positions are on lines of the text, or
/// one past the last line, with char indices that fit.
pub fn motion_span(rope: &Rope, from: FilePos, to: FilePos, m: MoveKind) -> (r: Option<(usize, usize)>)
    requires
        from.row <= rope_line_count(rope_chars(*rope)),
        to.row <= rope_line_count(rope_chars(*rope)),
        rope_line_start(rope_chars(*rope), from.row as int) + from.col + 1 <= usize::MAX,
        rope_line_start(rope_chars(*rope), to.row as int) + to.col + 1 <= usize::MAX,
    ensures
        r == spec_motion_span(rope_chars(*rope), from, to, m),
{
    if m.is_linewise_motion() {
        let lo = if from.row < to.row {
            from.row
        } else {
            to.row
        };
        let hi = if from.row < to.row {
            to.row
        } else {
            from.row
        };
        return rows_span(rope, lo, hi);
    }
    let len = len_chars(rope);
    let a = line_to_char(rope, from.row) + from.col;
    let b = line_to_char(rope, to.row) + to.col;
    if a <= b {
        let e = if m.is_inclusive_motion() {
            if b + 1 < len {
                b + 1
            } else {
                len
            }
        } else {
            b
        };
        clamp_span(len, a, e)
    } else {
        clamp_span(len, b, a)
    }
}

/// What vim `r` with a count replaces at (`row`, `col`): up to `count`
/// chars (at least one) from the cursor, stopping at the line's end (its
/// final `\n` is never replaced). None when the cursor is at or past the
/// line's end. The cursor then lands on the last replaced char.
pub fn replace_span(rope: &Rope, row: usize, col: usize, count: u32) -> (r: Option<(usize, usize)>)
    requires
        row < rope_line_count(rope_chars(*rope)),
    ensures
        ({
            let s = rope_chars(*rope);
            let body = line_body_len(s, row as int);
            let n = if count == 0 {
                1int
            } else {
                count as int
            };
            let start = rope_line_start(s, row as int) + col;
            if col >= body {
                r is None
            } else {
                r == Some((start as usize, (start + at_most(n, body - col)) as usize))
            }
        }),
{
    let _n = len_chars(rope);
    let (start, _len, body) = line_extent(rope, row);
    if col >= body {
        return None;
    }
    let n: usize = if count == 0 {
        1
    } else {
        count as usize
    };
    let take = if n < body - col {
        n
    } else {
        body - col
    };
    Some((start + col, start + col + take))
}

/// Where a Replace-mode keystroke at (`row`, `col`) writes, and whether it
/// overwrites the char there (true) or, at or past the line's end, is
/// inserted (false).
pub fn overwrite_at(rope: &Rope, row: usize, col: usize) -> (r: (usize, bool))
    requires
        row < rope_line_count(rope_chars(*rope)),
        rope_line_start(rope_chars(*rope), row as int) + col <= rope_chars(*rope).len(),
    ensures
        r.0 == rope_line_start(rope_chars(*rope), row as int) + col,
        r.1 == (col < line_body_len(rope_chars(*rope), row as int)),
{
    let _n = len_chars(rope);
    let (start, _len, body) = line_extent(rope, row);
    (start + col, col < body)
}

/// The char a backspace at (`row`, `col`) removes, the one before the
/// cursor, and whether it is a line break (the cursor's line then joins the
/// one above). None at the start of the text, or with the cursor past its
/// end.
pub fn backspace_at(rope: &Rope, row: usize, col: usize) -> (r: Option<(usize, bool)>)
    requires
        row <= rope_line_count(rope_chars(*rope)),
        rope_line_start(rope_chars(*rope), row as int) + col <= usize::MAX,
    ensures
        ({
            let s = rope_chars(*rope);
            let c = rope_line_start(s, row as int) + col;
            if c == 0 || c > s.len() {
                r is None
            } else {
                r == Some(((c - 1) as usize, s[c - 1] == '\n'))
            }
        }),
{
    let _ = len_lines(rope);
    let c = line_to_char(rope, row) + col;
    if c == 0 || c > len_chars(rope) {
        return None;
    }
    Some((c - 1, crate::text::rope::char_at(rope, c - 1) == '\n'))
}

/// The char `x` deletes at `pos`: none when the row is past the text or
/// the column at or past the line's end (a line break is never deleted).
pub fn char_delete_at(rope: &Rope, pos: FilePos) -> (r: Option<usize>)
    ensures
        ({
            let s = rope_chars(*rope);
            if pos.row >= rope_line_count(s) || pos.col >= line_body_len(s, pos.row as int) {
                r is None
            } else {
                r == Some((rope_line_start(s, pos.row as int) + pos.col) as usize)
            }
        }),
{
    if pos.row >= len_lines(rope) {
        return None;
    }
    let _n = len_chars(rope);
    let (start, _len, body) = line_extent(rope, pos.row);
    if pos.col >= body {
        return None;
    }
    Some(start + pos.col)
}


/// Where vim `p` (`before` false) or `P` (`before` true) of a register
/// holding `text` of kind `kind` inserts with the cursor at (`row`, `col`),
/// what it inserts, and the row the cursor lands on. Whole lines go above
/// or below the cursor's row (below the last row: after its end, with a
/// line break first and the text's final `\n` dropped, so that no empty
/// line is left at the end); anything else goes at the cursor, or just
/// after the char under it. None for an empty register.
pub open spec fn spec_paste(s: Seq<char>, row: int, col: int, text: Seq<char>, kind: RegisterKind, before: bool) -> Option<
    (int, Seq<char>, int),
> {
    let start = rope_line_start(s, row);
    if text.len() == 0 {
        None
    } else if kind != RegisterKind::Line {
        Some(
            (
                if !before && col < line_body_len(s, row) {
                    start + col + 1
                } else {
                    start + col
                },
                text,
                row,
            ),
        )
    } else if before {
        Some((start, text, row))
    } else if row + 1 >= rope_line_count(s) {
        Some(
            (
                start + line_body_len(s, row),
                seq!['\n'] + if text.last() == '\n' {
                    text.drop_last()
                } else {
                    text
                },
                row + 1,
            ),
        )
    } else {
        Some((rope_line_start(s, row + 1), text, row + 1))
    }
}

/// See [`spec_paste`]: the char index to insert at, the text, and the row
/// the cursor lands on. The cursor is on a line of the text.
pub fn paste_edit(rope: &Rope, row: usize, col: usize, entry: &RegisterEntry, before: bool) -> (r: Option<
    (usize, String, usize),
>)
    requires
        row < rope_line_count(rope_chars(*rope)),
        rope_line_start(rope_chars(*rope), row as int) + col <= rope_chars(*rope).len(),
    ensures
        match spec_paste(rope_chars(*rope), row as int, col as int, entry.text@, entry.kind, before) {
            Some((at, t, land)) => r matches Some(x) && x.0 == at && x.1@ == t && x.2 == land,
            None => r is None,
        },
{
    let ghost s = rope_chars(*rope);
    let v = collect_chars(entry.text.as_str());
    if v.len() == 0 {
        return None;
    }
    let _n = len_chars(rope);
    let total = len_lines(rope);
    let (start, _len, body) = line_extent(rope, row);
    match entry.kind {
        RegisterKind::Line => {
            if before {
                Some((start, chars_to_string(&v), row))
            } else if row + 1 >= total {
                let keep = if v[v.len() - 1] == '\n' {
                    v.len() - 1
                } else {
                    v.len()
                };
                let mut out: Vec<char> = Vec::new();
                out.push('\n');
                let mut i: usize = 0;
                while i < keep
                    invariant
                        keep <= v@.len(),
                        i <= keep,
                        out@ == seq!['\n'] + v@.take(i as int),
                    decreases keep - i,
                {
                    out.push(v[i]);
                    i = i + 1;
                    proof {
                        assert(out@ =~= seq!['\n'] + v@.take(i as int));
                    }
                }
                proof {
                    if v@.last() == '\n' {
                        assert(v@.take(keep as int) =~= v@.drop_last());
                    } else {
                        assert(v@.take(keep as int) =~= v@);
                    }
                }
                Some((start + body, chars_to_string(&out), row + 1))
            } else {
                Some((line_to_char(rope, row + 1), chars_to_string(&v), row + 1))
            }
        },
        _ => {
            let at = if !before && col < body {
                start + col + 1
            } else {
                start + col
            };
            Some((at, chars_to_string(&v), row))
        },
    }
}

} // verus!
