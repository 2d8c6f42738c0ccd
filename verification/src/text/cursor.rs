//! Cursor movement over a rope: the step a [`MoveKind`] makes from a cursor
//! state, and the clamp that keeps the cursor on its line afterwards. The
//! cursor is kept as a viewport-relative position plus the scroll offset of
//! the viewport; the absolute position is their sum. What the viewport's
//! scroll logic decides (the visual row a vertical step lands on when lines
//! wrap, the half-page target, the centred top row, the scroll top after a
//! move) is handed in by the caller.

use vstd::prelude::*;

use ropey::Rope;

use crate::text::buffer::Position;
use crate::text::motions::{
    match_bracket, spec_match_bracket, spec_word_back_end, spec_word_back_start, spec_word_end,
    spec_word_forward, word_back_end, word_back_start, word_end, word_forward,
};
use crate::text::move_kind::{spec_with_count, MoveKind};
use crate::text::rope::{
    char_at, char_to_line, len_chars, len_lines, line_to_char, rope_chars, rope_line_count,
    rope_line_of, rope_line_start,
};

verus! {

/// Where a buffer's cursor is: `cursor` relative to the viewport's top-left
/// `file` position, the viewport's height in rows (0 when there is no
/// viewport), and whether the buffer is in Normal mode (where the cursor
/// may not sit past the line's last char).
#[derive(Debug, Clone, Copy, PartialEq, Eq, Structural)]
pub struct CursorState {
    pub cursor: Position<u16>,
    pub file: Position<usize>,
    pub viewport_rows: u16,
    pub normal_mode: bool,
}

/// What the viewport's scroll logic answers for one move: the row and
/// column a vertical step lands on when lines wrap (none without wrapping),
/// the half-page target row and column, and the top row that centres the
/// target row.
#[derive(Debug, Clone, Copy)]
pub struct ScrollAnswers {
    pub visual_step: Option<(usize, usize)>,
    pub page_target: (usize, Option<usize>),
    pub centered_top: usize,
}

/// The cursor's absolute row.
pub open spec fn abs_row(st: CursorState) -> int {
    st.file.row + st.cursor.row
}

/// The cursor's absolute column.
pub open spec fn abs_col(st: CursorState) -> int {
    st.file.col + st.cursor.col
}

/// The absolute position can be computed without overflow.
pub open spec fn fits(st: CursorState) -> bool {
    abs_row(st) <= usize::MAX && abs_col(st) <= usize::MAX
}

/// `x` saturated to `isize`.
pub open spec fn sat_isize(x: int) -> isize {
    if x > isize::MAX {
        isize::MAX
    } else if x < isize::MIN {
        isize::MIN
    } else {
        x as isize
    }
}

/// `x`, or 0 when negative, as a `usize`.
pub open spec fn nonneg(x: int) -> usize {
    if x < 0 {
        0
    } else {
        x as usize
    }
}

/// Scroll up to `row` when it is above the viewport, and put the cursor on
/// it.
pub open spec fn place_row(st: CursorState, row: usize) -> CursorState {
    let top = if row < st.file.row {
        row
    } else {
        st.file.row
    };
    CursorState {
        cursor: Position { col: st.cursor.col, row: (row - top) as u16 },
        file: Position { col: st.file.col, row: top },
        ..st
    }
}

/// Scroll left to `col` when it is left of the viewport, and put the cursor
/// on it.
pub open spec fn place_col(st: CursorState, col: usize) -> CursorState {
    let left = if col < st.file.col {
        col
    } else {
        st.file.col
    };
    CursorState {
        cursor: Position { col: (col - left) as u16, row: st.cursor.row },
        file: Position { col: left, row: st.file.row },
        ..st
    }
}

/// Put the viewport's top at `top` and the cursor on `row`.
pub open spec fn center_on(st: CursorState, row: usize, top: usize) -> CursorState {
    CursorState {
        cursor: Position { col: st.cursor.col, row: (row - top) as u16 },
        file: Position { col: st.file.col, row: top },
        ..st
    }
}

/// Chars on line `row` of `s`, its line break included.
pub open spec fn line_len(s: Seq<char>, row: int) -> int {
    rope_line_start(s, row + 1) - rope_line_start(s, row)
}

/// Chars on line `row` of `s` before a final `\n`.
pub open spec fn line_body_len(s: Seq<char>, row: int) -> int {
    let len = line_len(s, row);
    if len > 0 && s[rope_line_start(s, row + 1) - 1] == '\n' {
        len - 1
    } else {
        len
    }
}

/// ASCII whitespace: space, tab, line feed, form feed, carriage return.
pub open spec fn is_ascii_ws(c: char) -> bool {
    c == ' ' || c == '\t' || c == '\n' || c == '\x0C' || c == '\r'
}

/// From offset `i` of the `e` chars at `a`, the offset of the first char
/// that is not ASCII whitespace (`e` when there is none).
pub open spec fn ws_run(s: Seq<char>, a: int, i: int, e: int) -> int
    decreases e - i,
{
    if i < e && is_ascii_ws(s[a + i]) {
        ws_run(s, a, i + 1, e)
    } else {
        i
    }
}

/// Put the cursor on char index `cidx`.
pub open spec fn set_abs_char(s: Seq<char>, st: CursorState, cidx: int) -> CursorState {
    let row = rope_line_of(s, cidx);
    let col = cidx - rope_line_start(s, row);
    place_col(place_row(st, row as usize), col as usize)
}

/// The cursor's char index.
pub open spec fn cursor_char(s: Seq<char>, st: CursorState) -> int {
    rope_line_start(s, abs_row(st)) + abs_col(st)
}

/// A pure vertical step: a relative move by whole rows only.
pub open spec fn is_pure_vertical(m: MoveKind) -> bool {
    m matches MoveKind::Relative(p) && p.col == 0 && p.row != 0
}

/// The sticky column after move `m`: kept (or started at the current
/// column) through a run of pure vertical steps, dropped by anything else.
pub open spec fn next_goal(st: CursorState, goal: Option<usize>, m: MoveKind) -> Option<usize> {
    if is_pure_vertical(m) {
        Some(
            match goal {
                Some(g) => g,
                None => abs_col(st) as usize,
            },
        )
    } else {
        None
    }
}

/// The cursor after move `m`, before it is clamped.
pub open spec fn spec_step(
    s: Seq<char>,
    st: CursorState,
    goal: Option<usize>,
    m: MoveKind,
    ans: ScrollAnswers,
) -> CursorState {
    let g = next_goal(st, goal, m);
    match m {
        MoveKind::Relative(p) => {
            let dx = p.col;
            let dy = p.row;
            let src_col: usize = if dy != 0 {
                match g {
                    Some(x) => x,
                    None => abs_col(st) as usize,
                }
            } else {
                abs_col(st) as usize
            };
            let vt = if dy != 0 {
                ans.visual_step
            } else {
                None
            };
            let rc: (usize, usize) = match vt {
                Some((r, c)) => (r, nonneg((c as isize) + dx)),
                None => (
                    nonneg(sat_isize(sat_isize((st.cursor.row as isize) + (st.file.row as isize)) + dy) as int),
                    nonneg(sat_isize((src_col as isize) + dx) as int),
                ),
            };
            place_col(place_row(st, rc.0), rc.1)
        },
        MoveKind::LineStart => CursorState { cursor: Position { col: 0, row: st.cursor.row }, ..st },
        MoveKind::LineFirstNonBlank => {
            let row = abs_row(st);
            let e = line_body_len(s, row);
            let i = ws_run(s, rope_line_start(s, row), 0, e);
            CursorState {
                cursor: Position {
                    col: if i == e {
                        0
                    } else {
                        i as u16
                    },
                    row: st.cursor.row,
                },
                ..st
            }
        },
        MoveKind::LineEnd => CursorState {
            cursor: Position { col: line_len(s, abs_row(st)) as u16, row: st.cursor.row },
            ..st
        },
        MoveKind::FileStart => CursorState {
            cursor: Position { col: 0, row: 0 },
            file: Position { col: 0, row: 0 },
            ..st
        },
        MoveKind::FileEnd => CursorState {
            cursor: Position { col: st.cursor.col, row: (rope_line_count(s) - 1) as u16 },
            file: Position { col: st.file.col, row: 0 },
            ..st
        },
        MoveKind::WordStart => set_abs_char(s, st, spec_word_back_start(s, cursor_char(s, st), false)),
        MoveKind::WordForward => set_abs_char(s, st, spec_word_forward(s, cursor_char(s, st), false)),
        MoveKind::WordEnd => set_abs_char(s, st, spec_word_end(s, cursor_char(s, st), false)),
        MoveKind::WordBackEnd => set_abs_char(s, st, spec_word_back_end(s, cursor_char(s, st), false)),
        MoveKind::BigWordStart => set_abs_char(s, st, spec_word_back_start(s, cursor_char(s, st), true)),
        MoveKind::BigWordForward => set_abs_char(s, st, spec_word_forward(s, cursor_char(s, st), true)),
        MoveKind::BigWordEnd => set_abs_char(s, st, spec_word_end(s, cursor_char(s, st), true)),
        MoveKind::BigWordBackEnd => set_abs_char(s, st, spec_word_back_end(s, cursor_char(s, st), true)),
        MoveKind::MatchBracket => set_abs_char(s, st, spec_match_bracket(s, cursor_char(s, st))),
        MoveKind::Absolute(p) => CursorState {
            cursor: Position { col: 0, row: 0 },
            file: Position { col: p.col, row: p.row },
            ..st
        },
        MoveKind::LineNum(n) => {
            let last = rope_line_count(s) - 1;
            CursorState {
                cursor: Position {
                    col: st.cursor.col,
                    row: (if n < last {
                        n as int
                    } else {
                        last
                    }) as u16,
                },
                file: Position { col: st.file.col, row: 0 },
                ..st
            }
        },
        MoveKind::HalfPageDown | MoveKind::HalfPageUp => if st.viewport_rows == 0 {
            st
        } else {
            let c = center_on(st, ans.page_target.0, ans.centered_top);
            match ans.page_target.1 {
                Some(col) => place_col(c, col),
                None => c,
            }
        },
        MoveKind::Center => if st.viewport_rows == 0 {
            st
        } else {
            center_on(st, abs_row(st) as usize, ans.centered_top)
        },
    }
}

/// The row the clamp keeps the cursor on: its row, at most the last line.
pub open spec fn clamped_row(s: Seq<char>, st: CursorState) -> int {
    let last = rope_line_count(s) - 1;
    if abs_row(st) < last {
        abs_row(st)
    } else {
        last
    }
}

/// The last column the cursor may take on line `row`: the line's last char
/// in Normal mode, one past it otherwise.
pub open spec fn max_col(s: Seq<char>, row: int, normal: bool) -> int {
    let body = line_body_len(s, row);
    if normal {
        if body > 0 {
            body - 1
        } else {
            0
        }
    } else {
        body
    }
}

/// The column the clamp keeps the cursor on.
pub open spec fn clamped_col(s: Seq<char>, st: CursorState) -> int {
    let m = max_col(s, clamped_row(s, st), st.normal_mode);
    if abs_col(st) < m {
        abs_col(st)
    } else {
        m
    }
}

/// The clamp after a move: with a viewport, its top row becomes `top` (what
/// the scroll logic picks); the cursor moves onto the last line when past
/// it, and onto the line's last allowed column.
pub open spec fn spec_clamp(s: Seq<char>, st: CursorState, top: usize) -> CursorState {
    let row = clamped_row(s, st);
    let ftop: usize = if st.viewport_rows > 0 {
        top
    } else {
        st.file.row
    };
    let col = clamped_col(s, st);
    CursorState {
        cursor: Position {
            col: (if col > st.file.col {
                col - st.file.col
            } else {
                0
            }) as u16,
            row: (if row > ftop {
                row - ftop
            } else {
                0
            }) as u16,
        },
        file: Position { col: st.file.col, row: ftop },
        ..st
    }
}

/// The text's length leaves room for a cursor column past any line.
pub open spec fn rope_fits(s: Seq<char>) -> bool {
    s.len() <= isize::MAX
}

/// Motions that read the line or the char under the cursor.
pub open spec fn reads_text(m: MoveKind) -> bool {
    match m {
        MoveKind::LineFirstNonBlank | MoveKind::LineEnd | MoveKind::WordStart | MoveKind::WordForward
        | MoveKind::WordEnd | MoveKind::WordBackEnd | MoveKind::BigWordStart | MoveKind::BigWordForward
        | MoveKind::BigWordEnd | MoveKind::BigWordBackEnd | MoveKind::MatchBracket => true,
        _ => false,
    }
}

/// The cursor is on a line of `s`, at a char index inside the text.
pub open spec fn on_text(s: Seq<char>, st: CursorState) -> bool {
    &&& abs_row(st) < rope_line_count(s)
    &&& cursor_char(s, st) <= s.len()
}

/// What the scroll answers must satisfy for move `m` to be carried out: a
/// wrapped vertical step lands on a column that a step can be added to, and
/// a centred top row is not below the row it centres.
pub open spec fn answers_fit(st: CursorState, m: MoveKind, ans: ScrollAnswers) -> bool {
    &&& (m matches MoveKind::Relative(p) && p.row != 0 && ans.visual_step is Some) ==> {
        let c = ans.visual_step->Some_0.1;
        let dx = m->Relative_0.col;
        isize::MIN <= (c as isize) + dx <= isize::MAX
    }
    &&& (st.viewport_rows > 0 && (m is HalfPageDown || m is HalfPageUp)) ==> ans.centered_top
        <= ans.page_target.0
    &&& (st.viewport_rows > 0 && m is Center) ==> ans.centered_top <= abs_row(st)
}

fn sat_add_isize(a: isize, b: isize) -> (r: isize)
    ensures
        r == sat_isize(a + b),
{
    if b > 0 && a > isize::MAX - b {
        isize::MAX
    } else if b < 0 && a < isize::MIN - b {
        isize::MIN
    } else {
        a + b
    }
}

fn ascii_ws_exec(c: char) -> (b: bool)
    ensures
        b == is_ascii_ws(c),
{
    c == ' ' || c == '\t' || c == '\n' || c == '\x0C' || c == '\r'
}

fn nonneg_exec(x: isize) -> (r: usize)
    ensures
        r == nonneg(x as int),
{
    if x < 0 {
        0
    } else {
        x as usize
    }
}

fn place_row_exec(st: CursorState, row: usize) -> (r: CursorState)
    ensures
        r == place_row(st, row),
{
    let top = if row < st.file.row {
        row
    } else {
        st.file.row
    };
    CursorState {
        cursor: Position { col: st.cursor.col, row: (row - top) as u16 },
        file: Position { col: st.file.col, row: top },
        viewport_rows: st.viewport_rows,
        normal_mode: st.normal_mode,
    }
}

fn place_col_exec(st: CursorState, col: usize) -> (r: CursorState)
    ensures
        r == place_col(st, col),
{
    let left = if col < st.file.col {
        col
    } else {
        st.file.col
    };
    CursorState {
        cursor: Position { col: (col - left) as u16, row: st.cursor.row },
        file: Position { col: left, row: st.file.row },
        viewport_rows: st.viewport_rows,
        normal_mode: st.normal_mode,
    }
}

/// Start of line `row` and the chars on it (with and without its final
/// `\n`).
pub(crate) fn line_extent(rope: &Rope, row: usize) -> (r: (usize, usize, usize))
    requires
        row < rope_line_count(rope_chars(*rope)),
    ensures
        r.0 == rope_line_start(rope_chars(*rope), row as int),
        r.1 == line_len(rope_chars(*rope), row as int),
        r.2 == line_body_len(rope_chars(*rope), row as int),
        r.0 + r.1 <= rope_chars(*rope).len(),
        r.2 <= r.1,
{
    let _n = len_lines(rope);
    let a = line_to_char(rope, row);
    let b = line_to_char(rope, row + 1);
    let len = b - a;
    let body = if len > 0 && char_at(rope, b - 1) == '\n' {
        len - 1
    } else {
        len
    };
    (a, len, body)
}

fn set_abs_char_exec(rope: &Rope, st: CursorState, cidx: usize) -> (r: CursorState)
    requires
        cidx <= rope_chars(*rope).len(),
    ensures
        r == set_abs_char(rope_chars(*rope), st, cidx as int),
        abs_row(r) <= rope_line_of(rope_chars(*rope), cidx as int),
        abs_col(r) <= cidx,
{
    let row = char_to_line(rope, cidx);
    let col = cidx - line_to_char(rope, row);
    place_col_exec(place_row_exec(st, row), col)
}

/// The step move `m` makes from `st` with sticky column `goal`, before the
/// clamp; and the sticky column after it.
pub fn step_cursor(rope: &Rope, st: CursorState, goal: Option<usize>, m: MoveKind, ans: ScrollAnswers) -> (r: (
    CursorState,
    Option<usize>,
))
    requires
        rope_fits(rope_chars(*rope)),
        fits(st),
        reads_text(m) ==> on_text(rope_chars(*rope), st),
        answers_fit(st, m, ans),
    ensures
        r.0 == spec_step(rope_chars(*rope), st, goal, m, ans),
        r.1 == next_goal(st, goal, m),
        fits(r.0),
        r.0.viewport_rows == st.viewport_rows,
        r.0.normal_mode == st.normal_mode,
{
    let ghost s = rope_chars(*rope);
    let arow = st.file.row + st.cursor.row as usize;
    let acol = st.file.col + st.cursor.col as usize;
    let g = match m {
        MoveKind::Relative(p) => if p.col == 0 && p.row != 0 {
            Some(
                match goal {
                    Some(x) => x,
                    None => acol,
                },
            )
        } else {
            None
        },
        _ => None,
    };
    let out = match m {
        MoveKind::Relative(p) => {
            let dx = p.col;
            let dy = p.row;
            let src_col: usize = if dy != 0 {
                match g {
                    Some(x) => x,
                    None => acol,
                }
            } else {
                acol
            };
            let vt = if dy != 0 {
                ans.visual_step
            } else {
                None
            };
            let (r, c) = match vt {
                Some((r, c)) => (r, nonneg_exec(c as isize + dx as isize)),
                None => {
                    let r1 = sat_add_isize(st.cursor.row as isize, st.file.row as isize);
                    let r2 = sat_add_isize(r1, dy as isize);
                    let c1 = sat_add_isize(src_col as isize, dx as isize);
                    (nonneg_exec(r2), nonneg_exec(c1))
                },
            };
            place_col_exec(place_row_exec(st, r), c)
        },
        MoveKind::LineStart => CursorState {
            cursor: Position { col: 0, row: st.cursor.row },
            file: st.file,
            viewport_rows: st.viewport_rows,
            normal_mode: st.normal_mode,
        },
        MoveKind::LineFirstNonBlank => {
            let (a, _len, e) = line_extent(rope, arow);
            let mut i: usize = 0;
            while i < e && ascii_ws_exec(char_at(rope, a + i))
                invariant
                    s == rope_chars(*rope),
                    a + e <= s.len(),
                    s.len() <= isize::MAX,
                    i <= e,
                    ws_run(s, a as int, i as int, e as int) == ws_run(s, a as int, 0, e as int),
                decreases e - i,
            {
                i = i + 1;
            }
            CursorState {
                cursor: Position {
                    col: if i == e {
                        0
                    } else {
                        i as u16
                    },
                    row: st.cursor.row,
                },
                file: st.file,
                viewport_rows: st.viewport_rows,
                normal_mode: st.normal_mode,
            }
        },
        MoveKind::LineEnd => {
            let (_a, len, _e) = line_extent(rope, arow);
            CursorState {
                cursor: Position { col: len as u16, row: st.cursor.row },
                file: st.file,
                viewport_rows: st.viewport_rows,
                normal_mode: st.normal_mode,
            }
        },
        MoveKind::FileStart => CursorState {
            cursor: Position { col: 0, row: 0 },
            file: Position { col: 0, row: 0 },
            viewport_rows: st.viewport_rows,
            normal_mode: st.normal_mode,
        },
        MoveKind::FileEnd => {
            let last = len_lines(rope) - 1;
            CursorState {
                cursor: Position { col: st.cursor.col, row: last as u16 },
                file: Position { col: st.file.col, row: 0 },
                viewport_rows: st.viewport_rows,
                normal_mode: st.normal_mode,
            }
        },
        MoveKind::WordStart | MoveKind::BigWordStart | MoveKind::WordForward
        | MoveKind::BigWordForward | MoveKind::WordEnd | MoveKind::BigWordEnd
        | MoveKind::WordBackEnd | MoveKind::BigWordBackEnd | MoveKind::MatchBracket => {
            let cidx = line_to_char(rope, arow) + acol;
            let big = match m {
                MoveKind::BigWordStart | MoveKind::BigWordForward | MoveKind::BigWordEnd
                | MoveKind::BigWordBackEnd => true,
                _ => false,
            };
            let target = match m {
                MoveKind::WordStart | MoveKind::BigWordStart => word_back_start(rope, cidx, big),
                MoveKind::WordForward | MoveKind::BigWordForward => word_forward(rope, cidx, big),
                MoveKind::WordEnd | MoveKind::BigWordEnd => word_end(rope, cidx, big),
                MoveKind::WordBackEnd | MoveKind::BigWordBackEnd => word_back_end(rope, cidx, big),
                _ => match_bracket(rope, cidx, false),
            };
            set_abs_char_exec(rope, st, target)
        },
        MoveKind::Absolute(p) => CursorState {
            cursor: Position { col: 0, row: 0 },
            file: Position { col: p.col, row: p.row },
            viewport_rows: st.viewport_rows,
            normal_mode: st.normal_mode,
        },
        MoveKind::LineNum(n) => {
            let last = len_lines(rope) - 1;
            let row = if n < last {
                n
            } else {
                last
            };
            CursorState {
                cursor: Position { col: st.cursor.col, row: row as u16 },
                file: Position { col: st.file.col, row: 0 },
                viewport_rows: st.viewport_rows,
                normal_mode: st.normal_mode,
            }
        },
        MoveKind::HalfPageDown | MoveKind::HalfPageUp => if st.viewport_rows == 0 {
            st
        } else {
            let (trow, tcol) = ans.page_target;
            let c = CursorState {
                cursor: Position { col: st.cursor.col, row: (trow - ans.centered_top) as u16 },
                file: Position { col: st.file.col, row: ans.centered_top },
                viewport_rows: st.viewport_rows,
                normal_mode: st.normal_mode,
            };
            match tcol {
                Some(col) => place_col_exec(c, col),
                None => c,
            }
        },
        MoveKind::Center => if st.viewport_rows == 0 {
            st
        } else {
            CursorState {
                cursor: Position { col: st.cursor.col, row: (arow - ans.centered_top) as u16 },
                file: Position { col: st.file.col, row: ans.centered_top },
                viewport_rows: st.viewport_rows,
                normal_mode: st.normal_mode,
            }
        },
    };
    (out, g)
}

/// Clamp the cursor after a move: onto the last line when past it, and onto
/// the line's last allowed column (the last char in Normal mode). With a
/// viewport, its top row becomes `top`, the row the scroll logic picks for
/// the moved cursor; without one, `top` is not read.
pub fn clamp_cursor(rope: &Rope, st: CursorState, top: usize) -> (r: CursorState)
    requires
        rope_fits(rope_chars(*rope)),
        fits(st),
    ensures
        r == spec_clamp(rope_chars(*rope), st, top),
        fits(r),
        clamped_row(rope_chars(*rope), st) < rope_line_count(rope_chars(*rope)),
        clamped_col(rope_chars(*rope), st) <= max_col(
            rope_chars(*rope),
            clamped_row(rope_chars(*rope), st),
            st.normal_mode,
        ),
        r.file.row <= clamped_row(rope_chars(*rope), st) && clamped_row(rope_chars(*rope), st)
            - r.file.row <= u16::MAX ==> abs_row(r) == clamped_row(rope_chars(*rope), st),
        r.file.col <= clamped_col(rope_chars(*rope), st) && clamped_col(rope_chars(*rope), st)
            - r.file.col <= u16::MAX ==> abs_col(r) == clamped_col(rope_chars(*rope), st),
{
    let arow = st.file.row + st.cursor.row as usize;
    let last = len_lines(rope) - 1;
    let row = if arow < last {
        arow
    } else {
        last
    };
    let ftop = if st.viewport_rows > 0 {
        top
    } else {
        st.file.row
    };
    let crow: u16 = (if row > ftop {
        row - ftop
    } else {
        0
    }) as u16;
    let (_a, _len, body) = line_extent(rope, row);
    let maxc = if st.normal_mode {
        if body > 0 {
            body - 1
        } else {
            0
        }
    } else {
        body
    };
    let acol = st.file.col + st.cursor.col as usize;
    let col = if acol < maxc {
        acol
    } else {
        maxc
    };
    let ccol: u16 = (if col > st.file.col {
        col - st.file.col
    } else {
        0
    }) as u16;
    CursorState {
        cursor: Position { col: ccol, row: crow },
        file: Position { col: st.file.col, row: ftop },
        viewport_rows: st.viewport_rows,
        normal_mode: st.normal_mode,
    }
}

/// Move the cursor by `m` and clamp it (see [`step_cursor`] and
/// [`clamp_cursor`]); `top` is the viewport's top row the scroll logic
/// picks for the moved cursor. Returns the cursor and the sticky column.
pub fn move_cursor(
    rope: &Rope,
    st: CursorState,
    goal: Option<usize>,
    m: MoveKind,
    ans: ScrollAnswers,
    top: usize,
) -> (r: (CursorState, Option<usize>))
    requires
        rope_fits(rope_chars(*rope)),
        fits(st),
        reads_text(m) ==> on_text(rope_chars(*rope), st),
        answers_fit(st, m, ans),
    ensures
        r.0 == spec_clamp(rope_chars(*rope), spec_step(rope_chars(*rope), st, goal, m, ans), top),
        r.1 == next_goal(st, goal, m),
        fits(r.0),
        r.0.viewport_rows == st.viewport_rows,
        r.0.normal_mode == st.normal_mode,
{
    let (stepped, g) = step_cursor(rope, st, goal, m, ans);
    (clamp_cursor(rope, stepped, top), g)
}


/// The scroll answers without wrapping and without a viewport, where none of
/// them is read.
pub open spec fn no_scroll() -> ScrollAnswers {
    ScrollAnswers { visual_step: None, page_target: (0, None), centered_top: 0 }
}

/// One move `m` without a viewport or wrapping.
pub open spec fn spec_move_plain(s: Seq<char>, st: CursorState, goal: Option<usize>, m: MoveKind) -> (
    CursorState,
    Option<usize>,
) {
    (spec_clamp(s, spec_step(s, st, goal, m, no_scroll()), 0), next_goal(st, goal, m))
}

/// Move `m` made `n` times in a row without a viewport or wrapping.
pub open spec fn spec_move_times(
    s: Seq<char>,
    st: CursorState,
    goal: Option<usize>,
    m: MoveKind,
    n: nat,
) -> (CursorState, Option<usize>)
    decreases n,
{
    if n == 0 {
        (st, goal)
    } else {
        let next = spec_move_plain(s, st, goal, m);
        spec_move_times(s, next.0, next.1, m, (n - 1) as nat)
    }
}

/// Each of the `n` moves starts from a state it can be made from: a text
/// motion needs the cursor on the text (elsewhere the rope lookup fails).
pub open spec fn moves_ok(s: Seq<char>, st: CursorState, goal: Option<usize>, m: MoveKind, n: nat) -> bool
    decreases n,
{
    if n == 0 {
        true
    } else {
        &&& (reads_text(m) ==> on_text(s, st))
        &&& {
            let next = spec_move_plain(s, st, goal, m);
            moves_ok(s, next.0, next.1, m, (n - 1) as nat)
        }
    }
}

/// Move `m` with a count prefix, without a viewport or wrapping: a relative
/// step is scaled once by the count, any other motion repeated (a count of
/// 0 meaning 1).
pub fn move_cursor_n(rope: &Rope, st: CursorState, goal: Option<usize>, m: MoveKind, count: u32) -> (r: (
    CursorState,
    Option<usize>,
))
    requires
        rope_fits(rope_chars(*rope)),
        fits(st),
        st.viewport_rows == 0,
        moves_ok(
            rope_chars(*rope),
            st,
            goal,
            spec_with_count(m, count).0,
            spec_with_count(m, count).1 as nat,
        ),
    ensures
        r == spec_move_times(
            rope_chars(*rope),
            st,
            goal,
            spec_with_count(m, count).0,
            spec_with_count(m, count).1 as nat,
        ),
{
    let ghost s = rope_chars(*rope);
    let (m2, reps) = m.with_count(count);
    let ans = ScrollAnswers { visual_step: None, page_target: (0, None), centered_top: 0 };
    let mut cur = st;
    let mut g = goal;
    let mut k: u32 = 0;
    while k < reps
        invariant
            s == rope_chars(*rope),
            rope_fits(s),
            fits(cur),
            cur.viewport_rows == 0,
            k <= reps,
            ans == no_scroll(),
            moves_ok(s, cur, g, m2, (reps - k) as nat),
            spec_move_times(s, cur, g, m2, (reps - k) as nat) == spec_move_times(
                s,
                st,
                goal,
                m2,
                reps as nat,
            ),
        decreases reps - k,
    {
        let (next, g2) = move_cursor(rope, cur, g, m2, ans, 0);
        cur = next;
        g = g2;
        k = k + 1;
    }
    (cur, g)
}


fn reads_text_exec(m: MoveKind) -> (b: bool)
    ensures
        b == reads_text(m),
{
    match m {
        MoveKind::LineFirstNonBlank | MoveKind::LineEnd | MoveKind::WordStart | MoveKind::WordForward
        | MoveKind::WordEnd | MoveKind::WordBackEnd | MoveKind::BigWordStart | MoveKind::BigWordForward
        | MoveKind::BigWordEnd | MoveKind::BigWordBackEnd | MoveKind::MatchBracket => true,
        _ => false,
    }
}

fn answers_fit_exec(st: CursorState, m: MoveKind, ans: ScrollAnswers) -> (b: bool)
    requires
        fits(st),
    ensures
        b == answers_fit(st, m, ans),
{
    match m {
        MoveKind::Relative(p) => {
            if p.row == 0 {
                true
            } else {
                match ans.visual_step {
                    Some((_, c)) => (c as isize).checked_add(p.col as isize).is_some(),
                    None => true,
                }
            }
        },
        MoveKind::HalfPageDown | MoveKind::HalfPageUp => st.viewport_rows == 0 || ans.centered_top
            <= ans.page_target.0,
        MoveKind::Center => st.viewport_rows == 0 || ans.centered_top <= st.file.row
            + st.cursor.row as usize,
        _ => true,
    }
}

/// Whether the rope and the cursor state leave room for a move: the text
/// fits a cursor column and the absolute position can be computed.
fn room_to_move(rope: &Rope, st: CursorState) -> (b: bool)
    ensures
        b == (rope_fits(rope_chars(*rope)) && fits(st)),
{
    len_chars(rope) <= isize::MAX as usize && st.file.row <= usize::MAX - st.cursor.row as usize
        && st.file.col <= usize::MAX - st.cursor.col as usize
}

/// Whether the cursor is on a line of the rope, at a char inside the text.
fn cursor_on_text(rope: &Rope, st: CursorState) -> (b: bool)
    requires
        fits(st),
    ensures
        b == on_text(rope_chars(*rope), st),
{
    let row = st.file.row + st.cursor.row as usize;
    if row >= len_lines(rope) {
        return false;
    }
    let start = line_to_char(rope, row);
    st.file.col + st.cursor.col as usize <= len_chars(rope) - start
}

/// [`move_cursor`] where its conditions are tested first: `None` when the
/// text is too long for a cursor column, the cursor's absolute position
/// overflows, a text motion starts off the text, or the scroll answers do
/// not fit the move.
pub fn try_move_cursor(
    rope: &Rope,
    st: CursorState,
    goal: Option<usize>,
    m: MoveKind,
    ans: ScrollAnswers,
    top: usize,
) -> (r: Option<(CursorState, Option<usize>)>)
    ensures
        r is Some <==> {
            &&& rope_fits(rope_chars(*rope))
            &&& fits(st)
            &&& reads_text(m) ==> on_text(rope_chars(*rope), st)
            &&& answers_fit(st, m, ans)
        },
        r matches Some(x) ==> x == (
            spec_clamp(rope_chars(*rope), spec_step(rope_chars(*rope), st, goal, m, ans), top),
            next_goal(st, goal, m),
        ),
{
    if !room_to_move(rope, st) {
        return None;
    }
    if reads_text_exec(m) && !cursor_on_text(rope, st) {
        return None;
    }
    if !answers_fit_exec(st, m, ans) {
        return None;
    }
    Some(move_cursor(rope, st, goal, m, ans, top))
}

/// [`move_cursor_n`] where its conditions are tested first, before each of
/// the moves: `None` when there is a viewport, the text is too long for a
/// cursor column, the cursor's absolute position overflows, or a text
/// motion would start off the text.
pub fn try_move_cursor_n(rope: &Rope, st: CursorState, goal: Option<usize>, m: MoveKind, count: u32) -> (r:
    Option<(CursorState, Option<usize>)>)
    ensures
        r is Some <==> {
            &&& rope_fits(rope_chars(*rope))
            &&& fits(st)
            &&& st.viewport_rows == 0
            &&& moves_ok(
                rope_chars(*rope),
                st,
                goal,
                spec_with_count(m, count).0,
                spec_with_count(m, count).1 as nat,
            )
        },
        r matches Some(x) ==> x == spec_move_times(
            rope_chars(*rope),
            st,
            goal,
            spec_with_count(m, count).0,
            spec_with_count(m, count).1 as nat,
        ),
{
    let ghost s = rope_chars(*rope);
    if !room_to_move(rope, st) || st.viewport_rows != 0 {
        return None;
    }
    let (m2, reps) = m.with_count(count);
    let ans = ScrollAnswers { visual_step: None, page_target: (0, None), centered_top: 0 };
    let text_move = reads_text_exec(m2);
    let mut cur = st;
    let mut g = goal;
    let mut k: u32 = 0;
    while k < reps
        invariant
            s == rope_chars(*rope),
            rope_fits(s),
            fits(cur),
            cur.viewport_rows == 0,
            k <= reps,
            ans == no_scroll(),
            text_move == reads_text(m2),
            (m2, reps) == spec_with_count(m, count),
            moves_ok(s, st, goal, m2, reps as nat) == moves_ok(s, cur, g, m2, (reps - k) as nat),
            spec_move_times(s, cur, g, m2, (reps - k) as nat) == spec_move_times(
                s,
                st,
                goal,
                m2,
                reps as nat,
            ),
        decreases reps - k,
    {
        if text_move && !cursor_on_text(rope, cur) {
            proof {
                let n = (reps - k) as nat;
                assert(n > 0);
                assert(!moves_ok(s, cur, g, m2, n));
            }
            return None;
        }
        let (next, g2) = move_cursor(rope, cur, g, m2, ans, 0);
        cur = next;
        g = g2;
        k = k + 1;
    }
    Some((cur, g))
}


proof fn lemma_ws_run(s: Seq<char>, a: int, i: int, e: int)
    requires
        0 <= i <= e,
    ensures
        i <= ws_run(s, a, i, e) <= e,
        ws_run(s, a, i, e) < e ==> !is_ascii_ws(s[a + ws_run(s, a, i, e)]),
        forall|j: int| i <= j < ws_run(s, a, i, e) ==> is_ascii_ws(#[trigger] s[a + j]),
    decreases e - i,
{
    if i < e && is_ascii_ws(s[a + i]) {
        lemma_ws_run(s, a, i + 1, e);
    }
}

/// Vim `^`: on a line with a char that is not ASCII whitespace (space,
/// tab, line feed, form feed, carriage return), the cursor goes to the
/// first such char, every char before it on the line being ASCII
/// whitespace; on a blank line it goes to column 0. The row and the
/// viewport stay.
pub proof fn law_first_non_blank(s: Seq<char>, st: CursorState, goal: Option<usize>, ans: ScrollAnswers)
    requires
        line_body_len(s, abs_row(st)) <= u16::MAX,
    ensures
        ({
            let r = spec_step(s, st, goal, MoveKind::LineFirstNonBlank, ans);
            let a = rope_line_start(s, abs_row(st));
            let e = line_body_len(s, abs_row(st));
            let c = r.cursor.col as int;
            let blank = |ch: char| ch == ' ' || ch == '\t' || ch == '\n' || ch == '\x0C' || ch == '\r';
            &&& r.cursor.row == st.cursor.row
            &&& r.file == st.file
            &&& (exists|j: int| 0 <= j < e && !blank(#[trigger] s[a + j])) ==> {
                &&& 0 <= c < e
                &&& !blank(s[a + c])
                &&& forall|j: int| 0 <= j < c ==> blank(#[trigger] s[a + j])
            }
            &&& (forall|j: int| 0 <= j < e ==> blank(#[trigger] s[a + j])) ==> c == 0
        }),
{
    let row = abs_row(st);
    let a = rope_line_start(s, row);
    let e = line_body_len(s, row);
    if e >= 0 {
        lemma_ws_run(s, a, 0, e);
    }
    let w = ws_run(s, a, 0, e);
    if exists|j: int| 0 <= j < e && !is_ascii_ws(#[trigger] s[a + j]) {
        let j0 = choose|j: int| 0 <= j < e && !is_ascii_ws(#[trigger] s[a + j]);
        assert(w < e);
    }
}


/// The last column the cursor may take on a line with text `l` (its line
/// break included): its last char before a final line feed in Normal mode,
/// one past it otherwise; 0 on an empty line.
pub open spec fn last_allowed_col(l: Seq<char>, normal: bool) -> int {
    let chars: int = if l.len() > 0 && l.last() == '\n' {
        l.len() - 1
    } else {
        l.len() as int
    };
    if normal && chars > 0 {
        chars - 1
    } else {
        chars
    }
}

/// The text of line `row` of `s`, its line break included.
pub open spec fn line_text(s: Seq<char>, row: int) -> Seq<char> {
    s.subrange(rope_line_start(s, row), rope_line_start(s, row + 1))
}

/// Without a viewport or scrolling, the clamp moves the cursor onto the
/// last line when it is past it, and onto the last column the line allows
/// (see [`last_allowed_col`]) when it is past that.
pub proof fn law_clamp_onto_the_text(s: Seq<char>, st: CursorState, top: usize)
    requires
        st.viewport_rows == 0,
        st.file == (Position { col: 0usize, row: 0usize }),
        rope_line_count(s) >= 1,
    ensures
        ({
            let r = spec_clamp(s, st, top);
            let last = rope_line_count(s) - 1;
            let row = if st.cursor.row < last {
                st.cursor.row as int
            } else {
                last
            };
            let m = last_allowed_col(line_text(s, row), st.normal_mode);
            &&& r.file == st.file
            &&& r.cursor.row == row
            &&& r.cursor.col == (if st.cursor.col < m {
                st.cursor.col as int
            } else {
                m
            })
        }),
{
    let last = rope_line_count(s) - 1;
    let row = clamped_row(s, st);
    crate::text::rope::lemma_line_start(s, row);
    crate::text::rope::lemma_line_start(s, row + 1);
    let l = line_text(s, row);
    assert(l.len() == line_len(s, row));
    if l.len() > 0 {
        assert(l.last() == s[rope_line_start(s, row + 1) - 1]);
    }
}

/// Without a viewport or scrolling (and with lines short enough for a
/// screen column): `0` goes to column 0, `$` to the last column the line
/// allows, `gg` to the first line, `G` to the last line and `:N` to line
/// `N` (the last line when past it), each then clamped onto the text.
pub proof fn law_line_motions(s: Seq<char>, st: CursorState, goal: Option<usize>, m: MoveKind, ans: ScrollAnswers)
    requires
        st.viewport_rows == 0,
        st.file == (Position { col: 0usize, row: 0usize }),
        rope_line_count(s) - 1 <= u16::MAX,
        forall|row: int| 0 <= row < rope_line_count(s) ==> #[trigger] line_len(s, row) <= u16::MAX,
        m == MoveKind::LineStart || m == MoveKind::LineEnd || m == MoveKind::FileStart || m
            == MoveKind::FileEnd || m is LineNum,
    ensures
        ({
            let r = spec_clamp(s, spec_step(s, st, goal, m, ans), 0);
            let last = rope_line_count(s) - 1;
            let row = if st.cursor.row < last {
                st.cursor.row as int
            } else {
                last
            };
            let lim = |k: int| last_allowed_col(line_text(s, k), st.normal_mode);
            let keep = |k: int| if st.cursor.col < lim(k) {
                st.cursor.col as int
            } else {
                lim(k)
            };
            &&& m == MoveKind::LineStart ==> r.cursor.row == row && r.cursor.col == 0
            &&& m == MoveKind::LineEnd && st.cursor.row <= last ==> r.cursor.row == row && r.cursor.col == lim(
                row,
            )
            &&& m == MoveKind::FileStart ==> r.cursor.row == 0 && r.cursor.col == 0
            &&& m == MoveKind::FileEnd ==> r.cursor.row == last && r.cursor.col == keep(last)
            &&& (m matches MoveKind::LineNum(n) ==> {
                let t = if n < last {
                    n as int
                } else {
                    last
                };
                r.cursor.row == t && r.cursor.col == keep(t)
            })
            &&& r.file == st.file
        }),
{
    let stepped = spec_step(s, st, goal, m, ans);
    crate::text::rope::lemma_line_of(s, 0);
    let last = rope_line_count(s) - 1;
    law_clamp_onto_the_text(s, stepped, 0);
    let r = spec_clamp(s, stepped, 0);
    match m {
        MoveKind::LineEnd => {
            if st.cursor.row <= last {
                assert(line_len(s, abs_row(st)) <= u16::MAX);
                crate::text::rope::lemma_line_start(s, abs_row(st));
                crate::text::rope::lemma_line_start(s, abs_row(st) + 1);
                assert(stepped.cursor.col == line_len(s, abs_row(st)));
                assert(line_text(s, abs_row(st)).len() == line_len(s, abs_row(st)));
            }
        },
        MoveKind::LineNum(n) => {
            assert(stepped.cursor.row == (if n < last {
                n as int
            } else {
                last
            }));
        },
        _ => {},
    }
}


/// `h` `j` `k` `l` and other relative steps, without a viewport or
/// wrapping: the cursor moves by the step (not above the first row or left
/// of the first column) and is clamped onto the text; a purely vertical
/// step starts from the sticky column when there is one. A purely vertical step
/// keeps the sticky column (starting it at the current column); any other
/// step drops it.
pub proof fn law_relative_step(s: Seq<char>, st: CursorState, goal: Option<usize>, p: Position<i16>, ans: ScrollAnswers)
    requires
        st.viewport_rows == 0,
        st.file == (Position { col: 0usize, row: 0usize }),
        p.row == 0 || ans.visual_step is None,
        rope_line_count(s) >= 1,
        st.cursor.row + p.row <= u16::MAX,
        p.row != 0 && p.col == 0 && goal is Some ==> goal->Some_0 <= u16::MAX,
        st.cursor.col + p.col <= u16::MAX,
    ensures
        ({
            let m = MoveKind::Relative(p);
            let r = spec_clamp(s, spec_step(s, st, goal, m, ans), 0);
            let last = rope_line_count(s) - 1;
            let src: int = if p.row != 0 && p.col == 0 && goal is Some {
                goal->Some_0 as int
            } else {
                st.cursor.col as int
            };
            let trow: int = if st.cursor.row + p.row < 0 {
                0
            } else {
                st.cursor.row + p.row
            };
            let tcol: int = if src + p.col < 0 {
                0
            } else {
                src + p.col
            };
            let row = if trow < last {
                trow
            } else {
                last
            };
            let lim = last_allowed_col(line_text(s, row), st.normal_mode);
            &&& r.cursor.row == row
            &&& r.cursor.col == (if tcol < lim {
                tcol
            } else {
                lim
            })
            &&& r.file == st.file
            &&& next_goal(st, goal, m) == (if p.col == 0 && p.row != 0 {
                Some(src as usize)
            } else {
                None::<usize>
            })
        }),
{
    let m = MoveKind::Relative(p);
    let stepped = spec_step(s, st, goal, m, ans);
    assert(stepped.file == st.file);
    law_clamp_onto_the_text(s, stepped, 0);
}

} // verus!
