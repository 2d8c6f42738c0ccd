//! Linewise yank: the whole lines a `yy` / `Nyy` copies.

use vstd::prelude::*;

use ropey::Rope;

use crate::registers::RegisterKind;
use crate::strs::string_push;
use crate::text::rope::{
    char_at, len_chars, len_lines, line_to_char, rope_chars, rope_line_count, rope_line_start,
    slice_to_string,
};

verus! {

/// The text of lines `row ..= row + count - 1` of `s` (at least one line,
/// both ends clamped to the last line), ending in a newline; none when
/// that span is empty.
pub open spec fn spec_yank_line(s: Seq<char>, row: int, count: int) -> Option<Seq<char>> {
    let n = if count < 1 {
        1
    } else {
        count
    };
    let total = rope_line_count(s);
    if total <= 0 {
        None
    } else {
        let last = total - 1;
        let start_row = if row < last {
            row
        } else {
            last
        };
        let end_row = if start_row + n - 1 < last {
            start_row + n - 1
        } else {
            last
        };
        let a = rope_line_start(s, start_row);
        let b = if end_row + 1 >= total {
            s.len() as int
        } else {
            rope_line_start(s, end_row + 1)
        };
        if a >= b {
            None
        } else {
            let t = s.subrange(a, b);
            Some(
                if t.last() == '\n' {
                    t
                } else {
                    t.push('\n')
                },
            )
        }
    }
}

/// Linewise yank of `count` whole lines from `row` (vim `yy` / `Nyy`,
/// count 0 meaning 1). The text always ends in a newline, so a paste can
/// rely on the linewise shape.
pub fn yank_line(rope: &Rope, row: usize, count: u32) -> (r: Option<(String, RegisterKind)>)
    ensures
        match r {
            Some((text, kind)) => kind == RegisterKind::Line && spec_yank_line(
                rope_chars(*rope),
                row as int,
                count as int,
            ) == Some(text@),
            None => spec_yank_line(rope_chars(*rope), row as int, count as int) is None,
        },
        r matches Some((text, _)) ==> text@.len() > 0 && text@.last() == '\n',
{
    let ghost s = rope_chars(*rope);
    let n: u32 = if count < 1 {
        1
    } else {
        count
    };
    let total = len_lines(rope);
    let last = total - 1;
    let start_row = if row < last {
        row
    } else {
        last
    };
    let end_row = if (n - 1) as usize >= last - start_row {
        last
    } else {
        start_row + (n - 1) as usize
    };
    let a = line_to_char(rope, start_row);
    let b = if end_row + 1 >= total {
        len_chars(rope)
    } else {
        line_to_char(rope, end_row + 1)
    };
    if a >= b {
        return None;
    }
    let mut text = slice_to_string(rope, a, b);
    if char_at(rope, b - 1) != '\n' {
        string_push(&mut text, '\n');
    }
    proof {
        assert(s.subrange(a as int, b as int).last() == s[b - 1]);
    }
    Some((text, RegisterKind::Line))
}


} // verus!
