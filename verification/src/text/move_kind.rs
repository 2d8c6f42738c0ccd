//! The motions a cursor can make, how they parse from their names, and how
//! an operator treats them (linewise, inclusive) and a count repeats them.

use vstd::prelude::*;

use crate::strs::str_eq;
use crate::text::buffer::Position;

verus! {

/// Every flavor of cursor motion.
#[derive(Debug, Clone, Copy, PartialEq, Eq, Hash, Structural)]
pub enum MoveKind {
    LineStart,
    /// First non-blank character on the current line (vim `^`).
    LineFirstNonBlank,
    LineEnd,
    FileStart,
    FileEnd,
    /// Vim `b`: start of the word at/before the cursor.
    WordStart,
    /// Vim `w`: start of the next word.
    WordForward,
    /// Vim `e`: end of the word at/after the cursor.
    WordEnd,
    /// Vim `ge`: end of the previous word.
    WordBackEnd,
    /// Vim `B`: start of the WORD at/before the cursor.
    BigWordStart,
    /// Vim `W`: start of the next WORD.
    BigWordForward,
    /// Vim `E`: end of the WORD at/after the cursor.
    BigWordEnd,
    /// Vim `gE`: end of the previous WORD.
    BigWordBackEnd,
    /// Vim `%`: jump to the matching bracket of `()[]{}`; off a bracket, the
    /// first bracket on the current line is used.
    MatchBracket,
    Relative(Position<i16>),
    Absolute(Position<usize>),
    LineNum(usize),
    HalfPageDown,
    HalfPageUp,
    /// Vim's `zz`: re-center the viewport on the cursor without moving it.
    Center,
}

/// Motions whose operator form works on whole lines: vertical steps, the
/// file ends, and explicit line jumps.
pub open spec fn spec_is_linewise(m: MoveKind) -> bool {
    match m {
        MoveKind::FileStart | MoveKind::FileEnd | MoveKind::LineNum(_) => true,
        MoveKind::Relative(p) => p.row != 0,
        _ => false,
    }
}

/// Motions whose target char belongs to the operated range: the
/// end-of-word family.
pub open spec fn spec_is_inclusive(m: MoveKind) -> bool {
    m == MoveKind::WordEnd || m == MoveKind::BigWordEnd
}

/// The motion a name stands for.
pub open spec fn spec_move_kind_named(s: Seq<char>) -> Option<MoveKind> {
    if s == "down"@ {
        Some(MoveKind::Relative(Position { col: 0i16, row: 1i16 }))
    } else if s == "up"@ {
        Some(MoveKind::Relative(Position { col: 0i16, row: -1i16 }))
    } else if s == "left"@ {
        Some(MoveKind::Relative(Position { col: -1i16, row: 0i16 }))
    } else if s == "right"@ {
        Some(MoveKind::Relative(Position { col: 1i16, row: 0i16 }))
    } else if s == "line-start"@ {
        Some(MoveKind::LineStart)
    } else if s == "line-first-non-blank"@ {
        Some(MoveKind::LineFirstNonBlank)
    } else if s == "line-end"@ {
        Some(MoveKind::LineEnd)
    } else if s == "file-start"@ {
        Some(MoveKind::FileStart)
    } else if s == "file-end"@ {
        Some(MoveKind::FileEnd)
    } else if s == "word-start"@ {
        Some(MoveKind::WordStart)
    } else if s == "word-forward"@ {
        Some(MoveKind::WordForward)
    } else if s == "word-end"@ {
        Some(MoveKind::WordEnd)
    } else if s == "word-back-end"@ {
        Some(MoveKind::WordBackEnd)
    } else if s == "big-word-start"@ {
        Some(MoveKind::BigWordStart)
    } else if s == "big-word-forward"@ {
        Some(MoveKind::BigWordForward)
    } else if s == "big-word-end"@ {
        Some(MoveKind::BigWordEnd)
    } else if s == "big-word-back-end"@ {
        Some(MoveKind::BigWordBackEnd)
    } else if s == "match-bracket"@ {
        Some(MoveKind::MatchBracket)
    } else if s == "half-page-down"@ {
        Some(MoveKind::HalfPageDown)
    } else if s == "half-page-up"@ {
        Some(MoveKind::HalfPageUp)
    } else if s == "center"@ {
        Some(MoveKind::Center)
    } else {
        None
    }
}

/// `v` times `n`, saturating, clamped to the `i16` range.
pub open spec fn scale_clamped(v: i16, n: int) -> i16 {
    let p = v * n;
    if p < i16::MIN {
        i16::MIN
    } else if p > i16::MAX {
        i16::MAX
    } else {
        p as i16
    }
}

/// How a motion repeats `count` times (a count of 0 meaning once): a
/// relative step is scaled once, any other motion is applied that many
/// times.
pub open spec fn spec_with_count(m: MoveKind, count: u32) -> (MoveKind, u32) {
    let n: u32 = if count == 0 {
        1
    } else {
        count
    };
    match m {
        MoveKind::Relative(p) => (
            MoveKind::Relative(Position { col: scale_clamped(p.col, n as int), row: scale_clamped(p.row, n as int) }),
            1,
        ),
        _ => (m, n),
    }
}

fn scale_step(v: i16, n: u32) -> (r: i16)
    requires
        n >= 1,
    ensures
        r == scale_clamped(v, n as int),
{
    assert(-0x8000_0000_0000 <= (v as int) * (n as int) <= 0x8000_0000_0000) by (nonlinear_arith)
        requires
            -32768 <= v <= 32767,
            1 <= n <= 0xffff_ffff,
    ;
    let p = (v as i64) * (n as i64);
    if p < -32768 {
        -32768
    } else if p > 32767 {
        32767
    } else {
        p as i16
    }
}

impl MoveKind {
    pub fn is_linewise_motion(&self) -> (b: bool)
        ensures
            b == spec_is_linewise(*self),
    {
        match self {
            MoveKind::FileStart | MoveKind::FileEnd | MoveKind::LineNum(_) => true,
            MoveKind::Relative(p) => p.row != 0,
            _ => false,
        }
    }

    pub fn is_inclusive_motion(&self) -> (b: bool)
        ensures
            b == spec_is_inclusive(*self),
    {
        match self {
            MoveKind::WordEnd | MoveKind::BigWordEnd => true,
            _ => false,
        }
    }

    /// The motion to apply and how many times, for a count prefix (0
    /// meaning none).
    pub fn with_count(self, count: u32) -> (r: (MoveKind, u32))
        ensures
            r == spec_with_count(self, count),
    {
        let n: u32 = if count == 0 {
            1
        } else {
            count
        };
        match self {
            MoveKind::Relative(p) => (
                MoveKind::Relative(Position::new(scale_step(p.col, n), scale_step(p.row, n))),
                1,
            ),
            _ => (self, n),
        }
    }

    /// Parse a motion from its name.
    pub fn parse(sym: &str) -> (r: Result<MoveKind, &'static str>)
        ensures
            match r {
                Ok(m) => spec_move_kind_named(sym@) == Some(m),
                Err(e) => spec_move_kind_named(sym@) is None && e@ == "unknown MoveKind"@,
            },
    {
        if str_eq(sym, "down") {
            Ok(MoveKind::Relative(Position::new(0, 1)))
        } else if str_eq(sym, "up") {
            Ok(MoveKind::Relative(Position::new(0, -1)))
        } else if str_eq(sym, "left") {
            Ok(MoveKind::Relative(Position::new(-1, 0)))
        } else if str_eq(sym, "right") {
            Ok(MoveKind::Relative(Position::new(1, 0)))
        } else if str_eq(sym, "line-start") {
            Ok(MoveKind::LineStart)
        } else if str_eq(sym, "line-first-non-blank") {
            Ok(MoveKind::LineFirstNonBlank)
        } else if str_eq(sym, "line-end") {
            Ok(MoveKind::LineEnd)
        } else if str_eq(sym, "file-start") {
            Ok(MoveKind::FileStart)
        } else if str_eq(sym, "file-end") {
            Ok(MoveKind::FileEnd)
        } else if str_eq(sym, "word-start") {
            Ok(MoveKind::WordStart)
        } else if str_eq(sym, "word-forward") {
            Ok(MoveKind::WordForward)
        } else if str_eq(sym, "word-end") {
            Ok(MoveKind::WordEnd)
        } else if str_eq(sym, "word-back-end") {
            Ok(MoveKind::WordBackEnd)
        } else if str_eq(sym, "big-word-start") {
            Ok(MoveKind::BigWordStart)
        } else if str_eq(sym, "big-word-forward") {
            Ok(MoveKind::BigWordForward)
        } else if str_eq(sym, "big-word-end") {
            Ok(MoveKind::BigWordEnd)
        } else if str_eq(sym, "big-word-back-end") {
            Ok(MoveKind::BigWordBackEnd)
        } else if str_eq(sym, "match-bracket") {
            Ok(MoveKind::MatchBracket)
        } else if str_eq(sym, "half-page-down") {
            Ok(MoveKind::HalfPageDown)
        } else if str_eq(sym, "half-page-up") {
            Ok(MoveKind::HalfPageUp)
        } else if str_eq(sym, "center") {
            Ok(MoveKind::Center)
        } else {
            Err("unknown MoveKind")
        }
    }
}

impl std::str::FromStr for MoveKind {
    type Err = &'static str;

    fn from_str(sym: &str) -> (r: Result<Self, Self::Err>)
        ensures
            match r {
                Ok(m) => spec_move_kind_named(sym@) == Some(m),
                Err(e) => spec_move_kind_named(sym@) is None && e@ == "unknown MoveKind"@,
            },
    {
        MoveKind::parse(sym)
    }
}

/// Motions whose operator form works on whole lines (see
/// [`MoveKind::is_linewise_motion`]).
pub fn is_linewise_motion(kind: MoveKind) -> (b: bool)
    ensures
        b == spec_is_linewise(kind),
{
    kind.is_linewise_motion()
}

/// Motions whose target char belongs to the operated range (see
/// [`MoveKind::is_inclusive_motion`]).
pub fn is_inclusive_motion(kind: MoveKind) -> (b: bool)
    ensures
        b == spec_is_inclusive(kind),
{
    kind.is_inclusive_motion()
}

} // verus!
