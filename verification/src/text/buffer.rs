//! Handles and positions the editor uses to address buffers and places in
//! them.

use vstd::prelude::*;

verus! {

/// Stable handle to a buffer held by the editor's buffer registry; it
/// survives insertions and removals of unrelated buffers.
#[derive(Debug, Clone, Copy, PartialEq, Eq, Hash, Default, Structural)]
pub struct BufferId(pub u64);

/// A (column, row) pair: an absolute place in a buffer, a cell on screen,
/// or a signed step between two of them.
#[derive(Debug, Clone, Copy, PartialEq, Eq, Hash, Structural)]
pub struct Position<T> {
    pub col: T,
    pub row: T,
}

impl<T> Position<T> {
    pub fn new(col: T, row: T) -> (p: Self)
        ensures
            p.col == col,
            p.row == row,
    {
        Position { col, row }
    }
}

/// An absolute position in a buffer: row, and column in chars on that row.
pub type FilePos = Position<usize>;

} // verus!
