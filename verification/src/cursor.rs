//! The cursor position and shape carried with each published snapshot.

use crate::events::CursorShape;
use vstd::prelude::*;

verus! {

/// The grid cursor: where it stands and how it is drawn.
#[derive(Debug, Copy, Clone, PartialEq, Eq, Structural)]
pub struct Cursor {
    /// The row the cursor is on.
    pub row: usize,
    /// The column the cursor is on.
    pub col: usize,
    /// The shape the cursor is drawn with.
    pub shape: CursorShape,
}

impl Default for Cursor {
    /// The cursor before any event arrived: the origin, drawn as a block.
    fn default() -> (r: Self)
        ensures
            r == (Cursor { row: 0, col: 0, shape: CursorShape::Block }),
    {
        Cursor { row: 0, col: 0, shape: CursorShape::Block }
    }
}

impl Cursor {
    /// Moves the cursor to the given position.
    pub fn move_to(&mut self, row: usize, col: usize)
        ensures
            *final(self) == (Cursor { row, col, shape: old(self).shape }),
    {
        self.row = row;
        self.col = col;
    }

    /// Changes the shape the cursor is drawn with.
    pub fn change_shape(&mut self, shape: CursorShape)
        ensures
            *final(self) == (Cursor { shape, ..*old(self) }),
    {
        self.shape = shape;
    }
}

} // verus!
