use vstd::prelude::*;

verus! {

/// A position on the terminal grid: a row and a column.
#[derive(Clone, Copy, PartialEq, Eq, Debug, Structural)]
pub struct Coord {
    pub row: u16,
    pub col: u16,
}

impl Coord {
    /// Whether the component-wise sum of two positions stays on the grid.
    pub open spec fn can_add(self, other: Coord) -> bool {
        self.row + other.row <= u16::MAX && self.col + other.col <= u16::MAX
    }

    /// The component-wise sum of two positions.
    pub open spec fn plus(self, other: Coord) -> Coord {
        Coord { row: (self.row + other.row) as u16, col: (self.col + other.col) as u16 }
    }

    /// Translates `self` by `other`, row by row and column by column.
    pub fn add(self, other: Coord) -> (r: Coord)
        requires
            self.can_add(other),
        ensures
            r == self.plus(other),
            r.row == self.row + other.row,
            r.col == self.col + other.col,
    {
        Coord { row: self.row + other.row, col: self.col + other.col }
    }
}

} // verus!
