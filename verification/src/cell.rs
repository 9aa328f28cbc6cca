//! The two materials of the simulated world, and the tools that place them.

use vstd::prelude::*;

verus! {

/// What one grid position holds.
#[derive(Copy, Clone, PartialEq, Eq, Structural, Debug)]
pub enum Cell {
    Empty,
    Sand,
}

/// What a brush stroke does to the cells it covers.
#[derive(Copy, Clone, PartialEq, Eq, Structural, Debug)]
pub enum Tool {
    /// Deposit sand.
    Sand,
    /// Clear the cells.
    Erase,
}

impl Tool {
    /// The cell value that this tool leaves behind.
    pub open spec fn spec_material(self) -> Cell {
        match self {
            Tool::Sand => Cell::Sand,
            Tool::Erase => Cell::Empty,
        }
    }

    /// The cell value that this tool leaves behind.
    #[verifier::when_used_as_spec(spec_material)]
    pub fn material(self) -> (c: Cell)
        ensures
            c == self.spec_material(),
    {
        match self {
            Tool::Sand => Cell::Sand,
            Tool::Erase => Cell::Empty,
        }
    }
}

} // verus!
