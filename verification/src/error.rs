//! The ways in which setting up a game or placing food can fail.

use vstd::prelude::*;

verus! {

/// Why a game could not be set up, or food not be placed.
#[derive(Copy, Clone, Debug, PartialEq, Eq, Structural)]
pub enum GameError {
    /// The board has no columns or no rows.
    InvalidBoard,
    /// The snake is less than one step of its direction long.
    InvalidSnakeLength,
    /// The snake heads nowhere.
    ZeroDirection,
    /// A point of the snake lies beyond the coordinate limit.
    SnakeOutOfRange,
    /// The snake covers every cell: there is no room for food.
    BoardExhausted,
    /// The operating system gave no random numbers to choose a cell with.
    RandomnessUnavailable,
}

} // verus!
