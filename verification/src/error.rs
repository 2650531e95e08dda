//! The errors of the engine.

use vstd::prelude::*;

verus! {

/// Why a request to the engine was rejected.
#[derive(Clone, Copy, Debug, PartialEq, Eq, Structural)]
pub enum GameError {
    /// The grid has a zero dimension, is too large to address, or cannot hold
    /// the requested number of bombs.
    InvalidConfiguration,
    /// The coordinate lies outside the grid.
    OutOfBounds,
}

} // verus!
