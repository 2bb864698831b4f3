//! The size of the board.

use vstd::prelude::*;

verus! {

/// The number of rings of cells around the centre of the board.
pub const BOARD_SIZE: usize = 5;

} // verus!
