//! Codec for the binary save files of a hexagonal-grid puzzle game.
//!
//! A save file holds one [`Solution`]: a name, the puzzle it solves, how it
//! performs, and the parts placed on the board with their programs. The
//! format is versioned; older files lack what newer versions added.
//!
//! [`BinData`] is the codec. Each type that implements it states its wire
//! format as spec functions, and its `read` and `write` are proved to compute
//! them. [`Solution::from_bytes`] decodes a whole file.

// The modules stand in the order in which they build on each other.
pub mod error;
pub mod version;
pub mod bin;
pub mod combinators;
pub mod text;
pub mod models;
pub mod solution;

pub use bin::BinData;
pub use error::{DecodeError, EncodeError, Malformed};
pub use models::{
    Beam, Hex, Input, Instruction, Part, PartEnum, PartType, PartView, Precursor, Rotation,
    StatField, Stats, BOARD_SIZE,
};
pub use solution::{Solution, SolutionView};
