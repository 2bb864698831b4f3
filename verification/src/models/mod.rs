//! The values that a solution is made of.

// The modules stand in the order in which they build on each other.
pub mod board;
pub mod hex;
pub mod instruction;
pub mod precursor;
pub mod stat;
pub mod parts;

pub use board::BOARD_SIZE;
pub use hex::{Hex, Rotation};
pub use instruction::Instruction;
pub use parts::{Beam, Input, Part, PartEnum, PartType, PartView};
pub use precursor::Precursor;
pub use stat::{StatField, Stats};
