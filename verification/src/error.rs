//! What can go wrong while bytes are decoded or a value is encoded.

use vstd::prelude::*;

verus! {

/// Data that is present on the wire but is not a value of the format.
/// Each variant names the field that was being decoded and, where there is
/// one, carries the raw value that was found.
#[derive(Debug, Clone, Copy, PartialEq, Eq, Structural)]
pub enum Malformed {
    /// The element count of a sequence is negative.
    NegativeCount(i32),
    /// The bytes of a text are not UTF-8.
    InvalidUtf8,
    /// The byte stands for no instruction.
    Instruction(u8),
    /// The integer stands for no kind of part.
    PartType(i32),
    /// The integer stands for no precursor.
    Precursor(i32),
    /// The integer is the key of no counter.
    StatField(u32),
}

/// Why decoding stopped. Every decoder hands on the first error that it
/// meets, unchanged.
#[derive(Debug, Clone, Copy, PartialEq, Eq, Structural)]
pub enum DecodeError {
    /// Fewer bytes remain than the value that is being decoded takes.
    Truncated,
    /// The bytes are there, but they are not a value of the format.
    Malformed(Malformed),
    /// The file declares a format version outside the supported range.
    VersionUnsupported(i32),
    /// The record was decoded, and bytes remain after it.
    TrailingData,
}

/// Why a value cannot be written.
#[derive(Debug, Clone, Copy, PartialEq, Eq, Structural)]
pub enum EncodeError {
    /// A sequence or a text is longer than the 32-bit signed count in front
    /// of it can say.
    TooLong,
}

} // verus!
