//! The operations that a program cell can hold.

use crate::bin::BinData;
use crate::error::{DecodeError, EncodeError, Malformed};
use vstd::prelude::*;
use vstd::std_specs::convert::FromSpecImpl;
use vstd::std_specs::convert::TryFromSpecImpl;

verus! {

/// One cell of a part's program. On the wire it is a single byte from 0 to
/// 11.
#[derive(Debug, Clone, Copy, PartialEq, Eq, Structural)]
pub enum Instruction {
    Empty,
    /// Shortcut: A
    SlideL,
    /// Shortcut: D
    SlideR,
    /// Shortcut: W
    Push,
    /// Shortcut: S
    Pull,
    /// Shortcut: Q
    RotateCCW,
    /// Shortcut: E
    RotateCW,
    /// Shortcut: R
    Add,
    /// Shortcut: F
    RemoveH,
    /// Shortcut: X
    Trash,
    /// Shortcut: C
    Output,
    /// Shortcut: V
    ShuntH,
}

impl Instruction {
    /// The byte that stands for the instruction on the wire.
    pub open spec fn code(self) -> u8 {
        match self {
            Instruction::Empty => 0,
            Instruction::SlideL => 1,
            Instruction::SlideR => 2,
            Instruction::Push => 3,
            Instruction::Pull => 4,
            Instruction::RotateCCW => 5,
            Instruction::RotateCW => 6,
            Instruction::Add => 7,
            Instruction::RemoveH => 8,
            Instruction::Trash => 9,
            Instruction::Output => 10,
            Instruction::ShuntH => 11,
        }
    }

    /// The instruction that a byte stands for, and an error that carries the
    /// byte where it stands for none.
    pub open spec fn of_code(value: u8) -> Result<Instruction, DecodeError> {
        match value {
            0 => Ok(Instruction::Empty),
            1 => Ok(Instruction::SlideL),
            2 => Ok(Instruction::SlideR),
            3 => Ok(Instruction::Push),
            4 => Ok(Instruction::Pull),
            5 => Ok(Instruction::RotateCCW),
            6 => Ok(Instruction::RotateCW),
            7 => Ok(Instruction::Add),
            8 => Ok(Instruction::RemoveH),
            9 => Ok(Instruction::Trash),
            10 => Ok(Instruction::Output),
            11 => Ok(Instruction::ShuntH),
            _ => Err(DecodeError::Malformed(Malformed::Instruction(value))),
        }
    }
}

impl Default for Instruction {
    fn default() -> (r: Instruction)
        ensures
            r == Instruction::Empty,
    {
        Instruction::Empty
    }
}

impl TryFrom<u8> for Instruction {
    type Error = DecodeError;

    fn try_from(value: u8) -> (r: Result<Self, Self::Error>) {
        match value {
            0 => Ok(Instruction::Empty),
            1 => Ok(Instruction::SlideL),
            2 => Ok(Instruction::SlideR),
            3 => Ok(Instruction::Push),
            4 => Ok(Instruction::Pull),
            5 => Ok(Instruction::RotateCCW),
            6 => Ok(Instruction::RotateCW),
            7 => Ok(Instruction::Add),
            8 => Ok(Instruction::RemoveH),
            9 => Ok(Instruction::Trash),
            10 => Ok(Instruction::Output),
            11 => Ok(Instruction::ShuntH),
            _ => Err(DecodeError::Malformed(Malformed::Instruction(value))),
        }
    }
}

impl TryFromSpecImpl<u8> for Instruction {
    open spec fn obeys_try_from_spec() -> bool {
        true
    }

    open spec fn try_from_spec(value: u8) -> Result<Self, Self::Error> {
        Instruction::of_code(value)
    }
}

impl From<Instruction> for u8 {
    fn from(value: Instruction) -> (r: u8) {
        match value {
            Instruction::Empty => 0,
            Instruction::SlideL => 1,
            Instruction::SlideR => 2,
            Instruction::Push => 3,
            Instruction::Pull => 4,
            Instruction::RotateCCW => 5,
            Instruction::RotateCW => 6,
            Instruction::Add => 7,
            Instruction::RemoveH => 8,
            Instruction::Trash => 9,
            Instruction::Output => 10,
            Instruction::ShuntH => 11,
        }
    }
}

impl FromSpecImpl<Instruction> for u8 {
    open spec fn obeys_from_spec() -> bool {
        true
    }

    open spec fn from_spec(value: Instruction) -> u8 {
        value.code()
    }
}

impl DeepView for Instruction {
    type V = Instruction;

    open spec fn deep_view(&self) -> Instruction {
        *self
    }
}

impl BinData for Instruction {
    open spec fn decoded(bytes: Seq<u8>) -> Result<(Instruction, nat), DecodeError> {
        match u8::decoded(bytes) {
            Err(e) => Err(e),
            Ok((raw, used)) => match Instruction::of_code(raw) {
                Err(e) => Err(e),
                Ok(value) => Ok((value, used)),
            },
        }
    }

    open spec fn encodable(value: Instruction) -> bool {
        true
    }

    open spec fn canonical(value: Instruction) -> bool {
        true
    }

    open spec fn encoded(value: Instruction) -> Seq<u8> {
        u8::encoded(value.code())
    }

    proof fn lemma_decoded_bound(bytes: Seq<u8>) {
    }

    proof fn lemma_decoded_prefix(bytes: Seq<u8>, more: Seq<u8>) {
    }

    proof fn lemma_round_trip(value: Instruction, rest: Seq<u8>) {
    }

    fn read(source: &[u8]) -> (r: Result<(Self, usize), DecodeError>) {
        let (raw, used) = u8::read(source)?;
        match Instruction::try_from(raw) {
            Ok(value) => Ok((value, used)),
            Err(e) => Err(e),
        }
    }

    fn write(&self, sink: &mut Vec<u8>) -> (r: Result<(), EncodeError>) {
        let raw: u8 = u8::from(*self);
        raw.write(sink)
    }
}

/// Each instruction has a code of its own from 0 to 11, and the code stands for
/// it: decoding what encoding gave returns the instruction.
pub proof fn lemma_instruction_code(value: Instruction)
    ensures
        value.code() <= 11,
        Instruction::of_code(value.code()) == Ok::<Instruction, DecodeError>(value),
{
}

/// An integer from 0 to 11 stands for the instruction that has it as its code.
/// Every other integer is refused, with the error that carries it; none
/// stands for a instruction by default.
pub proof fn lemma_instruction_of_code(value: u8)
    ensures
        value <= 11 ==> (Instruction::of_code(value) matches Ok(found) && found.code() == value),
        !(value <= 11) ==> Instruction::of_code(value) == Err::<Instruction, DecodeError>(
            DecodeError::Malformed(Malformed::Instruction(value)),
        ),
{
}

/// On the wire, a byte that holds no code of an instruction is malformed, and one
/// that holds a code decodes to the instruction with that code.
pub proof fn lemma_instruction_decoded(bytes: Seq<u8>)
    ensures
        match u8::decoded(bytes) {
            Err(e) => Instruction::decoded(bytes) == Err::<(Instruction, nat), DecodeError>(e),
            Ok((raw, used)) => if raw <= 11 {
                Instruction::decoded(bytes) matches Ok((found, n)) && found.code() == raw && n == used
            } else {
                Instruction::decoded(bytes) == Err::<(Instruction, nat), DecodeError>(
                    DecodeError::Malformed(Malformed::Instruction(raw)),
                )
            },
        },
{
}

} // verus!
