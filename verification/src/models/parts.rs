//! The parts that are placed on the board.

use super::board::BOARD_SIZE;
use super::hex::{Hex, Rotation};
use super::instruction::Instruction;
use super::precursor::Precursor;
use crate::bin::BinData;
use crate::combinators::{
    following,
    lemma_concat_assoc,
    lemma_following_bound,
    lemma_following_prefix,
    lemma_following_round_trip,
    read_following,
    restore,
};
use crate::error::{DecodeError, EncodeError, Malformed};
use vstd::prelude::*;
use vstd::std_specs::convert::FromSpecImpl;
use vstd::std_specs::convert::TryFromSpecImpl;

verus! {

/// The kind of a part. On the wire it is a 32-bit signed integer from 0 to 3.
#[derive(Debug, Clone, Copy, PartialEq, Eq, Structural)]
pub enum PartType {
    Invalid,
    Input,
    /// No longer placed; kept so that the other kinds keep their codes.
    Output,
    Beam,
}

impl PartType {
    /// The integer that stands for the kind on the wire.
    pub open spec fn code(self) -> i32 {
        match self {
            PartType::Invalid => 0,
            PartType::Input => 1,
            PartType::Output => 2,
            PartType::Beam => 3,
        }
    }

    /// The kind that an integer stands for, and an error that carries the
    /// integer where it stands for none.
    pub open spec fn of_code(value: i32) -> Result<PartType, DecodeError> {
        match value {
            0 => Ok(PartType::Invalid),
            1 => Ok(PartType::Input),
            2 => Ok(PartType::Output),
            3 => Ok(PartType::Beam),
            _ => Err(DecodeError::Malformed(Malformed::PartType(value))),
        }
    }
}

impl TryFrom<i32> for PartType {
    type Error = DecodeError;

    fn try_from(value: i32) -> (r: Result<Self, Self::Error>) {
        match value {
            0 => Ok(PartType::Invalid),
            1 => Ok(PartType::Input),
            2 => Ok(PartType::Output),
            3 => Ok(PartType::Beam),
            _ => Err(DecodeError::Malformed(Malformed::PartType(value))),
        }
    }
}

impl TryFromSpecImpl<i32> for PartType {
    open spec fn obeys_try_from_spec() -> bool {
        true
    }

    open spec fn try_from_spec(value: i32) -> Result<Self, Self::Error> {
        PartType::of_code(value)
    }
}

impl From<PartType> for i32 {
    fn from(value: PartType) -> (r: i32) {
        match value {
            PartType::Invalid => 0,
            PartType::Input => 1,
            PartType::Output => 2,
            PartType::Beam => 3,
        }
    }
}

impl FromSpecImpl<PartType> for i32 {
    open spec fn obeys_from_spec() -> bool {
        true
    }

    open spec fn from_spec(value: PartType) -> i32 {
        value.code()
    }
}

impl DeepView for PartType {
    type V = PartType;

    open spec fn deep_view(&self) -> PartType {
        *self
    }
}

impl BinData for PartType {
    open spec fn decoded(bytes: Seq<u8>) -> Result<(PartType, nat), DecodeError> {
        match i32::decoded(bytes) {
            Err(e) => Err(e),
            Ok((raw, used)) => match PartType::of_code(raw) {
                Err(e) => Err(e),
                Ok(value) => Ok((value, used)),
            },
        }
    }

    open spec fn encodable(value: PartType) -> bool {
        true
    }

    open spec fn canonical(value: PartType) -> bool {
        true
    }

    open spec fn encoded(value: PartType) -> Seq<u8> {
        i32::encoded(value.code())
    }

    proof fn lemma_decoded_bound(bytes: Seq<u8>) {
    }

    proof fn lemma_decoded_prefix(bytes: Seq<u8>, more: Seq<u8>) {
        i32::lemma_decoded_prefix(bytes, more);
    }

    proof fn lemma_round_trip(value: PartType, rest: Seq<u8>) {
        i32::lemma_round_trip(value.code(), rest);
    }

    fn read(source: &[u8]) -> (r: Result<(Self, usize), DecodeError>) {
        let (raw, used) = i32::read(source)?;
        match PartType::try_from(raw) {
            Ok(value) => Ok((value, used)),
            Err(e) => Err(e),
        }
    }

    fn write(&self, sink: &mut Vec<u8>) -> (r: Result<(), EncodeError>) {
        let raw: i32 = i32::from(*self);
        raw.write(sink)
    }
}

/// Each kind of part has a code of its own from 0 to 3, and the code stands for
/// it: decoding what encoding gave returns the kind of part.
pub proof fn lemma_part_type_code(value: PartType)
    ensures
        0 <= value.code() <= 3,
        PartType::of_code(value.code()) == Ok::<PartType, DecodeError>(value),
{
}

/// An integer from 0 to 3 stands for the kind of part that has it as its code.
/// Every other integer is refused, with the error that carries it; none
/// stands for a kind of part by default.
pub proof fn lemma_part_type_of_code(value: i32)
    ensures
        0 <= value <= 3 ==> (PartType::of_code(value) matches Ok(found) && found.code() == value),
        !(0 <= value <= 3) ==> PartType::of_code(value) == Err::<PartType, DecodeError>(
            DecodeError::Malformed(Malformed::PartType(value)),
        ),
{
}

/// On the wire, an integer that holds no code of a kind of part is malformed, and one
/// that holds a code decodes to the kind of part with that code.
pub proof fn lemma_part_type_decoded(bytes: Seq<u8>)
    ensures
        match i32::decoded(bytes) {
            Err(e) => PartType::decoded(bytes) == Err::<(PartType, nat), DecodeError>(e),
            Ok((raw, used)) => if 0 <= raw <= 3 {
                PartType::decoded(bytes) matches Ok((found, n)) && found.code() == raw && n == used
            } else {
                PartType::decoded(bytes) == Err::<(PartType, nat), DecodeError>(
                    DecodeError::Malformed(Malformed::PartType(raw)),
                )
            },
        },
{
}

/// A part as it stands in a file.
#[derive(Debug, Clone, PartialEq, Eq)]
pub struct Part {
    pub part_type: PartType,
    pub pos: Hex,
    pub rot: Rotation,
    /// What the part delivers. Only some kinds of part have one.
    pub precursor: Option<Precursor>,
    /// An integer that every part carries. It is kept as it was found and
    /// given no meaning.
    pub reserved: i32,
    /// The program, one instruction for each cell.
    pub instructions: Vec<Instruction>,
}

/// The mathematical value of a [`Part`].
pub struct PartView {
    pub part_type: PartType,
    pub pos: Hex<i32>,
    pub rot: Rotation,
    pub precursor: Option<Precursor>,
    pub reserved: i32,
    pub instructions: Seq<Instruction>,
}

impl DeepView for Part {
    type V = PartView;

    open spec fn deep_view(&self) -> PartView {
        PartView {
            part_type: self.part_type,
            pos: self.pos,
            rot: self.rot,
            precursor: self.precursor,
            reserved: self.reserved,
            instructions: self.instructions@,
        }
    }
}

impl View for Part {
    type V = PartView;

    open spec fn view(&self) -> PartView {
        self.deep_view()
    }
}

impl BinData for Part {
    /// The fields of a part, in the order in which they stand on the wire:
    /// kind, position, rotation, optional precursor, the reserved integer,
    /// and the program.
    open spec fn decoded(bytes: Seq<u8>) -> Result<(PartView, nat), DecodeError> {
        match PartType::decoded(bytes) {
            Err(e) => Err(e),
            Ok((part_type, n1)) => match following::<Hex<i32>>(bytes, n1) {
                Err(e) => Err(e),
                Ok((pos, n2)) => match following::<Rotation>(bytes, n2) {
                    Err(e) => Err(e),
                    Ok((rot, n3)) => match following::<Option<Precursor>>(bytes, n3) {
                        Err(e) => Err(e),
                        Ok((precursor, n4)) => match following::<i32>(bytes, n4) {
                            Err(e) => Err(e),
                            Ok((reserved, n5)) => match following::<Vec<Instruction>>(bytes, n5) {
                                Err(e) => Err(e),
                                Ok((instructions, n6)) => Ok(
                                    (
                                        PartView {
                                            part_type,
                                            pos,
                                            rot,
                                            precursor,
                                            reserved,
                                            instructions,
                                        },
                                        n6,
                                    ),
                                ),
                            },
                        },
                    },
                },
            },
        }
    }

    open spec fn encodable(value: PartView) -> bool {
        value.instructions.len() <= i32::MAX
    }

    open spec fn canonical(value: PartView) -> bool {
        true
    }

    open spec fn encoded(value: PartView) -> Seq<u8> {
        PartType::encoded(value.part_type) + Hex::<i32>::encoded(value.pos) + Rotation::encoded(
            value.rot,
        ) + Option::<Precursor>::encoded(value.precursor) + i32::encoded(value.reserved) + Vec::<
            Instruction,
        >::encoded(value.instructions)
    }

    proof fn lemma_decoded_bound(bytes: Seq<u8>) {
        PartType::lemma_decoded_bound(bytes);
        if let Ok((_, n1)) = PartType::decoded(bytes) {
            lemma_following_bound::<Hex<i32>>(bytes, n1);
            if let Ok((_, n2)) = following::<Hex<i32>>(bytes, n1) {
                lemma_following_bound::<Rotation>(bytes, n2);
                if let Ok((_, n3)) = following::<Rotation>(bytes, n2) {
                    lemma_following_bound::<Option<Precursor>>(bytes, n3);
                    if let Ok((_, n4)) = following::<Option<Precursor>>(bytes, n3) {
                        lemma_following_bound::<i32>(bytes, n4);
                        if let Ok((_, n5)) = following::<i32>(bytes, n4) {
                            lemma_following_bound::<Vec<Instruction>>(bytes, n5);
                        }
                    }
                }
            }
        }
    }

    proof fn lemma_decoded_prefix(bytes: Seq<u8>, more: Seq<u8>) {
        Self::lemma_decoded_bound(bytes);
        PartType::lemma_decoded_bound(bytes);
        PartType::lemma_decoded_prefix(bytes, more);
        if let Ok((_, n1)) = PartType::decoded(bytes) {
            lemma_following_bound::<Hex<i32>>(bytes, n1);
            lemma_following_prefix::<Hex<i32>>(bytes, more, n1);
            if let Ok((_, n2)) = following::<Hex<i32>>(bytes, n1) {
                lemma_following_bound::<Rotation>(bytes, n2);
                lemma_following_prefix::<Rotation>(bytes, more, n2);
                if let Ok((_, n3)) = following::<Rotation>(bytes, n2) {
                    lemma_following_bound::<Option<Precursor>>(bytes, n3);
                    lemma_following_prefix::<Option<Precursor>>(bytes, more, n3);
                    if let Ok((_, n4)) = following::<Option<Precursor>>(bytes, n3) {
                        lemma_following_bound::<i32>(bytes, n4);
                        lemma_following_prefix::<i32>(bytes, more, n4);
                        if let Ok((_, n5)) = following::<i32>(bytes, n4) {
                            lemma_following_prefix::<Vec<Instruction>>(bytes, more, n5);
                        }
                    }
                }
            }
        }
    }

    proof fn lemma_round_trip(value: PartView, rest: Seq<u8>) {
        let e1 = PartType::encoded(value.part_type);
        let e2 = Hex::<i32>::encoded(value.pos);
        let e3 = Rotation::encoded(value.rot);
        let e4 = Option::<Precursor>::encoded(value.precursor);
        let e5 = i32::encoded(value.reserved);
        let e6 = Vec::<Instruction>::encoded(value.instructions);
        let r5 = e6 + rest;
        let r4 = e5 + r5;
        let r3 = e4 + r4;
        let r2 = e3 + r3;
        let r1 = e2 + r2;
        let h2 = e1 + e2;
        let h3 = h2 + e3;
        let h4 = h3 + e4;
        let h5 = h4 + e5;
        lemma_concat_assoc(h5, e6, rest);
        lemma_concat_assoc(h4, e5, r5);
        lemma_concat_assoc(h3, e4, r4);
        lemma_concat_assoc(h2, e3, r3);
        lemma_concat_assoc(e1, e2, r2);
        PartType::lemma_round_trip(value.part_type, r1);
        lemma_following_round_trip::<Hex<i32>>(e1, value.pos, r2);
        lemma_following_round_trip::<Rotation>(h2, value.rot, r3);
        lemma_following_round_trip::<Option<Precursor>>(h3, value.precursor, r4);
        lemma_following_round_trip::<i32>(h4, value.reserved, r5);
        lemma_following_round_trip::<Vec<Instruction>>(h5, value.instructions, rest);
    }

    fn read(source: &[u8]) -> (r: Result<(Self, usize), DecodeError>) {
        let (part_type, n1) = PartType::read(source)?;
        proof {
            PartType::lemma_decoded_bound(source@);
        }
        let (pos, n2) = read_following::<Hex<i32>>(source, n1)?;
        let (rot, n3) = read_following::<Rotation>(source, n2)?;
        let (precursor, n4) = read_following::<Option<Precursor>>(source, n3)?;
        let (reserved, n5) = read_following::<i32>(source, n4)?;
        let (instructions, n6) = read_following::<Vec<Instruction>>(source, n5)?;
        assert(instructions.deep_view() =~= instructions@);
        Ok((Part { part_type, pos, rot, precursor, reserved, instructions }, n6))
    }

    fn write(&self, sink: &mut Vec<u8>) -> (r: Result<(), EncodeError>) {
        let start: usize = sink.len();
        self.part_type.write(sink)?;
        self.pos.write(sink)?;
        self.rot.write(sink)?;
        self.precursor.write(sink)?;
        self.reserved.write(sink)?;
        assert(self.instructions.deep_view() =~= self.instructions@);
        match self.instructions.write(sink) {
            Ok(()) => {
                assert(sink@ =~= old(sink)@ + Self::encoded(self.deep_view()));
                Ok(())
            },
            Err(e) => {
                restore(sink, start);
                assert(sink@ =~= old(sink)@);
                Err(e)
            },
        }
    }
}

/// A part that delivers a precursor.
#[derive(Debug, Clone, PartialEq, Eq)]
pub struct Input {
    pub precursor: Precursor,
    pub pos: Hex,
    pub rotation: Rotation,
}

/// A part that sends a beam across the board from its edge.
#[derive(Debug, Clone, PartialEq, Eq)]
pub struct Beam {
    pub beam_id: u8,
    pub pos: Hex,
}

/// A part by its kind, with what that kind needs.
#[derive(Debug, Clone, PartialEq, Eq)]
pub enum PartEnum {
    Input(Input),
    /// No longer placed.
    Output,
    Beam(Beam),
}

impl PartEnum {
    /// The kind of the part.
    pub fn part_type(&self) -> (r: PartType)
        ensures
            r == match self {
                PartEnum::Input(_) => PartType::Input,
                PartEnum::Output => PartType::Output,
                PartEnum::Beam(_) => PartType::Beam,
            },
    {
        match self {
            PartEnum::Input(_) => PartType::Input,
            PartEnum::Output => PartType::Output,
            PartEnum::Beam(_) => PartType::Beam,
        }
    }
}

impl From<Input> for PartEnum {
    fn from(input: Input) -> (r: PartEnum) {
        PartEnum::Input(input)
    }
}

impl FromSpecImpl<Input> for PartEnum {
    open spec fn obeys_from_spec() -> bool {
        true
    }

    open spec fn from_spec(input: Input) -> PartEnum {
        PartEnum::Input(input)
    }
}

impl From<Beam> for PartEnum {
    fn from(beam: Beam) -> (r: PartEnum) {
        PartEnum::Beam(beam)
    }
}

impl FromSpecImpl<Beam> for PartEnum {
    open spec fn obeys_from_spec() -> bool {
        true
    }

    open spec fn from_spec(beam: Beam) -> PartEnum {
        PartEnum::Beam(beam)
    }
}

/// The distance of a cell from the centre of the board, in cells.
pub open spec fn ring(pos: Hex<i32>) -> int {
    let a = if pos.a >= 0 {
        pos.a as int
    } else {
        -pos.a
    };
    let b = if pos.b >= 0 {
        pos.b as int
    } else {
        -pos.b
    };
    let c = if pos.a + pos.b >= 0 {
        pos.a + pos.b
    } else {
        -(pos.a + pos.b)
    };
    if a >= b && a >= c {
        a
    } else if b >= c {
        b
    } else {
        c
    }
}

impl Beam {
    /// The direction in which the beam is sent: as many steps clockwise as
    /// the beam's number says.
    pub fn rotation(&self) -> (r: Rotation)
        ensures
            r == Rotation::of_turns(-(self.beam_id as int)),
    {
        let steps: i32 = self.beam_id as i32;
        Rotation::from(-steps)
    }

    /// Whether the beam stands where a beam must stand: on the ring of cells
    /// that lies just outside the board.
    pub fn is_valid_pos(&self) -> (r: bool)
        ensures
            r == (ring(self.pos) == BOARD_SIZE + 1),
    {
        let a: i64 = self.pos.a as i64;
        let b: i64 = self.pos.b as i64;
        let board_size: i64 = BOARD_SIZE as i64 + 1;
        if a < -board_size {
            false
        } else if a == -board_size {
            b >= 0 && b <= board_size
        } else if a <= 0 {
            b == board_size || (a + b) == -board_size
        } else if a < board_size {
            b == -board_size || (a + b) == board_size
        } else if a == board_size {
            b >= -board_size && b <= 0
        } else {
            false
        }
    }
}

} // verus!
