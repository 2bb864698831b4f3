//! The base substances that an input part can deliver.

use crate::bin::BinData;
use crate::error::{DecodeError, EncodeError, Malformed};
use vstd::prelude::*;
use vstd::std_specs::convert::FromSpecImpl;
use vstd::std_specs::convert::TryFromSpecImpl;

verus! {

/// A base substance. On the wire it is a 32-bit signed integer from 0 to 23.
#[derive(Debug, Clone, Copy, PartialEq, Eq, Structural)]
pub enum Precursor {
    Invalid,
    Water,
    Ammonia,
    HydrochloricAcid,
    SulfuricAcid,
    Acetone,
    Cyclohexane,
    Methanol,
    EthyleneGlycol,
    Propene,
    AceticAcid,
    Benzene,
    Carbamide,
    PhosphoricAcid,
    HydrofluoricAcid,
    Hydrazine,
    Butanone,
    ThionylChloride,
    Dioxane,
    Toluene,
    FormicAcid,
    Butylene,
    Isobutane,
    Triazine,
}

impl Precursor {
    /// The integer that stands for the substance on the wire.
    pub open spec fn code(self) -> i32 {
        match self {
            Precursor::Invalid => 0,
            Precursor::Water => 1,
            Precursor::Ammonia => 2,
            Precursor::HydrochloricAcid => 3,
            Precursor::SulfuricAcid => 4,
            Precursor::Acetone => 5,
            Precursor::Cyclohexane => 6,
            Precursor::Methanol => 7,
            Precursor::EthyleneGlycol => 8,
            Precursor::Propene => 9,
            Precursor::AceticAcid => 10,
            Precursor::Benzene => 11,
            Precursor::Carbamide => 12,
            Precursor::PhosphoricAcid => 13,
            Precursor::HydrofluoricAcid => 14,
            Precursor::Hydrazine => 15,
            Precursor::Butanone => 16,
            Precursor::ThionylChloride => 17,
            Precursor::Dioxane => 18,
            Precursor::Toluene => 19,
            Precursor::FormicAcid => 20,
            Precursor::Butylene => 21,
            Precursor::Isobutane => 22,
            Precursor::Triazine => 23,
        }
    }

    /// The substance that an integer stands for, and an error that carries
    /// the integer where it stands for none.
    pub open spec fn of_code(value: i32) -> Result<Precursor, DecodeError> {
        match value {
            0 => Ok(Precursor::Invalid),
            1 => Ok(Precursor::Water),
            2 => Ok(Precursor::Ammonia),
            3 => Ok(Precursor::HydrochloricAcid),
            4 => Ok(Precursor::SulfuricAcid),
            5 => Ok(Precursor::Acetone),
            6 => Ok(Precursor::Cyclohexane),
            7 => Ok(Precursor::Methanol),
            8 => Ok(Precursor::EthyleneGlycol),
            9 => Ok(Precursor::Propene),
            10 => Ok(Precursor::AceticAcid),
            11 => Ok(Precursor::Benzene),
            12 => Ok(Precursor::Carbamide),
            13 => Ok(Precursor::PhosphoricAcid),
            14 => Ok(Precursor::HydrofluoricAcid),
            15 => Ok(Precursor::Hydrazine),
            16 => Ok(Precursor::Butanone),
            17 => Ok(Precursor::ThionylChloride),
            18 => Ok(Precursor::Dioxane),
            19 => Ok(Precursor::Toluene),
            20 => Ok(Precursor::FormicAcid),
            21 => Ok(Precursor::Butylene),
            22 => Ok(Precursor::Isobutane),
            23 => Ok(Precursor::Triazine),
            _ => Err(DecodeError::Malformed(Malformed::Precursor(value))),
        }
    }
}

impl TryFrom<i32> for Precursor {
    type Error = DecodeError;

    fn try_from(value: i32) -> (r: Result<Self, Self::Error>) {
        match value {
            0 => Ok(Precursor::Invalid),
            1 => Ok(Precursor::Water),
            2 => Ok(Precursor::Ammonia),
            3 => Ok(Precursor::HydrochloricAcid),
            4 => Ok(Precursor::SulfuricAcid),
            5 => Ok(Precursor::Acetone),
            6 => Ok(Precursor::Cyclohexane),
            7 => Ok(Precursor::Methanol),
            8 => Ok(Precursor::EthyleneGlycol),
            9 => Ok(Precursor::Propene),
            10 => Ok(Precursor::AceticAcid),
            11 => Ok(Precursor::Benzene),
            12 => Ok(Precursor::Carbamide),
            13 => Ok(Precursor::PhosphoricAcid),
            14 => Ok(Precursor::HydrofluoricAcid),
            15 => Ok(Precursor::Hydrazine),
            16 => Ok(Precursor::Butanone),
            17 => Ok(Precursor::ThionylChloride),
            18 => Ok(Precursor::Dioxane),
            19 => Ok(Precursor::Toluene),
            20 => Ok(Precursor::FormicAcid),
            21 => Ok(Precursor::Butylene),
            22 => Ok(Precursor::Isobutane),
            23 => Ok(Precursor::Triazine),
            _ => Err(DecodeError::Malformed(Malformed::Precursor(value))),
        }
    }
}

impl TryFromSpecImpl<i32> for Precursor {
    open spec fn obeys_try_from_spec() -> bool {
        true
    }

    open spec fn try_from_spec(value: i32) -> Result<Self, Self::Error> {
        Precursor::of_code(value)
    }
}

impl From<Precursor> for i32 {
    fn from(value: Precursor) -> (r: i32) {
        match value {
            Precursor::Invalid => 0,
            Precursor::Water => 1,
            Precursor::Ammonia => 2,
            Precursor::HydrochloricAcid => 3,
            Precursor::SulfuricAcid => 4,
            Precursor::Acetone => 5,
            Precursor::Cyclohexane => 6,
            Precursor::Methanol => 7,
            Precursor::EthyleneGlycol => 8,
            Precursor::Propene => 9,
            Precursor::AceticAcid => 10,
            Precursor::Benzene => 11,
            Precursor::Carbamide => 12,
            Precursor::PhosphoricAcid => 13,
            Precursor::HydrofluoricAcid => 14,
            Precursor::Hydrazine => 15,
            Precursor::Butanone => 16,
            Precursor::ThionylChloride => 17,
            Precursor::Dioxane => 18,
            Precursor::Toluene => 19,
            Precursor::FormicAcid => 20,
            Precursor::Butylene => 21,
            Precursor::Isobutane => 22,
            Precursor::Triazine => 23,
        }
    }
}

impl FromSpecImpl<Precursor> for i32 {
    open spec fn obeys_from_spec() -> bool {
        true
    }

    open spec fn from_spec(value: Precursor) -> i32 {
        value.code()
    }
}

impl DeepView for Precursor {
    type V = Precursor;

    open spec fn deep_view(&self) -> Precursor {
        *self
    }
}

impl BinData for Precursor {
    open spec fn decoded(bytes: Seq<u8>) -> Result<(Precursor, nat), DecodeError> {
        match i32::decoded(bytes) {
            Err(e) => Err(e),
            Ok((raw, used)) => match Precursor::of_code(raw) {
                Err(e) => Err(e),
                Ok(value) => Ok((value, used)),
            },
        }
    }

    open spec fn encodable(value: Precursor) -> bool {
        true
    }

    open spec fn canonical(value: Precursor) -> bool {
        true
    }

    open spec fn encoded(value: Precursor) -> Seq<u8> {
        i32::encoded(value.code())
    }

    proof fn lemma_decoded_bound(bytes: Seq<u8>) {
    }

    proof fn lemma_decoded_prefix(bytes: Seq<u8>, more: Seq<u8>) {
        i32::lemma_decoded_prefix(bytes, more);
    }

    proof fn lemma_round_trip(value: Precursor, rest: Seq<u8>) {
        i32::lemma_round_trip(value.code(), rest);
    }

    fn read(source: &[u8]) -> (r: Result<(Self, usize), DecodeError>) {
        let (raw, used) = i32::read(source)?;
        match Precursor::try_from(raw) {
            Ok(value) => Ok((value, used)),
            Err(e) => Err(e),
        }
    }

    fn write(&self, sink: &mut Vec<u8>) -> (r: Result<(), EncodeError>) {
        let raw: i32 = i32::from(*self);
        raw.write(sink)
    }
}

/// Each precursor has a code of its own from 0 to 23, and the code stands for
/// it: decoding what encoding gave returns the precursor.
pub proof fn lemma_precursor_code(value: Precursor)
    ensures
        0 <= value.code() <= 23,
        Precursor::of_code(value.code()) == Ok::<Precursor, DecodeError>(value),
{
}

/// An integer from 0 to 23 stands for the precursor that has it as its code.
/// Every other integer is refused, with the error that carries it; none
/// stands for a precursor by default.
pub proof fn lemma_precursor_of_code(value: i32)
    ensures
        0 <= value <= 23 ==> (Precursor::of_code(value) matches Ok(found) && found.code() == value),
        !(0 <= value <= 23) ==> Precursor::of_code(value) == Err::<Precursor, DecodeError>(
            DecodeError::Malformed(Malformed::Precursor(value)),
        ),
{
}

/// On the wire, an integer that holds no code of a precursor is malformed, and one
/// that holds a code decodes to the precursor with that code.
pub proof fn lemma_precursor_decoded(bytes: Seq<u8>)
    ensures
        match i32::decoded(bytes) {
            Err(e) => Precursor::decoded(bytes) == Err::<(Precursor, nat), DecodeError>(e),
            Ok((raw, used)) => if 0 <= raw <= 23 {
                Precursor::decoded(bytes) matches Ok((found, n)) && found.code() == raw && n == used
            } else {
                Precursor::decoded(bytes) == Err::<(Precursor, nat), DecodeError>(
                    DecodeError::Malformed(Malformed::Precursor(raw)),
                )
            },
        },
{
}

} // verus!
