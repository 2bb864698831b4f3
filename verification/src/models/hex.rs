//! Positions and orientations on the hexagonal grid.

use crate::bin::BinData;
use crate::combinators::{
    following,
    lemma_following_bound,
    lemma_following_prefix,
    lemma_following_round_trip,
    read_following,
    restore,
};
use crate::error::{DecodeError, EncodeError};
use std::ops::Neg;
use vstd::prelude::*;
use vstd::std_specs::convert::FromSpecImpl;
use vstd::std_specs::ops::NegSpecImpl;

verus! {

/// Axial coordinates on the hexagonal grid. The origin is the centre of the
/// board; `a` grows to the right, `b` up and to the right, at 60 degrees to
/// `a`.
#[derive(Debug, Default, PartialEq, Eq)]
pub struct Hex<T = i32> {
    pub a: T,
    pub b: T,
}

impl<T: Clone> Clone for Hex<T> {
    fn clone(&self) -> (r: Self)
        ensures
            cloned(self.a, r.a),
            cloned(self.b, r.b),
    {
        Hex { a: self.a.clone(), b: self.b.clone() }
    }
}

impl<T: Copy> Copy for Hex<T> {

}

impl<T: DeepView> DeepView for Hex<T> {
    type V = Hex<T::V>;

    open spec fn deep_view(&self) -> Hex<T::V> {
        Hex { a: self.a.deep_view(), b: self.b.deep_view() }
    }
}

impl<T: BinData> BinData for Hex<T> {
    open spec fn decoded(bytes: Seq<u8>) -> Result<(Hex<T::V>, nat), DecodeError> {
        match T::decoded(bytes) {
            Err(e) => Err(e),
            Ok((a, used)) => match following::<T>(bytes, used) {
                Err(e) => Err(e),
                Ok((b, end)) => Ok((Hex { a, b }, end)),
            },
        }
    }

    open spec fn encodable(value: Hex<T::V>) -> bool {
        T::encodable(value.a) && T::encodable(value.b)
    }

    open spec fn canonical(value: Hex<T::V>) -> bool {
        T::canonical(value.a) && T::canonical(value.b)
    }

    open spec fn encoded(value: Hex<T::V>) -> Seq<u8> {
        T::encoded(value.a) + T::encoded(value.b)
    }

    proof fn lemma_decoded_bound(bytes: Seq<u8>) {
        T::lemma_decoded_bound(bytes);
        if let Ok((_, used)) = T::decoded(bytes) {
            lemma_following_bound::<T>(bytes, used);
        }
    }

    proof fn lemma_decoded_prefix(bytes: Seq<u8>, more: Seq<u8>) {
        T::lemma_decoded_bound(bytes);
        T::lemma_decoded_prefix(bytes, more);
        if let Ok((_, used)) = T::decoded(bytes) {
            lemma_following_prefix::<T>(bytes, more, used);
        }
    }

    proof fn lemma_round_trip(value: Hex<T::V>, rest: Seq<u8>) {
        let head = T::encoded(value.a);
        assert(head + T::encoded(value.b) + rest =~= head + (T::encoded(value.b) + rest));
        T::lemma_round_trip(value.a, T::encoded(value.b) + rest);
        lemma_following_round_trip::<T>(head, value.b, rest);
    }

    fn read(source: &[u8]) -> (r: Result<(Self, usize), DecodeError>) {
        let (a, used) = T::read(source)?;
        proof {
            T::lemma_decoded_bound(source@);
        }
        let (b, end) = read_following::<T>(source, used)?;
        Ok((Hex { a, b }, end))
    }

    fn write(&self, sink: &mut Vec<u8>) -> (r: Result<(), EncodeError>) {
        let start: usize = sink.len();
        self.a.write(sink)?;
        match self.b.write(sink) {
            Ok(()) => {
                assert(sink@ =~= old(sink)@ + Self::encoded(self.deep_view()));
                Ok(())
            },
            Err(e) => {
                restore(sink, start);
                assert(sink@ =~= old(sink)@);
                Err(e)
            },
        }
    }
}

/// One of the six orientations on the grid, counted in steps of 60 degrees
/// counter-clockwise from 12 o'clock.
#[derive(Debug, Clone, Copy, PartialEq, Eq, Structural)]
pub enum Rotation {
    /// 12 o'clock
    R0,
    /// 10 o'clock
    R60,
    /// 8 o'clock
    R120,
    /// 6 o'clock
    R180,
    /// 4 o'clock
    R240,
    /// 2 o'clock
    R300,
}

impl Rotation {
    /// The number of steps of 60 degrees, from 0 to 5.
    pub open spec fn turns(self) -> i32 {
        match self {
            Rotation::R0 => 0,
            Rotation::R60 => 1,
            Rotation::R120 => 2,
            Rotation::R180 => 3,
            Rotation::R240 => 4,
            Rotation::R300 => 5,
        }
    }

    /// The orientation reached after any number of steps, forward or back:
    /// six steps are a full turn.
    pub open spec fn of_turns(steps: int) -> Rotation {
        let turns = steps % 6;
        if turns == 0 {
            Rotation::R0
        } else if turns == 1 {
            Rotation::R60
        } else if turns == 2 {
            Rotation::R120
        } else if turns == 3 {
            Rotation::R180
        } else if turns == 4 {
            Rotation::R240
        } else {
            Rotation::R300
        }
    }
}

impl Rotation {
    /// The orientation that undoes this one: as many steps back.
    pub open spec fn negated(self) -> Rotation {
        Rotation::of_turns(-self.turns())
    }
}

impl Default for Rotation {
    fn default() -> (r: Rotation)
        ensures
            r == Rotation::R0,
    {
        Rotation::R0
    }
}

impl Neg for Rotation {
    type Output = Rotation;

    fn neg(self) -> (r: Rotation) {
        match self {
            Rotation::R0 => Rotation::R0,
            Rotation::R60 => Rotation::R300,
            Rotation::R120 => Rotation::R240,
            Rotation::R180 => Rotation::R180,
            Rotation::R240 => Rotation::R120,
            Rotation::R300 => Rotation::R60,
        }
    }
}

impl NegSpecImpl for Rotation {
    open spec fn obeys_neg_spec() -> bool {
        true
    }

    open spec fn neg_req(self) -> bool {
        true
    }

    open spec fn neg_spec(self) -> Rotation {
        self.negated()
    }
}

impl From<i32> for Rotation {
    fn from(value: i32) -> (r: Rotation) {
        let turns: i32 = if value >= 0 {
            value % 6
        } else {
            5 - ((-1 - value) % 6)
        };
        if turns == 0 {
            Rotation::R0
        } else if turns == 1 {
            Rotation::R60
        } else if turns == 2 {
            Rotation::R120
        } else if turns == 3 {
            Rotation::R180
        } else if turns == 4 {
            Rotation::R240
        } else {
            Rotation::R300
        }
    }
}

impl FromSpecImpl<i32> for Rotation {
    open spec fn obeys_from_spec() -> bool {
        true
    }

    open spec fn from_spec(value: i32) -> Rotation {
        Rotation::of_turns(value as int)
    }
}

impl From<Rotation> for i32 {
    fn from(value: Rotation) -> (r: i32) {
        match value {
            Rotation::R0 => 0,
            Rotation::R60 => 1,
            Rotation::R120 => 2,
            Rotation::R180 => 3,
            Rotation::R240 => 4,
            Rotation::R300 => 5,
        }
    }
}

impl FromSpecImpl<Rotation> for i32 {
    open spec fn obeys_from_spec() -> bool {
        true
    }

    open spec fn from_spec(value: Rotation) -> i32 {
        value.turns()
    }
}

impl DeepView for Rotation {
    type V = Rotation;

    open spec fn deep_view(&self) -> Rotation {
        *self
    }
}

impl BinData for Rotation {
    open spec fn decoded(bytes: Seq<u8>) -> Result<(Rotation, nat), DecodeError> {
        match i32::decoded(bytes) {
            Err(e) => Err(e),
            Ok((raw, used)) => Ok((Rotation::of_turns(raw as int), used)),
        }
    }

    open spec fn encodable(value: Rotation) -> bool {
        true
    }

    open spec fn canonical(value: Rotation) -> bool {
        true
    }

    open spec fn encoded(value: Rotation) -> Seq<u8> {
        i32::encoded(value.turns())
    }

    proof fn lemma_decoded_bound(bytes: Seq<u8>) {
    }

    proof fn lemma_decoded_prefix(bytes: Seq<u8>, more: Seq<u8>) {
        i32::lemma_decoded_prefix(bytes, more);
    }

    proof fn lemma_round_trip(value: Rotation, rest: Seq<u8>) {
        i32::lemma_round_trip(value.turns(), rest);
    }

    fn read(source: &[u8]) -> (r: Result<(Self, usize), DecodeError>) {
        let (raw, used) = i32::read(source)?;
        Ok((Rotation::from(raw), used))
    }

    fn write(&self, sink: &mut Vec<u8>) -> (r: Result<(), EncodeError>) {
        let raw: i32 = i32::from(*self);
        raw.write(sink)
    }
}

/// Any number of steps leads to one of the six orientations: the one whose
/// count is the remainder of the steps by six, taken from 0 to 5 also where
/// the steps are negative.
pub proof fn lemma_rotation_of_turns(steps: int)
    ensures
        0 <= Rotation::of_turns(steps).turns() <= 5,
        Rotation::of_turns(steps).turns() == steps % 6,
{
}

/// The count of an orientation leads back to it: decoding what encoding
/// gave returns the orientation.
pub proof fn lemma_rotation_turns(value: Rotation)
    ensures
        0 <= value.turns() <= 5,
        Rotation::of_turns(value.turns() as int) == value,
{
}

/// On the wire every 32-bit integer is an orientation: decoding fails only
/// where the integer itself is cut short.
pub proof fn lemma_rotation_decoded(bytes: Seq<u8>)
    ensures
        match i32::decoded(bytes) {
            Err(e) => Rotation::decoded(bytes) == Err::<(Rotation, nat), DecodeError>(e),
            Ok((raw, used)) => Rotation::decoded(bytes) == Ok::<(Rotation, nat), DecodeError>(
                (Rotation::of_turns(raw as int), used),
            ),
        },
        bytes.len() >= 4 ==> Rotation::decoded(bytes) is Ok,
{
}

/// Undoing twice changes nothing, and an orientation followed by the one
/// that undoes it is no turn at all.
pub proof fn lemma_rotation_negated(value: Rotation)
    ensures
        value.negated().negated() == value,
        Rotation::of_turns(value.turns() + value.negated().turns()) == Rotation::R0,
{
}

} // verus!
