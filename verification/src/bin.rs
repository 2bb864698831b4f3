//! The byte-level codec: what a type's values look like on the wire, and the
//! primitive kinds that every record is built from.
//!
//! All integers are little-endian. A decoder works on the bytes that remain
//! and says how many of them the value took; an encoder appends to a sink.

use crate::error::{DecodeError, EncodeError};
use vstd::prelude::*;

verus! {

/// A type whose values have a binary form.
///
/// The four spec functions are the format: `decoded` says what every byte
/// sequence decodes to, `encoded` what a value is written as, `encodable`
/// which values can be written at all, and `canonical` which values reading
/// hands back unchanged. `read` and `write` compute them.
pub trait BinData: Sized + DeepView {
    /// The value at the start of `bytes` and the number of bytes that it
    /// takes, or the first error that decoding meets.
    spec fn decoded(bytes: Seq<u8>) -> Result<(Self::V, nat), DecodeError>;

    /// Whether the format has room for the value.
    spec fn encodable(value: Self::V) -> bool;

    /// Whether the value is one that reading can give back as it is.
    spec fn canonical(value: Self::V) -> bool;

    /// The bytes that stand for the value.
    spec fn encoded(value: Self::V) -> Seq<u8>;

    /// Decoding takes no more bytes than there are.
    proof fn lemma_decoded_bound(bytes: Seq<u8>)
        ensures
            Self::decoded(bytes) matches Ok((_, used)) ==> used <= bytes.len(),
    ;

    /// What follows a value on the wire has no part in how it decodes.
    proof fn lemma_decoded_prefix(bytes: Seq<u8>, more: Seq<u8>)
        requires
            Self::decoded(bytes) is Ok,
        ensures
            Self::decoded(bytes + more) == Self::decoded(bytes),
    ;

    /// Decoding what was encoded gives the value back, and takes exactly the
    /// bytes that encoding wrote, whatever follows them.
    proof fn lemma_round_trip(value: Self::V, rest: Seq<u8>)
        requires
            Self::encodable(value),
            Self::canonical(value),
        ensures
            Self::decoded(Self::encoded(value) + rest) == Ok::<(Self::V, nat), DecodeError>(
                (value, Self::encoded(value).len()),
            ),
    ;

    /// Decodes the value at the start of `source`. Returns it with the number
    /// of bytes that it took.
    fn read(source: &[u8]) -> (r: Result<(Self, usize), DecodeError>)
        ensures
            match Self::decoded(source@) {
                Ok((value, n)) => (r matches Ok((item, used)) && item.deep_view() == value && used
                    == n),
                Err(e) => r == Err::<(Self, usize), DecodeError>(e),
            },
    ;

    /// Appends the value's bytes to `sink`. A value that the format has no
    /// room for is refused, and `sink` is then left as it was.
    fn write(&self, sink: &mut Vec<u8>) -> (r: Result<(), EncodeError>)
        ensures
            r is Ok <==> Self::encodable(self.deep_view()),
            r is Ok ==> final(sink)@ == old(sink)@ + Self::encoded(self.deep_view()),
            r is Err ==> final(sink)@ == old(sink)@,
    ;
}

/// The unsigned integer that four bytes spell, least significant byte first.
#[verifier::opaque]
pub open spec fn u32_of_le(b: Seq<u8>) -> u32
    recommends
        b.len() >= 4,
{
    (b[0] as int + 0x100 * (b[1] as int) + 0x1_0000 * (b[2] as int) + 0x100_0000 * (
    b[3] as int)) as u32
}

/// The four bytes of an unsigned integer, least significant byte first.
#[verifier::opaque]
pub open spec fn le_of_u32(x: u32) -> Seq<u8> {
    seq![
        (x % 0x100) as u8,
        (x / 0x100 % 0x100) as u8,
        (x / 0x1_0000 % 0x100) as u8,
        (x / 0x100_0000) as u8,
    ]
}

/// The signed reading of 32 bits, in two's complement.
pub open spec fn i32_of_u32(x: u32) -> i32 {
    if x < 0x8000_0000 {
        x as i32
    } else {
        (x - 0x1_0000_0000) as i32
    }
}

/// The unsigned reading of 32 bits, in two's complement.
pub open spec fn u32_of_i32(x: i32) -> u32 {
    if x >= 0 {
        x as u32
    } else {
        (x + 0x1_0000_0000) as u32
    }
}

/// Computes the signed reading of 32 bits.
pub fn to_signed(x: u32) -> (r: i32)
    ensures
        r == i32_of_u32(x),
{
    if x < 0x8000_0000 {
        x as i32
    } else {
        let wide: i64 = x as i64;
        (wide - 0x1_0000_0000) as i32
    }
}

/// Computes the unsigned reading of 32 bits.
pub fn to_unsigned(x: i32) -> (r: u32)
    ensures
        r == u32_of_i32(x),
{
    if x >= 0 {
        x as u32
    } else {
        let wide: i64 = x as i64;
        (wide + 0x1_0000_0000) as u32
    }
}

/// The two readings of 32 bits undo each other.
pub proof fn lemma_signed_unsigned(x: u32, y: i32)
    ensures
        u32_of_i32(i32_of_u32(x)) == x,
        i32_of_u32(u32_of_i32(y)) == y,
{
}

/// Four bytes spell the integer whose bytes they are.
pub proof fn lemma_le_of_u32(x: u32)
    ensures
        le_of_u32(x).len() == 4,
        u32_of_le(le_of_u32(x)) == x,
{
    reveal(u32_of_le);
    reveal(le_of_u32);
}

/// The integer that four bytes spell does not depend on what follows them.
pub proof fn lemma_u32_of_le_prefix(b: Seq<u8>, more: Seq<u8>)
    requires
        b.len() >= 4,
    ensures
        u32_of_le(b + more) == u32_of_le(b),
{
    reveal(u32_of_le);
}

impl BinData for u8 {
    open spec fn decoded(bytes: Seq<u8>) -> Result<(u8, nat), DecodeError> {
        if bytes.len() >= 1 {
            Ok((bytes[0], 1))
        } else {
            Err(DecodeError::Truncated)
        }
    }

    open spec fn encodable(value: u8) -> bool {
        true
    }

    open spec fn canonical(value: u8) -> bool {
        true
    }

    open spec fn encoded(value: u8) -> Seq<u8> {
        seq![value]
    }

    proof fn lemma_decoded_bound(bytes: Seq<u8>) {
    }

    proof fn lemma_decoded_prefix(bytes: Seq<u8>, more: Seq<u8>) {
    }

    proof fn lemma_round_trip(value: u8, rest: Seq<u8>) {
    }

    fn read(source: &[u8]) -> (r: Result<(Self, usize), DecodeError>) {
        if source.len() < 1 {
            Err(DecodeError::Truncated)
        } else {
            Ok((source[0], 1))
        }
    }

    fn write(&self, sink: &mut Vec<u8>) -> (r: Result<(), EncodeError>) {
        sink.push(*self);
        Ok(())
    }
}

impl BinData for bool {
    open spec fn decoded(bytes: Seq<u8>) -> Result<(bool, nat), DecodeError> {
        match u8::decoded(bytes) {
            Ok((byte, used)) => Ok((byte != 0, used)),
            Err(e) => Err(e),
        }
    }

    open spec fn encodable(value: bool) -> bool {
        true
    }

    open spec fn canonical(value: bool) -> bool {
        true
    }

    open spec fn encoded(value: bool) -> Seq<u8> {
        seq![
            if value {
                1u8
            } else {
                0u8
            },
        ]
    }

    proof fn lemma_decoded_bound(bytes: Seq<u8>) {
    }

    proof fn lemma_decoded_prefix(bytes: Seq<u8>, more: Seq<u8>) {
    }

    proof fn lemma_round_trip(value: bool, rest: Seq<u8>) {
    }

    fn read(source: &[u8]) -> (r: Result<(Self, usize), DecodeError>) {
        let (byte, used) = u8::read(source)?;
        Ok((byte != 0, used))
    }

    fn write(&self, sink: &mut Vec<u8>) -> (r: Result<(), EncodeError>) {
        let byte: u8 = if *self {
            1
        } else {
            0
        };
        sink.push(byte);
        Ok(())
    }
}

impl BinData for u32 {
    open spec fn decoded(bytes: Seq<u8>) -> Result<(u32, nat), DecodeError> {
        if bytes.len() >= 4 {
            Ok((u32_of_le(bytes), 4))
        } else {
            Err(DecodeError::Truncated)
        }
    }

    open spec fn encodable(value: u32) -> bool {
        true
    }

    open spec fn canonical(value: u32) -> bool {
        true
    }

    open spec fn encoded(value: u32) -> Seq<u8> {
        le_of_u32(value)
    }

    proof fn lemma_decoded_bound(bytes: Seq<u8>) {
    }

    proof fn lemma_decoded_prefix(bytes: Seq<u8>, more: Seq<u8>) {
        lemma_u32_of_le_prefix(bytes, more);
    }

    proof fn lemma_round_trip(value: u32, rest: Seq<u8>) {
        lemma_le_of_u32(value);
        lemma_u32_of_le_prefix(le_of_u32(value), rest);
    }

    fn read(source: &[u8]) -> (r: Result<(Self, usize), DecodeError>) {
        if source.len() < 4 {
            Err(DecodeError::Truncated)
        } else {
            let b0: u32 = source[0] as u32;
            let b1: u32 = source[1] as u32;
            let b2: u32 = source[2] as u32;
            let b3: u32 = source[3] as u32;
            let value: u32 = b0 + 0x100 * b1 + 0x1_0000 * b2 + 0x100_0000 * b3;
            proof {
                reveal(u32_of_le);
            }
            Ok((value, 4))
        }
    }

    fn write(&self, sink: &mut Vec<u8>) -> (r: Result<(), EncodeError>) {
        let x: u32 = *self;
        sink.push((x % 0x100) as u8);
        sink.push((x / 0x100 % 0x100) as u8);
        sink.push((x / 0x1_0000 % 0x100) as u8);
        sink.push((x / 0x100_0000) as u8);
        proof {
            reveal(le_of_u32);
        }
        assert(sink@ =~= old(sink)@ + le_of_u32(x));
        Ok(())
    }
}

impl BinData for i32 {
    open spec fn decoded(bytes: Seq<u8>) -> Result<(i32, nat), DecodeError> {
        match u32::decoded(bytes) {
            Ok((bits, used)) => Ok((i32_of_u32(bits), used)),
            Err(e) => Err(e),
        }
    }

    open spec fn encodable(value: i32) -> bool {
        true
    }

    open spec fn canonical(value: i32) -> bool {
        true
    }

    open spec fn encoded(value: i32) -> Seq<u8> {
        le_of_u32(u32_of_i32(value))
    }

    proof fn lemma_decoded_bound(bytes: Seq<u8>) {
    }

    proof fn lemma_decoded_prefix(bytes: Seq<u8>, more: Seq<u8>) {
        u32::lemma_decoded_prefix(bytes, more);
    }

    proof fn lemma_round_trip(value: i32, rest: Seq<u8>) {
        u32::lemma_round_trip(u32_of_i32(value), rest);
    }

    fn read(source: &[u8]) -> (r: Result<(Self, usize), DecodeError>) {
        let (bits, used) = u32::read(source)?;
        Ok((to_signed(bits), used))
    }

    fn write(&self, sink: &mut Vec<u8>) -> (r: Result<(), EncodeError>) {
        to_unsigned(*self).write(sink)
    }
}

} // verus!
