//! Codecs that are built from the codecs of their parts: a value after
//! another, an optional value, a pair, and a counted sequence.

use crate::bin::{lemma_le_of_u32, BinData};
use crate::error::{DecodeError, EncodeError, Malformed};
use vstd::prelude::*;
use vstd::slice::slice_subrange;

verus! {

/// Decoding a `D` from the bytes after the first `used`: its value, and the
/// number of bytes taken from the start of `bytes` once it is decoded.
pub open spec fn following<D: BinData>(bytes: Seq<u8>, used: nat) -> Result<
    (D::V, nat),
    DecodeError,
> {
    match D::decoded(bytes.skip(used as int)) {
        Ok((value, n)) => Ok((value, used + n)),
        Err(e) => Err(e),
    }
}

/// A value that follows others ends no earlier than it starts and no later
/// than the bytes do.
pub proof fn lemma_following_bound<D: BinData>(bytes: Seq<u8>, used: nat)
    requires
        used <= bytes.len(),
    ensures
        following::<D>(bytes, used) matches Ok((_, end)) ==> used <= end <= bytes.len(),
{
    D::lemma_decoded_bound(bytes.skip(used as int));
}

/// What comes after a value that follows others has no part in how it
/// decodes.
pub proof fn lemma_following_prefix<D: BinData>(bytes: Seq<u8>, more: Seq<u8>, used: nat)
    requires
        used <= bytes.len(),
        following::<D>(bytes, used) is Ok,
    ensures
        following::<D>(bytes + more, used) == following::<D>(bytes, used),
{
    assert((bytes + more).skip(used as int) =~= bytes.skip(used as int) + more);
    D::lemma_decoded_prefix(bytes.skip(used as int), more);
}

/// An encoded value decodes to itself wherever it stands.
pub proof fn lemma_following_round_trip<D: BinData>(head: Seq<u8>, value: D::V, rest: Seq<u8>)
    requires
        D::encodable(value),
        D::canonical(value),
    ensures
        following::<D>(head + D::encoded(value) + rest, head.len()) == Ok::<
            (D::V, nat),
            DecodeError,
        >((value, head.len() + D::encoded(value).len())),
{
    assert((head + D::encoded(value) + rest).skip(head.len() as int) =~= D::encoded(value) + rest);
    D::lemma_round_trip(value, rest);
}

/// Bytes put together are the same however they are grouped.
pub proof fn lemma_concat_assoc(a: Seq<u8>, b: Seq<u8>, c: Seq<u8>)
    ensures
        (a + b) + c == a + (b + c),
{
    assert((a + b) + c =~= a + (b + c));
}

/// Decodes the `D` that starts after the first `used` bytes of `source`.
/// Returns it with the number of bytes taken from the start of `source`.
pub fn read_following<D: BinData>(source: &[u8], used: usize) -> (r: Result<
    (D, usize),
    DecodeError,
>)
    requires
        used <= source@.len(),
    ensures
        match following::<D>(source@, used as nat) {
            Ok((value, n)) => (r matches Ok((item, end)) && item.deep_view() == value && end == n),
            Err(e) => r == Err::<(D, usize), DecodeError>(e),
        },
        r matches Ok((_, end)) ==> used <= end <= source@.len(),
{
    let rest = slice_subrange(source, used, source.len());
    proof {
        D::lemma_decoded_bound(rest@);
    }
    let (item, n) = D::read(rest)?;
    Ok((item, used + n))
}

/// Takes back what a failed write has appended since the sink had `len`
/// bytes.
pub(crate) fn restore(sink: &mut Vec<u8>, len: usize)
    requires
        len <= old(sink)@.len(),
    ensures
        final(sink)@ == old(sink)@.take(len as int),
{
    sink.truncate(len);
}

impl<D: BinData> BinData for Option<D> {
    open spec fn decoded(bytes: Seq<u8>) -> Result<(Option<D::V>, nat), DecodeError> {
        match bool::decoded(bytes) {
            Err(e) => Err(e),
            Ok((present, used)) => if present {
                match following::<D>(bytes, used) {
                    Err(e) => Err(e),
                    Ok((value, end)) => Ok((Some(value), end)),
                }
            } else {
                Ok((None, used))
            },
        }
    }

    open spec fn encodable(value: Option<D::V>) -> bool {
        match value {
            Some(inner) => D::encodable(inner),
            None => true,
        }
    }

    open spec fn canonical(value: Option<D::V>) -> bool {
        match value {
            Some(inner) => D::canonical(inner),
            None => true,
        }
    }

    open spec fn encoded(value: Option<D::V>) -> Seq<u8> {
        match value {
            Some(inner) => bool::encoded(true) + D::encoded(inner),
            None => bool::encoded(false),
        }
    }

    proof fn lemma_decoded_bound(bytes: Seq<u8>) {
        if bool::decoded(bytes) is Ok {
            lemma_following_bound::<D>(bytes, 1);
        }
    }

    proof fn lemma_decoded_prefix(bytes: Seq<u8>, more: Seq<u8>) {
        if bool::decoded(bytes) matches Ok((present, _)) && present {
            lemma_following_prefix::<D>(bytes, more, 1);
        }
    }

    proof fn lemma_round_trip(value: Option<D::V>, rest: Seq<u8>) {
        match value {
            Some(inner) => {
                lemma_following_round_trip::<D>(bool::encoded(true), inner, rest);
            },
            None => {},
        }
    }

    fn read(source: &[u8]) -> (r: Result<(Self, usize), DecodeError>) {
        let (present, used) = bool::read(source)?;
        if present {
            let (item, end) = read_following::<D>(source, used)?;
            Ok((Some(item), end))
        } else {
            Ok((None, used))
        }
    }

    fn write(&self, sink: &mut Vec<u8>) -> (r: Result<(), EncodeError>) {
        match self {
            Some(item) => {
                let start: usize = sink.len();
                true.write(sink)?;
                match item.write(sink) {
                    Ok(()) => Ok(()),
                    Err(e) => {
                        restore(sink, start);
                        assert(sink@ =~= old(sink)@);
                        Err(e)
                    },
                }
            },
            None => false.write(sink),
        }
    }
}

impl<D1: BinData, D2: BinData> BinData for (D1, D2) {
    open spec fn decoded(bytes: Seq<u8>) -> Result<((D1::V, D2::V), nat), DecodeError> {
        match D1::decoded(bytes) {
            Err(e) => Err(e),
            Ok((first, used)) => match following::<D2>(bytes, used) {
                Err(e) => Err(e),
                Ok((second, end)) => Ok(((first, second), end)),
            },
        }
    }

    open spec fn encodable(value: (D1::V, D2::V)) -> bool {
        D1::encodable(value.0) && D2::encodable(value.1)
    }

    open spec fn canonical(value: (D1::V, D2::V)) -> bool {
        D1::canonical(value.0) && D2::canonical(value.1)
    }

    open spec fn encoded(value: (D1::V, D2::V)) -> Seq<u8> {
        D1::encoded(value.0) + D2::encoded(value.1)
    }

    proof fn lemma_decoded_bound(bytes: Seq<u8>) {
        D1::lemma_decoded_bound(bytes);
        if let Ok((_, used)) = D1::decoded(bytes) {
            lemma_following_bound::<D2>(bytes, used);
        }
    }

    proof fn lemma_decoded_prefix(bytes: Seq<u8>, more: Seq<u8>) {
        D1::lemma_decoded_bound(bytes);
        D1::lemma_decoded_prefix(bytes, more);
        if let Ok((_, used)) = D1::decoded(bytes) {
            lemma_following_prefix::<D2>(bytes, more, used);
        }
    }

    proof fn lemma_round_trip(value: (D1::V, D2::V), rest: Seq<u8>) {
        let head = D1::encoded(value.0);
        assert(head + D2::encoded(value.1) + rest =~= head + (D2::encoded(value.1) + rest));
        D1::lemma_round_trip(value.0, D2::encoded(value.1) + rest);
        lemma_following_round_trip::<D2>(head, value.1, rest);
    }

    fn read(source: &[u8]) -> (r: Result<(Self, usize), DecodeError>) {
        let (first, used) = D1::read(source)?;
        proof {
            D1::lemma_decoded_bound(source@);
        }
        let (second, end) = read_following::<D2>(source, used)?;
        Ok(((first, second), end))
    }

    fn write(&self, sink: &mut Vec<u8>) -> (r: Result<(), EncodeError>) {
        let start: usize = sink.len();
        self.0.write(sink)?;
        match self.1.write(sink) {
            Ok(()) => {
                assert(sink@ =~= old(sink)@ + Self::encoded(self.deep_view()));
                Ok(())
            },
            Err(e) => {
                restore(sink, start);
                assert(sink@ =~= old(sink)@);
                Err(e)
            },
        }
    }
}

/// Decoding `count` values of `D`, one after another, from the bytes after
/// the first `start`: the values in order, and the number of bytes taken
/// from the start of `bytes` once the last is decoded.
pub open spec fn decode_items<D: BinData>(bytes: Seq<u8>, start: nat, count: nat) -> Result<
    (Seq<D::V>, nat),
    DecodeError,
>
    decreases count,
{
    if count == 0 {
        Ok((Seq::empty(), start))
    } else {
        match decode_items::<D>(bytes, start, (count - 1) as nat) {
            Err(e) => Err(e),
            Ok((items, used)) => match following::<D>(bytes, used) {
                Err(e) => Err(e),
                Ok((item, end)) => Ok((items.push(item), end)),
            },
        }
    }
}

/// The bytes of the values of a sequence, one after another.
pub open spec fn encode_items<D: BinData>(items: Seq<D::V>) -> Seq<u8>
    decreases items.len(),
{
    if items.len() == 0 {
        Seq::empty()
    } else {
        encode_items::<D>(items.drop_last()) + D::encoded(items.last())
    }
}

/// Whether each value of a sequence can be written.
pub open spec fn each_encodable<D: BinData>(items: Seq<D::V>) -> bool {
    forall|i: int| 0 <= i < items.len() ==> D::encodable(#[trigger] items[i])
}

/// Whether each value of a sequence is one that reading gives back as it is.
pub open spec fn each_canonical<D: BinData>(items: Seq<D::V>) -> bool {
    forall|i: int| 0 <= i < items.len() ==> D::canonical(#[trigger] items[i])
}

/// Decoded values are as many as were asked for, and they end within the
/// bytes.
pub proof fn lemma_items_bound<D: BinData>(bytes: Seq<u8>, start: nat, count: nat)
    requires
        start <= bytes.len(),
    ensures
        decode_items::<D>(bytes, start, count) matches Ok((items, end)) ==> items.len() == count
            && start <= end <= bytes.len(),
    decreases count,
{
    if count > 0 {
        lemma_items_bound::<D>(bytes, start, (count - 1) as nat);
        if let Ok((_, used)) = decode_items::<D>(bytes, start, (count - 1) as nat) {
            lemma_following_bound::<D>(bytes, used);
        }
    }
}

/// The error that stops the decoding of some values stops that of more.
pub proof fn lemma_items_error<D: BinData>(bytes: Seq<u8>, start: nat, fewer: nat, count: nat)
    requires
        fewer <= count,
        decode_items::<D>(bytes, start, fewer) is Err,
    ensures
        decode_items::<D>(bytes, start, count) == decode_items::<D>(bytes, start, fewer),
    decreases count,
{
    if fewer < count {
        lemma_items_error::<D>(bytes, start, fewer, (count - 1) as nat);
    }
}

/// What comes after the last of the values has no part in how they decode.
pub proof fn lemma_items_prefix<D: BinData>(
    bytes: Seq<u8>,
    more: Seq<u8>,
    start: nat,
    count: nat,
)
    requires
        start <= bytes.len(),
        decode_items::<D>(bytes, start, count) is Ok,
    ensures
        decode_items::<D>(bytes + more, start, count) == decode_items::<D>(bytes, start, count),
    decreases count,
{
    if count > 0 {
        lemma_items_prefix::<D>(bytes, more, start, (count - 1) as nat);
        lemma_items_bound::<D>(bytes, start, (count - 1) as nat);
        if let Ok((_, used)) = decode_items::<D>(bytes, start, (count - 1) as nat) {
            lemma_following_prefix::<D>(bytes, more, used);
        }
    }
}

/// Encoded values decode to themselves wherever they stand.
pub proof fn lemma_items_round_trip<D: BinData>(head: Seq<u8>, items: Seq<D::V>, rest: Seq<u8>)
    requires
        each_encodable::<D>(items),
        each_canonical::<D>(items),
    ensures
        decode_items::<D>(head + encode_items::<D>(items) + rest, head.len(), items.len()) == Ok::<
            (Seq<D::V>, nat),
            DecodeError,
        >((items, head.len() + encode_items::<D>(items).len())),
    decreases items.len(),
{
    let bytes = head + encode_items::<D>(items) + rest;
    if items.len() == 0 {
        assert(items =~= Seq::empty());
    } else {
        let init = items.drop_last();
        let last = items.last();
        let front = head + encode_items::<D>(init);
        assert(bytes =~= head + encode_items::<D>(init) + (D::encoded(last) + rest));
        lemma_items_round_trip::<D>(head, init, D::encoded(last) + rest);
        assert(bytes =~= front + D::encoded(last) + rest);
        lemma_following_round_trip::<D>(front, last, rest);
        assert(init.push(last) =~= items);
    }
}

/// The bytes of a sequence with one more value are those of the sequence and
/// then those of the value.
pub proof fn lemma_encode_items_push<D: BinData>(items: Seq<D::V>, item: D::V)
    ensures
        encode_items::<D>(items.push(item)) == encode_items::<D>(items) + D::encoded(item),
{
    assert(items.push(item).drop_last() =~= items);
}

impl<D: BinData> BinData for Vec<D> {
    open spec fn decoded(bytes: Seq<u8>) -> Result<(Seq<D::V>, nat), DecodeError> {
        match i32::decoded(bytes) {
            Err(e) => Err(e),
            Ok((count, used)) => if count < 0 {
                Err(DecodeError::Malformed(Malformed::NegativeCount(count)))
            } else {
                decode_items::<D>(bytes, used, count as nat)
            },
        }
    }

    open spec fn encodable(value: Seq<D::V>) -> bool {
        value.len() <= i32::MAX && each_encodable::<D>(value)
    }

    open spec fn canonical(value: Seq<D::V>) -> bool {
        each_canonical::<D>(value)
    }

    open spec fn encoded(value: Seq<D::V>) -> Seq<u8> {
        i32::encoded(value.len() as i32) + encode_items::<D>(value)
    }

    proof fn lemma_decoded_bound(bytes: Seq<u8>) {
        if let Ok((count, used)) = i32::decoded(bytes) {
            if count >= 0 {
                lemma_items_bound::<D>(bytes, used, count as nat);
            }
        }
    }

    proof fn lemma_decoded_prefix(bytes: Seq<u8>, more: Seq<u8>) {
        if let Ok((count, used)) = i32::decoded(bytes) {
            i32::lemma_decoded_prefix(bytes, more);
            lemma_items_prefix::<D>(bytes, more, used, count as nat);
        }
    }

    proof fn lemma_round_trip(value: Seq<D::V>, rest: Seq<u8>) {
        let head = i32::encoded(value.len() as i32);
        assert(head + encode_items::<D>(value) + rest =~= head + (encode_items::<D>(value) + rest));
        i32::lemma_round_trip(value.len() as i32, encode_items::<D>(value) + rest);
        lemma_items_round_trip::<D>(head, value, rest);
    }

    fn read(source: &[u8]) -> (r: Result<(Self, usize), DecodeError>) {
        let (count, start) = i32::read(source)?;
        if count < 0 {
            return Err(DecodeError::Malformed(Malformed::NegativeCount(count)));
        }
        let mut items: Vec<D> = Vec::new();
        let mut used: usize = start;
        let mut i: i32 = 0;
        assert(items.deep_view() =~= Seq::empty());
        while i < count
            invariant
                0 <= i <= count,
                start <= used <= source@.len(),
                Self::decoded(source@) == decode_items::<D>(source@, start as nat, count as nat),
                decode_items::<D>(source@, start as nat, i as nat) == Ok::<
                    (Seq<D::V>, nat),
                    DecodeError,
                >((items.deep_view(), used as nat)),
            decreases count - i,
        {
            match read_following::<D>(source, used) {
                Err(e) => {
                    proof {
                        assert(decode_items::<D>(source@, start as nat, (i + 1) as nat) is Err);
                        lemma_items_error::<D>(source@, start as nat, (i + 1) as nat, count as nat);
                    }
                    return Err(e);
                },
                Ok((item, end)) => {
                    let ghost before = items.deep_view();
                    let ghost value = item.deep_view();
                    items.push(item);
                    assert(items.deep_view() =~= before.push(value));
                    used = end;
                    i = i + 1;
                },
            }
        }
        Ok((items, used))
    }

    fn write(&self, sink: &mut Vec<u8>) -> (r: Result<(), EncodeError>) {
        let n: usize = self.len();
        if n > 0x7fff_ffff {
            return Err(EncodeError::TooLong);
        }
        let start: usize = sink.len();
        let ghost before = sink@;
        let ghost values = self.deep_view();
        let count: i32 = n as i32;
        count.write(sink)?;
        let mut i: usize = 0;
        assert(values.take(0) =~= Seq::empty());
        while i < n
            invariant
                i <= n,
                n == self@.len(),
                n <= i32::MAX,
                values == self.deep_view(),
                before == old(sink)@,
                start == before.len(),
                each_encodable::<D>(values.take(i as int)),
                sink@ == before + i32::encoded(n as i32) + encode_items::<D>(values.take(i as int)),
            decreases n - i,
        {
            match self[i].write(sink) {
                Ok(()) => {
                    proof {
                        lemma_encode_items_push::<D>(values.take(i as int), values[i as int]);
                        assert(values.take(i as int).push(values[i as int]) =~= values.take(
                            i + 1,
                        ));
                    }
                },
                Err(e) => {
                    restore(sink, start);
                    assert(sink@ =~= before);
                    assert(!D::encodable(values[i as int]));
                    return Err(e);
                },
            }
            i = i + 1;
        }
        assert(values.take(n as int) =~= values);
        assert(sink@ =~= before + Self::encoded(values));
        Ok(())
    }
}

/// The empty sequence is written as the count 0 and nothing more, and reads
/// back as the empty sequence.
pub proof fn lemma_empty_sequence<D: BinData>(rest: Seq<u8>)
    ensures
        Vec::<D>::encoded(Seq::empty()) == i32::encoded(0),
        Vec::<D>::encoded(Seq::empty()).len() == 4,
        Vec::<D>::decoded(i32::encoded(0) + rest) == Ok::<(Seq<D::V>, nat), DecodeError>(
            (Seq::empty(), 4),
        ),
{
    lemma_le_of_u32(0);
    assert(Vec::<D>::encoded(Seq::empty()) =~= i32::encoded(0));
    Vec::<D>::lemma_round_trip(Seq::empty(), rest);
}

/// A sequence whose values can be written, and is itself no longer than a
/// count can say, reads back as it was written, from its bytes alone.
pub proof fn lemma_sequence_round_trip<D: BinData>(items: Seq<D::V>, rest: Seq<u8>)
    requires
        items.len() <= i32::MAX,
        each_encodable::<D>(items),
        each_canonical::<D>(items),
    ensures
        Vec::<D>::decoded(Vec::<D>::encoded(items) + rest) == Ok::<(Seq<D::V>, nat), DecodeError>(
            (items, Vec::<D>::encoded(items).len()),
        ),
{
    Vec::<D>::lemma_round_trip(items, rest);
}

} // verus!
