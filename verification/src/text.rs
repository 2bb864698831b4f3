//! Text on the wire: a counted sequence of bytes that must be UTF-8.
//!
//! Telling UTF-8 from other bytes and trimming white space are left to the
//! standard library, behind the two trusted functions of this module.

use crate::bin::{lemma_le_of_u32, u32_of_i32, BinData};
use crate::combinators::encode_items;
use crate::error::{DecodeError, EncodeError, Malformed};
use vstd::prelude::*;
use vstd::string::StrSliceExecFns;
use vstd::utf8::{
    decode_utf8,
    encode_utf8,
    encode_utf8_decode_utf8,
    encode_utf8_valid_utf8,
    valid_utf8,
};

verus! {

/// What `char::is_whitespace` returns for the character: whether it has the
/// Unicode property `White_Space`. The table is the standard library's, and
/// nothing here says which characters are in it; `str::trim` is documented
/// to cut off the characters that it accepts.
pub uninterp spec fn is_whitespace(c: char) -> bool;

/// The text without the white space at its start.
pub open spec fn trim_start(text: Seq<char>) -> Seq<char>
    decreases text.len(),
{
    if text.len() > 0 && is_whitespace(text.first()) {
        trim_start(text.drop_first())
    } else {
        text
    }
}

/// The text without the white space at its end.
pub open spec fn trim_end(text: Seq<char>) -> Seq<char>
    decreases text.len(),
{
    if text.len() > 0 && is_whitespace(text.last()) {
        trim_end(text.drop_last())
    } else {
        text
    }
}

/// The text without the white space at either end.
pub open spec fn trimmed(text: Seq<char>) -> Seq<char> {
    trim_end(trim_start(text))
}

/// Calls `str::trim`, which the standard library documents as returning the
/// slice with leading and trailing white space removed, white space being
/// what `char::is_whitespace` accepts. The contract says that, and that what
/// is left therefore neither starts nor ends with white space. It says
/// nothing about which characters are white space.
#[verifier::external_body]
fn trim(text: &str) -> (r: &str)
    ensures
        r@ == trimmed(text@),
        r@.len() > 0 ==> !is_whitespace(r@.first()) && !is_whitespace(r@.last()),
{
    text.trim()
}

/// Text that has lost the white space at its start starts with none.
pub proof fn lemma_trim_start(text: Seq<char>)
    ensures
        trim_start(text).len() > 0 ==> !is_whitespace(trim_start(text).first()),
    decreases text.len(),
{
    if text.len() > 0 && is_whitespace(text.first()) {
        lemma_trim_start(text.drop_first());
    }
}

/// Text that has lost the white space at its end ends with none, and starts
/// as it did.
pub proof fn lemma_trim_end(text: Seq<char>)
    ensures
        trim_end(text).len() > 0 ==> !is_whitespace(trim_end(text).last()) && trim_end(
            text,
        ).first() == text.first(),
    decreases text.len(),
{
    if text.len() > 0 && is_whitespace(text.last()) {
        lemma_trim_end(text.drop_last());
    }
}

/// Trimmed text has no white space at either end, so that trimming it again
/// changes nothing.
pub proof fn lemma_trimmed(text: Seq<char>)
    ensures
        trimmed(text).len() > 0 ==> !is_whitespace(trimmed(text).first()) && !is_whitespace(
            trimmed(text).last(),
        ),
        trimmed(trimmed(text)) == trimmed(text),
{
    lemma_trim_start(text);
    lemma_trim_end(trim_start(text));
}

/// Calls `String::from_utf8`, which the standard library documents as
/// succeeding exactly on valid UTF-8 and as keeping the bytes it was given.
/// The contract states both over vstd's model of UTF-8.
#[verifier::external_body]
fn text_of_utf8(bytes: Vec<u8>) -> (r: Option<String>)
    ensures
        r is Some <==> valid_utf8(bytes@),
        r matches Some(text) ==> encode_utf8(text@) == bytes@,
{
    match String::from_utf8(bytes) {
        Ok(text) => Some(text),
        Err(_) => None,
    }
}

/// The text without the white space at either end, as a string of its own.
pub fn trim_text(text: &str) -> (r: String)
    ensures
        r@ == trimmed(text@),
{
    let kept = trim(text);
    kept.to_owned()
}

/// The text that the bytes spell: `Some` exactly when they are UTF-8.
pub fn text_of_bytes(bytes: Vec<u8>) -> (r: Option<String>)
    ensures
        r is Some <==> valid_utf8(bytes@),
        r matches Some(text) ==> text@ == decode_utf8(bytes@),
{
    let r = text_of_utf8(bytes);
    proof {
        if let Some(text) = &r {
            encode_utf8_decode_utf8(text@);
        }
    }
    r
}

impl BinData for String {
    open spec fn decoded(bytes: Seq<u8>) -> Result<(Seq<char>, nat), DecodeError> {
        match Vec::<u8>::decoded(bytes) {
            Err(e) => Err(e),
            Ok((raw, used)) => if valid_utf8(raw) {
                Ok((decode_utf8(raw), used))
            } else {
                Err(DecodeError::Malformed(Malformed::InvalidUtf8))
            },
        }
    }

    open spec fn encodable(value: Seq<char>) -> bool {
        encode_utf8(value).len() <= i32::MAX
    }

    open spec fn canonical(value: Seq<char>) -> bool {
        true
    }

    open spec fn encoded(value: Seq<char>) -> Seq<u8> {
        Vec::<u8>::encoded(encode_utf8(value))
    }

    proof fn lemma_decoded_bound(bytes: Seq<u8>) {
        Vec::<u8>::lemma_decoded_bound(bytes);
    }

    proof fn lemma_decoded_prefix(bytes: Seq<u8>, more: Seq<u8>) {
        Vec::<u8>::lemma_decoded_prefix(bytes, more);
    }

    proof fn lemma_round_trip(value: Seq<char>, rest: Seq<u8>) {
        Vec::<u8>::lemma_round_trip(encode_utf8(value), rest);
        encode_utf8_valid_utf8(value);
        encode_utf8_decode_utf8(value);
    }

    fn read(source: &[u8]) -> (r: Result<(Self, usize), DecodeError>) {
        let (raw, used) = Vec::<u8>::read(source)?;
        assert(raw.deep_view() =~= raw@);
        match text_of_bytes(raw) {
            Some(text) => Ok((text, used)),
            None => Err(DecodeError::Malformed(Malformed::InvalidUtf8)),
        }
    }

    fn write(&self, sink: &mut Vec<u8>) -> (r: Result<(), EncodeError>) {
        let raw: Vec<u8> = self.as_str().as_bytes_vec();
        assert(raw.deep_view() =~= raw@);
        raw.write(sink)
    }
}

/// Bytes are written one for one.
pub proof fn lemma_encode_bytes(raw: Seq<u8>)
    ensures
        encode_items::<u8>(raw) == raw,
    decreases raw.len(),
{
    if raw.len() > 0 {
        lemma_encode_bytes(raw.drop_last());
    }
    assert(encode_items::<u8>(raw) =~= raw);
}

/// A count and then as many bytes decode to the text that the bytes spell
/// in UTF-8, and are malformed where they spell none.
pub proof fn lemma_text_decoded(raw: Seq<u8>, rest: Seq<u8>)
    requires
        raw.len() <= i32::MAX,
    ensures
        Vec::<u8>::encoded(raw) == i32::encoded(raw.len() as i32) + raw,
        String::decoded(Vec::<u8>::encoded(raw) + rest) == if valid_utf8(raw) {
            Ok::<(Seq<char>, nat), DecodeError>((decode_utf8(raw), 4 + raw.len()))
        } else {
            Err::<(Seq<char>, nat), DecodeError>(DecodeError::Malformed(Malformed::InvalidUtf8))
        },
{
    lemma_encode_bytes(raw);
    lemma_le_of_u32(u32_of_i32(raw.len() as i32));
    Vec::<u8>::lemma_round_trip(raw, rest);
}

} // verus!
