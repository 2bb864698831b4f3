//! The top-level record of a save file, and the decoding of a whole file.

use crate::bin::BinData;
use crate::combinators::{
    following,
    lemma_concat_assoc,
    lemma_following_bound,
    lemma_following_prefix,
    lemma_following_round_trip,
    read_following,
    restore,
};
use crate::error::{DecodeError, EncodeError};
use crate::models::parts::{Part, PartView};
use crate::models::stat::Stats;
use crate::text::{lemma_trimmed, trim_text, trimmed};
use crate::version::{has_parts, supported, CURRENT_VERSION, SOME_FIRST_VERSION, SOME_OLD_VERSION};
use vstd::prelude::*;

verus! {

/// A solution: the parts placed for one puzzle, under a name.
///
/// A file states its format version in front of these fields. The version
/// decides how the file is read and is not kept; what is written is written
/// in the newest version.
#[derive(Debug, Clone, PartialEq, Eq)]
pub struct Solution {
    /// The name shown for the solution, without white space around it.
    pub name: String,
    pub puzzle_id: i32,
    /// The counters, where the file holds all three.
    pub stats: Option<Stats>,
    pub parts: Vec<Part>,
}

/// The mathematical value of a [`Solution`].
pub struct SolutionView {
    pub name: Seq<char>,
    pub puzzle_id: i32,
    pub stats: Option<Stats>,
    pub parts: Seq<PartView>,
}

impl DeepView for Solution {
    type V = SolutionView;

    open spec fn deep_view(&self) -> SolutionView {
        SolutionView {
            name: self.name@,
            puzzle_id: self.puzzle_id,
            stats: self.stats,
            parts: self.parts.deep_view(),
        }
    }
}

impl View for Solution {
    type V = SolutionView;

    open spec fn view(&self) -> SolutionView {
        self.deep_view()
    }
}

impl Solution {
    /// What stands in front of the parts: the version, which is checked
    /// before anything else is looked at, then the puzzle, the name, which
    /// is trimmed, and the counters. Gives the version, the solution so far,
    /// and the number of bytes taken.
    pub open spec fn decoded_head(bytes: Seq<u8>) -> Result<(i32, SolutionView, nat), DecodeError> {
        match i32::decoded(bytes) {
            Err(e) => Err(e),
            Ok((version, n1)) => if !supported(version) {
                Err(DecodeError::VersionUnsupported(version))
            } else {
                match following::<i32>(bytes, n1) {
                    Err(e) => Err(e),
                    Ok((puzzle_id, n2)) => match following::<String>(bytes, n2) {
                        Err(e) => Err(e),
                        Ok((name, n3)) => match following::<Option<Stats>>(bytes, n3) {
                            Err(e) => Err(e),
                            Ok((stats, n4)) => Ok(
                                (
                                    version,
                                    SolutionView {
                                        name: trimmed(name),
                                        puzzle_id,
                                        stats,
                                        parts: Seq::empty(),
                                    },
                                    n4,
                                ),
                            ),
                        },
                    },
                }
            },
        }
    }
}

impl BinData for Solution {
    /// The parts follow the head only in a version that has them. In an
    /// older one there are none, and no bytes are taken for them.
    open spec fn decoded(bytes: Seq<u8>) -> Result<(SolutionView, nat), DecodeError> {
        match Solution::decoded_head(bytes) {
            Err(e) => Err(e),
            Ok((version, head, used)) => if has_parts(version) {
                match following::<Vec<Part>>(bytes, used) {
                    Err(e) => Err(e),
                    Ok((parts, end)) => Ok(
                        (
                            SolutionView {
                                name: head.name,
                                puzzle_id: head.puzzle_id,
                                stats: head.stats,
                                parts,
                            },
                            end,
                        ),
                    ),
                }
            } else {
                Ok((head, used))
            },
        }
    }

    open spec fn encodable(value: SolutionView) -> bool {
        String::encodable(value.name) && Vec::<Part>::encodable(value.parts)
    }

    /// Reading trims the name, so only a solution whose name has no white
    /// space around it comes back as it was.
    open spec fn canonical(value: SolutionView) -> bool {
        trimmed(value.name) == value.name
    }

    open spec fn encoded(value: SolutionView) -> Seq<u8> {
        i32::encoded(CURRENT_VERSION) + i32::encoded(value.puzzle_id) + String::encoded(value.name)
            + Option::<Stats>::encoded(value.stats) + Vec::<Part>::encoded(value.parts)
    }

    proof fn lemma_decoded_bound(bytes: Seq<u8>) {
        if let Ok((version, n1)) = i32::decoded(bytes) {
            lemma_following_bound::<i32>(bytes, n1);
            if let Ok((_, n2)) = following::<i32>(bytes, n1) {
                lemma_following_bound::<String>(bytes, n2);
                if let Ok((_, n3)) = following::<String>(bytes, n2) {
                    lemma_following_bound::<Option<Stats>>(bytes, n3);
                    if let Ok((_, n4)) = following::<Option<Stats>>(bytes, n3) {
                        lemma_following_bound::<Vec<Part>>(bytes, n4);
                    }
                }
            }
        }
    }

    proof fn lemma_decoded_prefix(bytes: Seq<u8>, more: Seq<u8>) {
        i32::lemma_decoded_prefix(bytes, more);
        if let Ok((version, n1)) = i32::decoded(bytes) {
            lemma_following_bound::<i32>(bytes, n1);
            lemma_following_prefix::<i32>(bytes, more, n1);
            if let Ok((_, n2)) = following::<i32>(bytes, n1) {
                lemma_following_bound::<String>(bytes, n2);
                lemma_following_prefix::<String>(bytes, more, n2);
                if let Ok((_, n3)) = following::<String>(bytes, n2) {
                    lemma_following_bound::<Option<Stats>>(bytes, n3);
                    lemma_following_prefix::<Option<Stats>>(bytes, more, n3);
                    if let Ok((_, n4)) = following::<Option<Stats>>(bytes, n3) {
                        if has_parts(version) {
                            lemma_following_prefix::<Vec<Part>>(bytes, more, n4);
                        }
                    }
                }
            }
        }
    }

    proof fn lemma_round_trip(value: SolutionView, rest: Seq<u8>) {
        let e1 = i32::encoded(CURRENT_VERSION);
        let e2 = i32::encoded(value.puzzle_id);
        let e3 = String::encoded(value.name);
        let e4 = Option::<Stats>::encoded(value.stats);
        let e5 = Vec::<Part>::encoded(value.parts);
        let r4 = e5 + rest;
        let r3 = e4 + r4;
        let r2 = e3 + r3;
        let r1 = e2 + r2;
        let h2 = e1 + e2;
        let h3 = h2 + e3;
        let h4 = h3 + e4;
        lemma_concat_assoc(h4, e5, rest);
        lemma_concat_assoc(h3, e4, r4);
        lemma_concat_assoc(h2, e3, r3);
        lemma_concat_assoc(e1, e2, r2);
        i32::lemma_round_trip(CURRENT_VERSION, r1);
        lemma_following_round_trip::<i32>(e1, value.puzzle_id, r2);
        lemma_following_round_trip::<String>(h2, value.name, r3);
        lemma_following_round_trip::<Option<Stats>>(h3, value.stats, r4);
        lemma_following_round_trip::<Vec<Part>>(h4, value.parts, rest);
    }

    fn read(source: &[u8]) -> (r: Result<(Self, usize), DecodeError>) {
        let (version, n1) = i32::read(source)?;
        if version > CURRENT_VERSION || version < SOME_OLD_VERSION {
            return Err(DecodeError::VersionUnsupported(version));
        }
        let (puzzle_id, n2) = read_following::<i32>(source, n1)?;
        let (raw_name, n3) = read_following::<String>(source, n2)?;
        let name = trim_text(raw_name.as_str());
        let (stats, n4) = read_following::<Option<Stats>>(source, n3)?;
        if version >= SOME_FIRST_VERSION {
            let (parts, n5) = read_following::<Vec<Part>>(source, n4)?;
            Ok((Solution { name, puzzle_id, stats, parts }, n5))
        } else {
            let parts: Vec<Part> = Vec::new();
            assert(parts.deep_view() =~= Seq::empty());
            Ok((Solution { name, puzzle_id, stats, parts }, n4))
        }
    }

    fn write(&self, sink: &mut Vec<u8>) -> (r: Result<(), EncodeError>) {
        let start: usize = sink.len();
        CURRENT_VERSION.write(sink)?;
        self.puzzle_id.write(sink)?;
        match self.name.write(sink) {
            Ok(()) => {},
            Err(e) => {
                restore(sink, start);
                assert(sink@ =~= old(sink)@);
                return Err(e);
            },
        }
        self.stats.write(sink)?;
        match self.parts.write(sink) {
            Ok(()) => {
                assert(sink@ =~= old(sink)@ + Self::encoded(self.deep_view()));
                Ok(())
            },
            Err(e) => {
                restore(sink, start);
                assert(sink@ =~= old(sink)@);
                Err(e)
            },
        }
    }
}

impl Solution {
    /// What a whole file holds: the solution at its start, if nothing
    /// follows it.
    pub open spec fn of_file(bytes: Seq<u8>) -> Result<SolutionView, DecodeError> {
        match Solution::decoded(bytes) {
            Err(e) => Err(e),
            Ok((value, used)) => if used == bytes.len() {
                Ok(value)
            } else {
                Err(DecodeError::TrailingData)
            },
        }
    }

    /// Decodes the bytes of a whole file. Bytes that are left after the
    /// solution are an error, though the solution itself was read.
    pub fn from_bytes(bytes: &[u8]) -> (r: Result<Solution, DecodeError>)
        ensures
            match Solution::of_file(bytes@) {
                Ok(value) => (r matches Ok(solution) && solution@ == value),
                Err(e) => r == Err::<Solution, DecodeError>(e),
            },
    {
        let (solution, used) = Solution::read(bytes)?;
        if used == bytes.len() {
            Ok(solution)
        } else {
            Err(DecodeError::TrailingData)
        }
    }

    /// The bytes of a whole file that holds this solution.
    pub fn to_bytes(&self) -> (r: Result<Vec<u8>, EncodeError>)
        ensures
            r is Ok <==> Solution::encodable(self@),
            r matches Ok(bytes) ==> bytes@ == Solution::encoded(self@),
    {
        let mut bytes: Vec<u8> = Vec::new();
        self.write(&mut bytes)?;
        assert(bytes@ =~= Solution::encoded(self@));
        Ok(bytes)
    }
}

/// A version outside the supported range fails the decoding at once,
/// whatever follows the version, and though nothing may follow it.
pub proof fn lemma_version_unsupported(bytes: Seq<u8>)
    ensures
        match i32::decoded(bytes) {
            Err(e) => Solution::decoded(bytes) == Err::<(SolutionView, nat), DecodeError>(e),
            Ok((version, _)) => version < SOME_OLD_VERSION || version > CURRENT_VERSION
                ==> Solution::decoded(bytes) == Err::<(SolutionView, nat), DecodeError>(
                DecodeError::VersionUnsupported(version),
            ),
        },
{
}

/// In a version older than the parts, a solution has no parts, and its
/// decoding ends where the head ends. From the version that brought the
/// parts on, they are decoded from the bytes after the head.
pub proof fn lemma_version_gating(bytes: Seq<u8>)
    ensures
        match Solution::decoded_head(bytes) {
            Err(e) => Solution::decoded(bytes) == Err::<(SolutionView, nat), DecodeError>(e),
            Ok((version, head, used)) => if version < SOME_FIRST_VERSION {
                Solution::decoded(bytes) matches Ok((value, end)) && value.parts.len() == 0 && end
                    == used
            } else {
                match following::<Vec<Part>>(bytes, used) {
                    Err(e) => Solution::decoded(bytes) == Err::<(SolutionView, nat), DecodeError>(
                        e,
                    ),
                    Ok((parts, end)) => Solution::decoded(bytes) matches Ok((value, n))
                        && value.parts == parts && n == end,
                }
            },
        },
{
}

/// What decoding gives is a solution whose name has no white space around
/// it.
pub proof fn lemma_decoded_canonical(bytes: Seq<u8>)
    ensures
        Solution::decoded(bytes) matches Ok((value, _)) ==> Solution::canonical(value),
{
    if let Ok((_, n1)) = i32::decoded(bytes) {
        if let Ok((_, n2)) = following::<i32>(bytes, n1) {
            if let Ok((name, _)) = following::<String>(bytes, n2) {
                lemma_trimmed(name);
            }
        }
    }
}

/// The bytes that a solution is written as are a whole file that holds it.
pub proof fn lemma_file_round_trip(value: SolutionView)
    requires
        Solution::encodable(value),
        Solution::canonical(value),
    ensures
        Solution::of_file(Solution::encoded(value)) == Ok::<SolutionView, DecodeError>(value),
{
    Solution::lemma_round_trip(value, Seq::empty());
    assert(Solution::encoded(value) + Seq::empty() =~= Solution::encoded(value));
}

/// A file that holds a solution no longer does once anything is added to
/// its end: the solution is still decoded, and what follows it is refused as
/// trailing data.
pub proof fn lemma_trailing_data(bytes: Seq<u8>, more: Seq<u8>)
    requires
        Solution::of_file(bytes) is Ok,
        more.len() > 0,
    ensures
        Solution::decoded(bytes + more) == Solution::decoded(bytes),
        Solution::of_file(bytes + more) == Err::<SolutionView, DecodeError>(
            DecodeError::TrailingData,
        ),
{
    Solution::lemma_decoded_prefix(bytes, more);
}

} // verus!
