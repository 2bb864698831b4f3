//! The counters that rate a solution, and the sparse form they take on the
//! wire.

use crate::bin::{i32_of_u32, to_signed, to_unsigned, u32_of_i32, BinData};
use crate::combinators::{
    following,
    lemma_following_bound,
    lemma_following_prefix,
    lemma_following_round_trip,
    read_following,
};
use crate::error::{DecodeError, EncodeError, Malformed};
use std::collections::HashMap;
use vstd::prelude::*;
use vstd::std_specs::convert::FromSpecImpl;
use vstd::std_specs::convert::TryFromSpecImpl;

verus! {

/// The counters of a solution. Each is found on the wire under its key.
#[derive(Debug, Clone, Copy, PartialEq, Eq, Structural)]
pub enum StatField {
    Cycles,
    Modules,
    Symbols,
}

impl StatField {
    /// The key of the counter on the wire.
    pub open spec fn code(self) -> i32 {
        match self {
            StatField::Cycles => 0,
            StatField::Modules => 1,
            StatField::Symbols => 2,
        }
    }

    /// The counter that a key stands for, and an error that carries the key
    /// where it stands for none.
    pub open spec fn of_code(value: u32) -> Result<StatField, DecodeError> {
        match value {
            0 => Ok(StatField::Cycles),
            1 => Ok(StatField::Modules),
            2 => Ok(StatField::Symbols),
            _ => Err(DecodeError::Malformed(Malformed::StatField(value))),
        }
    }
}

impl TryFrom<u32> for StatField {
    type Error = DecodeError;

    fn try_from(value: u32) -> (r: Result<Self, Self::Error>) {
        match value {
            0 => Ok(StatField::Cycles),
            1 => Ok(StatField::Modules),
            2 => Ok(StatField::Symbols),
            _ => Err(DecodeError::Malformed(Malformed::StatField(value))),
        }
    }
}

impl TryFromSpecImpl<u32> for StatField {
    open spec fn obeys_try_from_spec() -> bool {
        true
    }

    open spec fn try_from_spec(value: u32) -> Result<Self, Self::Error> {
        StatField::of_code(value)
    }
}

impl From<StatField> for i32 {
    fn from(value: StatField) -> (r: i32) {
        match value {
            StatField::Cycles => 0,
            StatField::Modules => 1,
            StatField::Symbols => 2,
        }
    }
}

impl FromSpecImpl<StatField> for i32 {
    open spec fn obeys_from_spec() -> bool {
        true
    }

    open spec fn from_spec(value: StatField) -> i32 {
        value.code()
    }
}

/// How a solution performs: the three counters, all of them or none.
#[derive(Debug, Clone, Copy, PartialEq, Eq, Structural)]
pub struct Stats {
    pub cycles: u32,
    pub modules: u32,
    pub symbols: u32,
}

impl DeepView for Stats {
    type V = Stats;

    open spec fn deep_view(&self) -> Stats {
        *self
    }
}

/// The mapping that a list of pairs folds into: each key that occurs, with
/// the value of the last pair that has it.
pub open spec fn pairs_map(pairs: Seq<(i32, i32)>) -> Map<i32, i32>
    decreases pairs.len(),
{
    if pairs.len() == 0 {
        Map::empty()
    } else {
        pairs_map(pairs.drop_last()).insert(pairs.last().0, pairs.last().1)
    }
}

impl Stats {
    /// The counters that a mapping holds: present only if it has all three
    /// keys. Each value is taken as the 32 bits that it is.
    pub open spec fn resolved(found: Map<i32, i32>) -> Option<Stats> {
        if found.contains_key(StatField::Cycles.code()) && found.contains_key(
            StatField::Modules.code(),
        ) && found.contains_key(StatField::Symbols.code()) {
            Some(
                Stats {
                    cycles: u32_of_i32(found[StatField::Cycles.code()]),
                    modules: u32_of_i32(found[StatField::Modules.code()]),
                    symbols: u32_of_i32(found[StatField::Symbols.code()]),
                },
            )
        } else {
            None
        }
    }

    /// The counters that a list of pairs holds. Keys that stand for no
    /// counter are passed over, and of two pairs with one key the later
    /// counts.
    pub open spec fn of_pairs(pairs: Seq<(i32, i32)>) -> Option<Stats> {
        Stats::resolved(pairs_map(pairs))
    }

    /// The pairs that the counters are written as.
    pub open spec fn to_pairs(self) -> Seq<(i32, i32)> {
        seq![
            (StatField::Cycles.code(), i32_of_u32(self.cycles)),
            (StatField::Modules.code(), i32_of_u32(self.modules)),
            (StatField::Symbols.code(), i32_of_u32(self.symbols)),
        ]
    }

    /// Folds a list of pairs into a mapping and takes the counters from it.
    pub fn from_pairs(pairs: &Vec<(i32, i32)>) -> (r: Option<Stats>)
        ensures
            r == Stats::of_pairs(pairs@),
    {
        broadcast use vstd::std_specs::hash::group_hash_axioms;

        let mut found: HashMap<i32, i32> = HashMap::new();
        let mut i: usize = 0;
        assert(pairs@.take(0) =~= Seq::empty());
        while i < pairs.len()
            invariant
                i <= pairs@.len(),
                found@ == pairs_map(pairs@.take(i as int)),
            decreases pairs@.len() - i,
        {
            let (key, value) = pairs[i];
            found.insert(key, value);
            proof {
                assert(pairs@.take(i + 1).drop_last() =~= pairs@.take(i as int));
            }
            i = i + 1;
        }
        assert(pairs@.take(i as int) =~= pairs@);
        let cycles: u32 = match found.get(&i32::from(StatField::Cycles)) {
            Some(value) => to_unsigned(*value),
            None => { return None; },
        };
        let modules: u32 = match found.get(&i32::from(StatField::Modules)) {
            Some(value) => to_unsigned(*value),
            None => { return None; },
        };
        let symbols: u32 = match found.get(&i32::from(StatField::Symbols)) {
            Some(value) => to_unsigned(*value),
            None => { return None; },
        };
        Some(Stats { cycles, modules, symbols })
    }

    /// The three pairs that the counters are written as.
    pub fn pairs(&self) -> (r: Vec<(i32, i32)>)
        ensures
            r@ == self.to_pairs(),
    {
        let mut r: Vec<(i32, i32)> = Vec::new();
        r.push((i32::from(StatField::Cycles), to_signed(self.cycles)));
        r.push((i32::from(StatField::Modules), to_signed(self.modules)));
        r.push((i32::from(StatField::Symbols), to_signed(self.symbols)));
        assert(r@ =~= self.to_pairs());
        r
    }
}

/// Whether the pair at `i` is the last one with `key`.
pub open spec fn is_last_with(pairs: Seq<(i32, i32)>, i: int, key: i32) -> bool {
    &&& 0 <= i < pairs.len()
    &&& pairs[i].0 == key
    &&& forall|j: int| i < j < pairs.len() ==> (#[trigger] pairs[j]).0 != key
}

/// The key of the last pair that has it is in the mapping, with the value of
/// that pair.
pub proof fn lemma_pairs_map_last(pairs: Seq<(i32, i32)>, i: int)
    requires
        is_last_with(pairs, i, pairs[i].0),
    ensures
        pairs_map(pairs).contains_key(pairs[i].0),
        pairs_map(pairs)[pairs[i].0] == pairs[i].1,
    decreases pairs.len(),
{
    if i < pairs.len() - 1 {
        let init = pairs.drop_last();
        assert(init[i] == pairs[i]);
        assert forall|j: int| i < j < init.len() implies (#[trigger] init[j]).0 != init[i].0 by {
            assert(init[j] == pairs[j]);
        }
        lemma_pairs_map_last(init, i);
        assert(pairs.last().0 != pairs[i].0);
    }
}

/// A key that no pair has is not in the mapping.
pub proof fn lemma_pairs_map_missing(pairs: Seq<(i32, i32)>, key: i32)
    requires
        forall|i: int| 0 <= i < pairs.len() ==> (#[trigger] pairs[i]).0 != key,
    ensures
        !pairs_map(pairs).contains_key(key),
    decreases pairs.len(),
{
    if pairs.len() > 0 {
        let init = pairs.drop_last();
        assert forall|i: int| 0 <= i < init.len() implies (#[trigger] init[i]).0 != key by {
            assert(init[i] == pairs[i]);
        }
        lemma_pairs_map_missing(init, key);
        assert(pairs.last().0 != key);
    }
}

/// A key that is in the mapping is the key of some pair.
pub proof fn lemma_pairs_map_found(pairs: Seq<(i32, i32)>, key: i32) -> (i: int)
    requires
        pairs_map(pairs).contains_key(key),
    ensures
        is_last_with(pairs, i, key),
    decreases pairs.len(),
{
    if pairs.last().0 == key {
        pairs.len() - 1
    } else {
        let init = pairs.drop_last();
        let i = lemma_pairs_map_found(init, key);
        assert(init[i] == pairs[i]);
        assert forall|j: int| i < j < pairs.len() implies (#[trigger] pairs[j]).0 != key by {
            if j < init.len() {
                assert(init[j] == pairs[j]);
            }
        }
        i
    }
}

/// A list of pairs that has all three keys holds the counters, whatever else
/// it has: each counter is the value of the last pair with its key.
pub proof fn lemma_stats_present(pairs: Seq<(i32, i32)>, cycles: int, modules: int, symbols: int)
    requires
        is_last_with(pairs, cycles, StatField::Cycles.code()),
        is_last_with(pairs, modules, StatField::Modules.code()),
        is_last_with(pairs, symbols, StatField::Symbols.code()),
    ensures
        Stats::of_pairs(pairs) == Some(
            Stats {
                cycles: u32_of_i32(pairs[cycles].1),
                modules: u32_of_i32(pairs[modules].1),
                symbols: u32_of_i32(pairs[symbols].1),
            },
        ),
{
    lemma_pairs_map_last(pairs, cycles);
    lemma_pairs_map_last(pairs, modules);
    lemma_pairs_map_last(pairs, symbols);
}

/// A list of pairs that lacks one of the three keys holds no counters,
/// whatever else it has.
pub proof fn lemma_stats_absent(pairs: Seq<(i32, i32)>, field: StatField)
    requires
        forall|i: int| 0 <= i < pairs.len() ==> (#[trigger] pairs[i]).0 != field.code(),
    ensures
        Stats::of_pairs(pairs) is None,
{
    lemma_pairs_map_missing(pairs, field.code());
}

/// Where a list of pairs holds counters, each of the three keys has a last
/// pair.
pub proof fn lemma_stats_found(pairs: Seq<(i32, i32)>) -> (at: (int, int, int))
    requires
        Stats::of_pairs(pairs) is Some,
    ensures
        is_last_with(pairs, at.0, StatField::Cycles.code()),
        is_last_with(pairs, at.1, StatField::Modules.code()),
        is_last_with(pairs, at.2, StatField::Symbols.code()),
{
    (
        lemma_pairs_map_found(pairs, StatField::Cycles.code()),
        lemma_pairs_map_found(pairs, StatField::Modules.code()),
        lemma_pairs_map_found(pairs, StatField::Symbols.code()),
    )
}

/// The pairs that counters are written as hold those counters.
pub proof fn lemma_pairs_round_trip(stats: Stats)
    ensures
        Stats::of_pairs(stats.to_pairs()) == Some(stats),
{
    let pairs = stats.to_pairs();
    reveal_with_fuel(pairs_map, 4);
    assert(pairs.drop_last() =~= seq![pairs[0], pairs[1]]);
    assert(pairs.drop_last().drop_last() =~= seq![pairs[0]]);
    assert(pairs.drop_last().drop_last().drop_last() =~= Seq::<(i32, i32)>::empty());
}

impl BinData for Option<Stats> {
    open spec fn decoded(bytes: Seq<u8>) -> Result<(Option<Stats>, nat), DecodeError> {
        match bool::decoded(bytes) {
            Err(e) => Err(e),
            Ok((present, used)) => if present {
                match following::<Vec<(i32, i32)>>(bytes, used) {
                    Err(e) => Err(e),
                    Ok((pairs, end)) => Ok((Stats::of_pairs(pairs), end)),
                }
            } else {
                Ok((None, used))
            },
        }
    }

    open spec fn encodable(value: Option<Stats>) -> bool {
        true
    }

    open spec fn canonical(value: Option<Stats>) -> bool {
        true
    }

    open spec fn encoded(value: Option<Stats>) -> Seq<u8> {
        match value {
            Some(stats) => bool::encoded(true) + Vec::<(i32, i32)>::encoded(stats.to_pairs()),
            None => bool::encoded(false),
        }
    }

    proof fn lemma_decoded_bound(bytes: Seq<u8>) {
        if bool::decoded(bytes) is Ok {
            lemma_following_bound::<Vec<(i32, i32)>>(bytes, 1);
        }
    }

    proof fn lemma_decoded_prefix(bytes: Seq<u8>, more: Seq<u8>) {
        if bool::decoded(bytes) matches Ok((present, _)) && present {
            lemma_following_prefix::<Vec<(i32, i32)>>(bytes, more, 1);
        }
    }

    proof fn lemma_round_trip(value: Option<Stats>, rest: Seq<u8>) {
        match value {
            Some(stats) => {
                lemma_pairs_round_trip(stats);
                lemma_following_round_trip::<Vec<(i32, i32)>>(
                    bool::encoded(true),
                    stats.to_pairs(),
                    rest,
                );
            },
            None => {},
        }
    }

    fn read(source: &[u8]) -> (r: Result<(Self, usize), DecodeError>) {
        let (present, used) = bool::read(source)?;
        if present {
            let (pairs, end) = read_following::<Vec<(i32, i32)>>(source, used)?;
            assert(pairs.deep_view() =~= pairs@);
            Ok((Stats::from_pairs(&pairs), end))
        } else {
            Ok((None, used))
        }
    }

    fn write(&self, sink: &mut Vec<u8>) -> (r: Result<(), EncodeError>) {
        match self {
            Some(stats) => {
                true.write(sink)?;
                let pairs = stats.pairs();
                assert(pairs.deep_view() =~= pairs@);
                pairs.write(sink)
            },
            None => false.write(sink),
        }
    }
}

} // verus!
