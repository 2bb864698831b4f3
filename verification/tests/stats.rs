use solution_codec::{BinData, DecodeError, Malformed, Stats};

fn written<D: BinData>(value: &D) -> Vec<u8> {
    let mut sink: Vec<u8> = Vec::new();
    value.write(&mut sink).unwrap();
    sink
}

fn wire(pairs: &[(i32, i32)]) -> Vec<u8> {
    let mut bytes: Vec<u8> = vec![1];
    bytes.extend_from_slice(&(pairs.len() as i32).to_le_bytes());
    for (key, value) in pairs {
        bytes.extend_from_slice(&key.to_le_bytes());
        bytes.extend_from_slice(&value.to_le_bytes());
    }
    bytes
}

#[test]
fn stats_with_all_three_keys_are_present() {
    let pairs = vec![(0, 120), (1, 7), (2, 33)];
    assert_eq!(Stats::from_pairs(&pairs), Some(Stats { cycles: 120, modules: 7, symbols: 33 }));
}

#[test]
fn stats_in_any_order_are_present() {
    let pairs = vec![(2, 33), (0, 120), (1, 7)];
    assert_eq!(Stats::from_pairs(&pairs), Some(Stats { cycles: 120, modules: 7, symbols: 33 }));
}

#[test]
fn stats_missing_a_key_are_absent() {
    assert_eq!(Stats::from_pairs(&vec![]), None);
    assert_eq!(Stats::from_pairs(&vec![(0, 1)]), None);
    assert_eq!(Stats::from_pairs(&vec![(0, 1), (1, 2)]), None);
    assert_eq!(Stats::from_pairs(&vec![(0, 1), (2, 3)]), None);
    assert_eq!(Stats::from_pairs(&vec![(1, 2), (2, 3)]), None);
}

#[test]
fn stats_missing_a_key_are_absent_whatever_else_is_there() {
    let pairs = vec![(0, 1), (0, 2), (1, 5), (1, 6), (3, 9), (-1, 4), (77, 0), (0, 3)];
    assert_eq!(Stats::from_pairs(&pairs), None);
}

#[test]
fn stats_pass_over_unknown_keys() {
    let pairs = vec![(9, 1), (0, 10), (-3, 2), (1, 20), (3, 3), (2, 30), (i32::MAX, 4)];
    assert_eq!(Stats::from_pairs(&pairs), Some(Stats { cycles: 10, modules: 20, symbols: 30 }));
}

#[test]
fn stats_take_the_last_of_two_pairs_with_one_key() {
    let pairs = vec![(0, 1), (1, 2), (2, 3), (1, 22), (0, 11), (0, 111)];
    assert_eq!(Stats::from_pairs(&pairs), Some(Stats { cycles: 111, modules: 22, symbols: 3 }));
}

#[test]
fn stats_take_negative_values_as_the_bits_they_are() {
    let pairs = vec![(0, -1), (1, i32::MIN), (2, i32::MAX)];
    assert_eq!(
        Stats::from_pairs(&pairs),
        Some(Stats { cycles: u32::MAX, modules: 0x8000_0000, symbols: 0x7fff_ffff })
    );
}

#[test]
fn stats_are_written_as_three_pairs() {
    let stats = Stats { cycles: 120, modules: 7, symbols: u32::MAX };
    assert_eq!(stats.pairs(), vec![(0, 120), (1, 7), (2, -1)]);
    assert_eq!(Stats::from_pairs(&stats.pairs()), Some(stats));
}

#[test]
fn optional_stats_absent_are_one_byte() {
    assert_eq!(written(&Option::<Stats>::None), vec![0]);
    assert_eq!(Option::<Stats>::read(&[0, 1, 2]), Ok((None, 1)));
}

#[test]
fn optional_stats_present_are_a_flag_and_the_pairs() {
    let stats = Stats { cycles: 1, modules: 2, symbols: 3 };
    let bytes = written(&Some(stats));
    assert_eq!(bytes, wire(&[(0, 1), (1, 2), (2, 3)]));
    assert_eq!(bytes.len(), 1 + 4 + 3 * 8);
    assert_eq!(Option::<Stats>::read(&bytes), Ok((Some(stats), 29)));
}

#[test]
fn optional_stats_round_trip() {
    for stats in [
        Stats { cycles: 0, modules: 0, symbols: 0 },
        Stats { cycles: u32::MAX, modules: 0x8000_0000, symbols: 0x7fff_ffff },
        Stats { cycles: 5, modules: 6, symbols: 7 },
    ] {
        let bytes = written(&Some(stats));
        assert_eq!(Option::<Stats>::read(&bytes), Ok((Some(stats), bytes.len())));
    }
}

#[test]
fn optional_stats_with_a_key_missing_decode_to_absent() {
    let bytes = wire(&[(0, 1), (1, 2), (5, 3)]);
    assert_eq!(Option::<Stats>::read(&bytes), Ok((None, bytes.len())));
    let bytes = wire(&[]);
    assert_eq!(Option::<Stats>::read(&bytes), Ok((None, 5)));
}

#[test]
fn optional_stats_take_all_their_pairs_from_the_wire() {
    let bytes = wire(&[(7, 7), (2, 30), (1, 20), (0, 10), (0, 11)]);
    assert_eq!(
        Option::<Stats>::read(&bytes),
        Ok((Some(Stats { cycles: 11, modules: 20, symbols: 30 }), 1 + 4 + 5 * 8))
    );
}

#[test]
fn optional_stats_hand_on_errors() {
    assert_eq!(Option::<Stats>::read(&[]), Err(DecodeError::Truncated));
    assert_eq!(Option::<Stats>::read(&[1, 1, 0, 0, 0, 0, 0]), Err(DecodeError::Truncated));
    assert_eq!(
        Option::<Stats>::read(&[1, 0xff, 0xff, 0xff, 0xff]),
        Err(DecodeError::Malformed(Malformed::NegativeCount(-1)))
    );
}
