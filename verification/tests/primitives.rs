use solution_codec::bin::{to_signed, to_unsigned};
use solution_codec::combinators::read_following;
use solution_codec::text::{text_of_bytes, trim_text};
use solution_codec::{BinData, DecodeError, EncodeError, Hex, Instruction, Malformed};

fn written<D: BinData>(value: &D) -> Vec<u8> {
    let mut sink: Vec<u8> = Vec::new();
    value.write(&mut sink).unwrap();
    sink
}

#[test]
fn u8_reads_one_byte() {
    assert_eq!(u8::read(&[7, 8]), Ok((7, 1)));
    assert_eq!(u8::read(&[255]), Ok((255, 1)));
}

#[test]
fn u8_without_a_byte_is_truncated() {
    assert_eq!(u8::read(&[]), Err(DecodeError::Truncated));
}

#[test]
fn u8_writes_itself() {
    assert_eq!(written(&0x5au8), vec![0x5a]);
}

#[test]
fn bool_reads_zero_as_false_and_the_rest_as_true() {
    assert_eq!(bool::read(&[0]), Ok((false, 1)));
    assert_eq!(bool::read(&[1]), Ok((true, 1)));
    assert_eq!(bool::read(&[2]), Ok((true, 1)));
    assert_eq!(bool::read(&[255, 0]), Ok((true, 1)));
}

#[test]
fn bool_without_a_byte_is_truncated() {
    assert_eq!(bool::read(&[]), Err(DecodeError::Truncated));
}

#[test]
fn bool_writes_zero_or_one() {
    assert_eq!(written(&false), vec![0]);
    assert_eq!(written(&true), vec![1]);
}

#[test]
fn u32_is_little_endian() {
    assert_eq!(u32::read(&[0x78, 0x56, 0x34, 0x12]), Ok((0x1234_5678, 4)));
    assert_eq!(u32::read(&[0xff, 0xff, 0xff, 0xff, 0x01]), Ok((u32::MAX, 4)));
    assert_eq!(written(&0x1234_5678u32), vec![0x78, 0x56, 0x34, 0x12]);
    assert_eq!(written(&u32::MAX), vec![0xff, 0xff, 0xff, 0xff]);
    assert_eq!(written(&0u32), vec![0, 0, 0, 0]);
}

#[test]
fn u32_agrees_with_the_standard_library() {
    for x in [0u32, 1, 255, 256, 65_535, 65_536, 0x00ff_ffff, 0x0100_0000, 0x8000_0000, u32::MAX] {
        assert_eq!(written(&x), x.to_le_bytes().to_vec());
        assert_eq!(u32::read(&x.to_le_bytes()), Ok((x, 4)));
    }
}

#[test]
fn u32_with_three_bytes_is_truncated() {
    assert_eq!(u32::read(&[1, 2, 3]), Err(DecodeError::Truncated));
}

#[test]
fn i32_is_little_endian_twos_complement() {
    assert_eq!(i32::read(&[0x2a, 0, 0, 0]), Ok((42, 4)));
    assert_eq!(i32::read(&[0xff, 0xff, 0xff, 0xff]), Ok((-1, 4)));
    assert_eq!(i32::read(&[0, 0, 0, 0x80]), Ok((i32::MIN, 4)));
    assert_eq!(i32::read(&[0xff, 0xff, 0xff, 0x7f]), Ok((i32::MAX, 4)));
    assert_eq!(written(&-2i32), vec![0xfe, 0xff, 0xff, 0xff]);
    assert_eq!(written(&i32::MIN), vec![0, 0, 0, 0x80]);
}

#[test]
fn i32_agrees_with_the_standard_library() {
    for x in [0i32, 1, -1, 127, -128, 65_536, -65_537, i32::MAX, i32::MIN] {
        assert_eq!(written(&x), x.to_le_bytes().to_vec());
        assert_eq!(i32::read(&x.to_le_bytes()), Ok((x, 4)));
    }
}

#[test]
fn i32_with_no_bytes_is_truncated() {
    assert_eq!(i32::read(&[]), Err(DecodeError::Truncated));
    assert_eq!(i32::read(&[0, 0, 0]), Err(DecodeError::Truncated));
}

#[test]
fn signed_and_unsigned_readings_of_32_bits() {
    assert_eq!(to_signed(0), 0);
    assert_eq!(to_signed(0x7fff_ffff), i32::MAX);
    assert_eq!(to_signed(0x8000_0000), i32::MIN);
    assert_eq!(to_signed(u32::MAX), -1);
    assert_eq!(to_unsigned(-1), u32::MAX);
    assert_eq!(to_unsigned(i32::MIN), 0x8000_0000);
    assert_eq!(to_unsigned(5), 5);
    for x in [0u32, 1, 0x7fff_ffff, 0x8000_0000, 0xdead_beef, u32::MAX] {
        assert_eq!(to_unsigned(to_signed(x)), x);
        assert_eq!(to_signed(x), x as i32);
    }
}

#[test]
fn option_takes_no_payload_when_absent() {
    assert_eq!(Option::<i32>::read(&[0, 9, 9, 9, 9]), Ok((None, 1)));
    assert_eq!(written(&Option::<i32>::None), vec![0]);
}

#[test]
fn option_reads_its_payload_when_present() {
    assert_eq!(Option::<i32>::read(&[1, 5, 0, 0, 0, 77]), Ok((Some(5), 5)));
    assert_eq!(Option::<u8>::read(&[3, 9]), Ok((Some(9), 2)));
    assert_eq!(written(&Some(5i32)), vec![1, 5, 0, 0, 0]);
}

#[test]
fn option_hands_on_the_error_of_its_payload() {
    assert_eq!(Option::<i32>::read(&[]), Err(DecodeError::Truncated));
    assert_eq!(Option::<i32>::read(&[1, 5, 0]), Err(DecodeError::Truncated));
    assert_eq!(
        Option::<Instruction>::read(&[1, 40]),
        Err(DecodeError::Malformed(Malformed::Instruction(40)))
    );
}

#[test]
fn pair_is_first_then_second() {
    assert_eq!(<(u8, i32)>::read(&[7, 1, 0, 0, 0, 3]), Ok(((7, 1), 5)));
    assert_eq!(written(&(7u8, 1i32)), vec![7, 1, 0, 0, 0]);
    assert_eq!(<(i32, i32)>::read(&[1, 0, 0, 0, 2, 0, 0]), Err(DecodeError::Truncated));
}

#[test]
fn hex_is_a_then_b() {
    let bytes = [3, 0, 0, 0, 0xfc, 0xff, 0xff, 0xff, 1];
    assert_eq!(Hex::<i32>::read(&bytes), Ok((Hex { a: 3, b: -4 }, 8)));
    assert_eq!(written(&Hex { a: 3, b: -4 }), bytes[..8].to_vec());
    assert_eq!(Hex::<u8>::read(&[1, 2]), Ok((Hex { a: 1u8, b: 2u8 }, 2)));
    assert_eq!(Hex::<i32>::read(&bytes[..7]), Err(DecodeError::Truncated));
}

#[test]
fn hex_default_is_the_origin() {
    assert_eq!(Hex::<i32>::default(), Hex { a: 0, b: 0 });
    let h: Hex = Hex { a: 1, b: 2 };
    assert_eq!(h.clone(), h);
}

#[test]
fn empty_sequence_is_a_count_of_zero() {
    assert_eq!(written(&Vec::<i32>::new()), vec![0, 0, 0, 0]);
    assert_eq!(Vec::<i32>::read(&[0, 0, 0, 0]), Ok((vec![], 4)));
    assert_eq!(Vec::<i32>::read(&[0, 0, 0, 0, 1, 2]), Ok((vec![], 4)));
}

#[test]
fn sequence_is_a_count_and_then_the_elements() {
    let bytes = [2, 0, 0, 0, 10, 0, 0, 0, 0xff, 0xff, 0xff, 0xff];
    assert_eq!(Vec::<i32>::read(&bytes), Ok((vec![10, -1], 12)));
    assert_eq!(written(&vec![10i32, -1]), bytes.to_vec());
    assert_eq!(Vec::<u8>::read(&[3, 0, 0, 0, 7, 8, 9, 10]), Ok((vec![7, 8, 9], 7)));
}

#[test]
fn sequence_round_trips() {
    let flat: Vec<u8> = (0..=255).collect();
    let bytes = written(&flat);
    assert_eq!(bytes.len(), 4 + 256);
    assert_eq!(Vec::<u8>::read(&bytes), Ok((flat, 260)));

    let nested: Vec<Vec<(i32, bool)>> =
        vec![vec![], vec![(1, true)], vec![(-5, false), (i32::MAX, true), (0, false)]];
    let bytes = written(&nested);
    let used = bytes.len();
    assert_eq!(Vec::<Vec<(i32, bool)>>::read(&bytes), Ok((nested, used)));

    let optional: Vec<Option<i32>> = vec![None, Some(4), None];
    let bytes = written(&optional);
    assert_eq!(bytes, vec![3, 0, 0, 0, 0, 1, 4, 0, 0, 0, 0]);
    assert_eq!(Vec::<Option<i32>>::read(&bytes), Ok((optional, 11)));
}

#[test]
fn sequence_with_a_negative_count_is_malformed() {
    assert_eq!(
        Vec::<u8>::read(&[0xff, 0xff, 0xff, 0xff, 1, 2]),
        Err(DecodeError::Malformed(Malformed::NegativeCount(-1)))
    );
    assert_eq!(
        Vec::<i32>::read(&[0, 0, 0, 0x80]),
        Err(DecodeError::Malformed(Malformed::NegativeCount(i32::MIN)))
    );
}

#[test]
fn sequence_that_ends_early_is_truncated() {
    assert_eq!(Vec::<u8>::read(&[2, 0, 0]), Err(DecodeError::Truncated));
    assert_eq!(Vec::<u8>::read(&[2, 0, 0, 0, 1]), Err(DecodeError::Truncated));
    assert_eq!(Vec::<i32>::read(&[1, 0, 0, 0, 1, 2, 3]), Err(DecodeError::Truncated));
    assert_eq!(Vec::<u8>::read(&[0xff, 0xff, 0xff, 0x7f]), Err(DecodeError::Truncated));
}

#[test]
fn sequence_hands_on_the_error_of_an_element() {
    assert_eq!(
        Vec::<Instruction>::read(&[3, 0, 0, 0, 1, 12, 2]),
        Err(DecodeError::Malformed(Malformed::Instruction(12)))
    );
}

#[test]
fn sequence_longer_than_a_count_is_refused() {
    let long: Vec<u8> = vec![0; i32::MAX as usize + 1];
    let mut sink: Vec<u8> = vec![1, 2, 3];
    assert_eq!(long.write(&mut sink), Err(EncodeError::TooLong));
    assert_eq!(sink, vec![1, 2, 3]);
}

#[test]
fn failed_write_leaves_the_sink_as_it_was() {
    let long: Vec<u8> = vec![0; i32::MAX as usize + 1];
    let nested: Vec<Vec<u8>> = vec![vec![1, 2], long];
    let mut sink: Vec<u8> = vec![9];
    assert_eq!(nested.write(&mut sink), Err(EncodeError::TooLong));
    assert_eq!(sink, vec![9]);
    let pair: (u8, Vec<Vec<u8>>) = (5, nested);
    assert_eq!(pair.write(&mut sink), Err(EncodeError::TooLong));
    assert_eq!(sink, vec![9]);
    let optional = Some(pair);
    assert_eq!(optional.write(&mut sink), Err(EncodeError::TooLong));
    assert_eq!(sink, vec![9]);
}

#[test]
fn write_appends_to_what_the_sink_holds() {
    let mut sink: Vec<u8> = vec![0xaa];
    5u8.write(&mut sink).unwrap();
    (-1i32).write(&mut sink).unwrap();
    vec![true, false].write(&mut sink).unwrap();
    assert_eq!(sink, vec![0xaa, 5, 0xff, 0xff, 0xff, 0xff, 2, 0, 0, 0, 1, 0]);
}

#[test]
fn text_is_counted_utf8() {
    assert_eq!(String::read(&[2, 0, 0, 0, b'h', b'i', b'!']), Ok(("hi".to_string(), 6)));
    assert_eq!(written(&"hi".to_string()), vec![2, 0, 0, 0, b'h', b'i']);
    assert_eq!(String::read(&[0, 0, 0, 0]), Ok((String::new(), 4)));
    assert_eq!(written(&String::new()), vec![0, 0, 0, 0]);
}

#[test]
fn text_beyond_ascii_decodes_to_the_exact_string() {
    let text = "né 日本 \u{1F600}\t".to_string();
    let mut bytes = (text.len() as i32).to_le_bytes().to_vec();
    bytes.extend_from_slice(text.as_bytes());
    assert_eq!(written(&text), bytes);
    let used = bytes.len();
    bytes.push(0x41);
    assert_eq!(String::read(&bytes), Ok((text, used)));
}

#[test]
fn text_is_not_trimmed_by_its_own_codec() {
    assert_eq!(String::read(&[3, 0, 0, 0, b' ', b'a', b' ']), Ok((" a ".to_string(), 7)));
}

#[test]
fn text_that_is_not_utf8_is_malformed() {
    assert_eq!(
        String::read(&[1, 0, 0, 0, 0xff]),
        Err(DecodeError::Malformed(Malformed::InvalidUtf8))
    );
    assert_eq!(
        String::read(&[2, 0, 0, 0, 0xc3, 0x28]),
        Err(DecodeError::Malformed(Malformed::InvalidUtf8))
    );
    assert_eq!(
        String::read(&[3, 0, 0, 0, 0xed, 0xa0, 0x80]),
        Err(DecodeError::Malformed(Malformed::InvalidUtf8))
    );
    assert_eq!(
        String::read(&[2, 0, 0, 0, b'a', 0xe2]),
        Err(DecodeError::Malformed(Malformed::InvalidUtf8))
    );
}

#[test]
fn text_that_ends_early_is_truncated() {
    assert_eq!(String::read(&[5, 0, 0, 0, b'a', b'b']), Err(DecodeError::Truncated));
    assert_eq!(String::read(&[5, 0]), Err(DecodeError::Truncated));
}

#[test]
fn text_with_a_negative_count_is_malformed() {
    assert_eq!(
        String::read(&[0xfe, 0xff, 0xff, 0xff, b'a']),
        Err(DecodeError::Malformed(Malformed::NegativeCount(-2)))
    );
}

#[test]
fn bytes_that_are_utf8_become_text() {
    assert_eq!(text_of_bytes(vec![0xc3, 0xa9, b'x']), Some("éx".to_string()));
    assert_eq!(text_of_bytes(vec![]), Some(String::new()));
    assert_eq!(text_of_bytes(vec![0x80]), None);
    assert_eq!(text_of_bytes(vec![b'a', 0xf0, 0x9f]), None);
}

#[test]
fn trimming_cuts_white_space_off_both_ends() {
    assert_eq!(trim_text("Test "), "Test");
    assert_eq!(trim_text("  a b \n"), "a b");
    assert_eq!(trim_text("\t\r\n x"), "x");
    assert_eq!(trim_text("\u{a0}\u{3000}né\u{2003}"), "né");
    assert_eq!(trim_text("   "), "");
    assert_eq!(trim_text(""), "");
    assert_eq!(trim_text("plain"), "plain");
    assert_eq!(trim_text("_ _"), "_ _");
}

#[test]
fn trimming_twice_is_trimming_once() {
    for text in ["", " ", " a", "a ", " a b ", "\n\n", "x\u{2028}"] {
        let once = trim_text(text);
        assert_eq!(trim_text(&once), once);
    }
}

#[test]
fn following_counts_from_the_start_of_the_source() {
    let source = [9, 9, 5, 0, 0, 0, 1];
    assert_eq!(read_following::<i32>(&source, 2), Ok((5, 6)));
    assert_eq!(read_following::<u8>(&source, 6), Ok((1, 7)));
    assert_eq!(read_following::<u8>(&source, 7), Err(DecodeError::Truncated));
    assert_eq!(read_following::<i32>(&source, 4), Err(DecodeError::Truncated));
}

#[test]
fn what_follows_a_value_does_not_change_it() {
    let bytes = written(&vec![(1i32, true), (2, false)]);
    let alone = Vec::<(i32, bool)>::read(&bytes);
    let mut longer = bytes.clone();
    longer.extend_from_slice(&[1, 2, 3]);
    assert_eq!(Vec::<(i32, bool)>::read(&longer), alone);
    assert_eq!(alone.unwrap().1, bytes.len());
}
