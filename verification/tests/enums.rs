use solution_codec::{
    Beam, BinData, DecodeError, Hex, Input, Instruction, Malformed, PartEnum, PartType, Precursor,
    Rotation, StatField, BOARD_SIZE,
};

const INSTRUCTIONS: [Instruction; 12] = [
    Instruction::Empty,
    Instruction::SlideL,
    Instruction::SlideR,
    Instruction::Push,
    Instruction::Pull,
    Instruction::RotateCCW,
    Instruction::RotateCW,
    Instruction::Add,
    Instruction::RemoveH,
    Instruction::Trash,
    Instruction::Output,
    Instruction::ShuntH,
];

const PRECURSORS: [Precursor; 24] = [
    Precursor::Invalid,
    Precursor::Water,
    Precursor::Ammonia,
    Precursor::HydrochloricAcid,
    Precursor::SulfuricAcid,
    Precursor::Acetone,
    Precursor::Cyclohexane,
    Precursor::Methanol,
    Precursor::EthyleneGlycol,
    Precursor::Propene,
    Precursor::AceticAcid,
    Precursor::Benzene,
    Precursor::Carbamide,
    Precursor::PhosphoricAcid,
    Precursor::HydrofluoricAcid,
    Precursor::Hydrazine,
    Precursor::Butanone,
    Precursor::ThionylChloride,
    Precursor::Dioxane,
    Precursor::Toluene,
    Precursor::FormicAcid,
    Precursor::Butylene,
    Precursor::Isobutane,
    Precursor::Triazine,
];

const PART_TYPES: [PartType; 4] =
    [PartType::Invalid, PartType::Input, PartType::Output, PartType::Beam];

const ROTATIONS: [Rotation; 6] = [
    Rotation::R0,
    Rotation::R60,
    Rotation::R120,
    Rotation::R180,
    Rotation::R240,
    Rotation::R300,
];

fn written<D: BinData>(value: &D) -> Vec<u8> {
    let mut sink: Vec<u8> = Vec::new();
    value.write(&mut sink).unwrap();
    sink
}

#[test]
fn instruction_codes_are_0_to_11_in_order() {
    for (code, instruction) in INSTRUCTIONS.iter().enumerate() {
        assert_eq!(u8::from(*instruction), code as u8);
        assert_eq!(Instruction::try_from(code as u8), Ok(*instruction));
    }
}

#[test]
fn instruction_round_trips_on_the_wire() {
    for (code, instruction) in INSTRUCTIONS.iter().enumerate() {
        assert_eq!(written(instruction), vec![code as u8]);
        assert_eq!(Instruction::read(&[code as u8, 0xee]), Ok((*instruction, 1)));
    }
}

#[test]
fn instruction_out_of_range_is_malformed() {
    for raw in 12..=255u8 {
        let error = DecodeError::Malformed(Malformed::Instruction(raw));
        assert_eq!(Instruction::try_from(raw), Err(error));
        assert_eq!(Instruction::read(&[raw]), Err(error));
    }
}

#[test]
fn instruction_without_a_byte_is_truncated() {
    assert_eq!(Instruction::read(&[]), Err(DecodeError::Truncated));
}

#[test]
fn instruction_default_is_empty() {
    assert_eq!(Instruction::default(), Instruction::Empty);
}

#[test]
fn part_type_codes_are_0_to_3_in_order() {
    for (code, part_type) in PART_TYPES.iter().enumerate() {
        assert_eq!(i32::from(*part_type), code as i32);
        assert_eq!(PartType::try_from(code as i32), Ok(*part_type));
    }
}

#[test]
fn part_type_round_trips_on_the_wire() {
    for (code, part_type) in PART_TYPES.iter().enumerate() {
        assert_eq!(written(part_type), vec![code as u8, 0, 0, 0]);
        assert_eq!(PartType::read(&[code as u8, 0, 0, 0]), Ok((*part_type, 4)));
    }
}

#[test]
fn part_type_out_of_range_is_malformed() {
    for raw in [4, 5, 255, 256, -1, -4, i32::MAX, i32::MIN] {
        let error = DecodeError::Malformed(Malformed::PartType(raw));
        assert_eq!(PartType::try_from(raw), Err(error));
        assert_eq!(PartType::read(&raw.to_le_bytes()), Err(error));
    }
}

#[test]
fn part_type_cut_short_is_truncated() {
    assert_eq!(PartType::read(&[1, 0, 0]), Err(DecodeError::Truncated));
}

#[test]
fn precursor_codes_are_0_to_23_in_order() {
    for (code, precursor) in PRECURSORS.iter().enumerate() {
        assert_eq!(i32::from(*precursor), code as i32);
        assert_eq!(Precursor::try_from(code as i32), Ok(*precursor));
    }
}

#[test]
fn precursor_round_trips_on_the_wire() {
    for (code, precursor) in PRECURSORS.iter().enumerate() {
        assert_eq!(written(precursor), vec![code as u8, 0, 0, 0]);
        assert_eq!(Precursor::read(&[code as u8, 0, 0, 0, 1]), Ok((*precursor, 4)));
    }
}

#[test]
fn precursor_out_of_range_is_malformed() {
    for raw in [24, 25, 100, 0x0100, 0x0100_0001, -1, -23, i32::MAX, i32::MIN] {
        let error = DecodeError::Malformed(Malformed::Precursor(raw));
        assert_eq!(Precursor::try_from(raw), Err(error));
        assert_eq!(Precursor::read(&raw.to_le_bytes()), Err(error));
    }
}

#[test]
fn precursor_cut_short_is_truncated() {
    assert_eq!(Precursor::read(&[]), Err(DecodeError::Truncated));
}

#[test]
fn stat_field_keys_are_0_to_2() {
    assert_eq!(i32::from(StatField::Cycles), 0);
    assert_eq!(i32::from(StatField::Modules), 1);
    assert_eq!(i32::from(StatField::Symbols), 2);
    assert_eq!(StatField::try_from(0u32), Ok(StatField::Cycles));
    assert_eq!(StatField::try_from(1u32), Ok(StatField::Modules));
    assert_eq!(StatField::try_from(2u32), Ok(StatField::Symbols));
}

#[test]
fn stat_field_out_of_range_is_malformed() {
    for raw in [3u32, 4, 1000, u32::MAX] {
        assert_eq!(
            StatField::try_from(raw),
            Err(DecodeError::Malformed(Malformed::StatField(raw)))
        );
    }
}

#[test]
fn rotation_turns_are_0_to_5_in_order() {
    for (turns, rotation) in ROTATIONS.iter().enumerate() {
        assert_eq!(i32::from(*rotation), turns as i32);
        assert_eq!(Rotation::from(turns as i32), *rotation);
    }
}

#[test]
fn rotation_round_trips_on_the_wire() {
    for (turns, rotation) in ROTATIONS.iter().enumerate() {
        assert_eq!(written(rotation), vec![turns as u8, 0, 0, 0]);
        assert_eq!(Rotation::read(&[turns as u8, 0, 0, 0]), Ok((*rotation, 4)));
    }
}

#[test]
fn rotation_of_any_integer_is_its_remainder_by_six() {
    assert_eq!(Rotation::from(-1), Rotation::R300);
    assert_eq!(Rotation::from(6), Rotation::R0);
    assert_eq!(Rotation::from(7), Rotation::R60);
    assert_eq!(Rotation::from(-6), Rotation::R0);
    assert_eq!(Rotation::from(-7), Rotation::R300);
    assert_eq!(Rotation::from(-2), Rotation::R240);
    assert_eq!(Rotation::from(i32::MAX), Rotation::R60);
    assert_eq!(Rotation::from(i32::MIN), Rotation::R240);
    for raw in -40..40 {
        assert_eq!(i32::from(Rotation::from(raw)), raw.rem_euclid(6));
    }
}

#[test]
fn rotation_decode_never_fails_on_four_bytes() {
    assert_eq!(Rotation::read(&(-1i32).to_le_bytes()), Ok((Rotation::R300, 4)));
    assert_eq!(Rotation::read(&6i32.to_le_bytes()), Ok((Rotation::R0, 4)));
    assert_eq!(Rotation::read(&[0xff, 0xff, 0xff, 0x7f]), Ok((Rotation::R60, 4)));
    assert_eq!(Rotation::read(&[0, 0, 0, 0x80]), Ok((Rotation::R240, 4)));
    assert_eq!(Rotation::read(&[0, 0, 0]), Err(DecodeError::Truncated));
}

#[test]
fn rotation_negation_undoes_the_rotation() {
    assert_eq!(-Rotation::R0, Rotation::R0);
    assert_eq!(-Rotation::R60, Rotation::R300);
    assert_eq!(-Rotation::R120, Rotation::R240);
    assert_eq!(-Rotation::R180, Rotation::R180);
    assert_eq!(-Rotation::R240, Rotation::R120);
    assert_eq!(-Rotation::R300, Rotation::R60);
    for rotation in ROTATIONS {
        assert_eq!(-(-rotation), rotation);
        assert_eq!(Rotation::from(i32::from(rotation) + i32::from(-rotation)), Rotation::R0);
    }
}

#[test]
fn rotation_default_is_twelve_o_clock() {
    assert_eq!(Rotation::default(), Rotation::R0);
}

#[test]
fn part_enum_knows_its_kind() {
    let input = Input { precursor: Precursor::Water, pos: Hex { a: 0, b: 1 }, rotation: Rotation::R60 };
    let beam = Beam { beam_id: 1, pos: Hex { a: 6, b: 0 } };
    assert_eq!(PartEnum::Input(input.clone()).part_type(), PartType::Input);
    assert_eq!(PartEnum::Output.part_type(), PartType::Output);
    assert_eq!(PartEnum::Beam(beam.clone()).part_type(), PartType::Beam);
    assert_eq!(PartEnum::from(input.clone()), PartEnum::Input(input));
    assert_eq!(PartEnum::from(beam.clone()), PartEnum::Beam(beam));
}

#[test]
fn beam_points_clockwise_by_its_number() {
    let at = Hex { a: 0, b: 0 };
    assert_eq!(Beam { beam_id: 0, pos: at }.rotation(), Rotation::R0);
    assert_eq!(Beam { beam_id: 1, pos: at }.rotation(), Rotation::R300);
    assert_eq!(Beam { beam_id: 2, pos: at }.rotation(), Rotation::R240);
    assert_eq!(Beam { beam_id: 3, pos: at }.rotation(), Rotation::R180);
    assert_eq!(Beam { beam_id: 5, pos: at }.rotation(), Rotation::R60);
    assert_eq!(Beam { beam_id: 6, pos: at }.rotation(), Rotation::R0);
    assert_eq!(Beam { beam_id: 255, pos: at }.rotation(), Rotation::R180);
}

fn ring(a: i64, b: i64) -> i64 {
    a.abs().max(b.abs()).max((a + b).abs())
}

#[test]
fn beam_stands_on_the_ring_outside_the_board() {
    let edge = BOARD_SIZE as i32 + 1;
    for (a, b) in [
        (edge, 0),
        (edge, -edge),
        (0, edge),
        (0, -edge),
        (-edge, 0),
        (-edge, edge),
        (1, edge - 1),
        (-1, -edge + 1),
        (edge, -2),
        (-edge, 3),
        (2, -edge),
        (-2, edge),
    ] {
        assert!(Beam { beam_id: 0, pos: Hex { a, b } }.is_valid_pos(), "({a}, {b})");
    }
    for (a, b) in [
        (0, 0),
        (edge - 1, 0),
        (edge + 1, 0),
        (edge, 1),
        (-edge, -1),
        (1, edge),
        (-1, -edge),
        (edge, edge),
        (-edge - 1, 0),
        (i32::MAX, i32::MAX),
        (i32::MIN, i32::MIN),
        (-1, i32::MIN),
        (1, i32::MAX),
        (0, i32::MIN),
    ] {
        assert!(!Beam { beam_id: 0, pos: Hex { a, b } }.is_valid_pos(), "({a}, {b})");
    }
}

#[test]
fn beam_position_agrees_with_the_distance_from_the_centre() {
    let edge = BOARD_SIZE as i64 + 1;
    for a in -edge - 2..=edge + 2 {
        for b in -edge - 2..=edge + 2 {
            let beam = Beam { beam_id: 0, pos: Hex { a: a as i32, b: b as i32 } };
            assert_eq!(beam.is_valid_pos(), ring(a, b) == edge, "({a}, {b})");
        }
    }
}
