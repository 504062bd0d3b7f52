use brainfuck::compat::from_char_8859;
use brainfuck::to_char_8859;
use brainfuck::Instruction;
use brainfuck::TryFromCharError;

#[test]
fn round_trip_printable_ascii() {
    for b in 0x21u8..=0x7e {
        assert_eq!(from_char_8859(to_char_8859(b)), b);
    }
}

#[test]
fn round_trip_upper_range() {
    assert_eq!(from_char_8859(to_char_8859(0x9f)), 0x9f);
    for b in 0xa1u8..=0xff {
        assert_eq!(from_char_8859(to_char_8859(b)), b);
    }
}

#[test]
fn control_codes_print_as_space() {
    for b in 0x00u8..=0x1f {
        assert_eq!(to_char_8859(b), ' ');
    }
    for b in 0x7fu8..=0x9f {
        assert_eq!(to_char_8859(b), ' ');
    }
    assert_eq!(to_char_8859(0x20), ' ');
}

#[test]
fn space_reads_back_as_last_space_entry() {
    assert_eq!(from_char_8859(' '), 0x9f);
}

#[test]
fn pound_sign_shares_two_entries() {
    assert_eq!(to_char_8859(0xa0), '£');
    assert_eq!(to_char_8859(0xa3), '£');
    assert_eq!(from_char_8859('£'), 0xa3);
}

#[test]
fn unknown_character_defaults_to_zero() {
    assert_eq!(from_char_8859('€'), 0);
    assert_eq!(from_char_8859('\n'), 0);
    assert_eq!(from_char_8859('\u{100}'), 0);
}

#[test]
fn exact_glyphs() {
    assert_eq!(to_char_8859(0x41), 'A');
    assert_eq!(from_char_8859('A'), 0x41);
    assert_eq!(to_char_8859(0x02), ' ');
    assert_eq!(to_char_8859(0xff), 'ÿ');
    assert_eq!(from_char_8859('~'), 0x7e);
}

#[test]
fn every_byte_has_a_character() {
    for b in 0u8..=255 {
        let c = to_char_8859(b);
        assert!(from_char_8859(c) as u32 <= 255);
    }
}

#[test]
fn classify_unrecognized_character_fails() {
    assert_eq!(Instruction::try_from_char('x'), Err(TryFromCharError));
    assert_eq!(Instruction::try_from_char(' '), Err(TryFromCharError));
    assert_eq!(Instruction::try_from_char('0'), Err(TryFromCharError));
}

#[test]
fn classify_plus_yields_increment() {
    assert_eq!(Instruction::try_from_char('+'), Ok(Instruction::Increment));
}

#[test]
fn classification_error_message() {
    let e = Instruction::try_from_char('x').unwrap_err();
    assert_eq!(e.message(), "Could not convert from a `char`.");
}

#[test]
fn classify_all_eight_instruction_characters() {
    assert_eq!(Instruction::try_from_char('-'), Ok(Instruction::Decrement));
    assert_eq!(Instruction::try_from_char('>'), Ok(Instruction::Forward));
    assert_eq!(Instruction::try_from_char('<'), Ok(Instruction::Backward));
    assert_eq!(Instruction::try_from_char('['), Ok(Instruction::Loop(vec![])));
    assert_eq!(Instruction::try_from_char(']'), Ok(Instruction::LoopEnd));
    assert_eq!(Instruction::try_from_char('.'), Ok(Instruction::Out));
    assert_eq!(Instruction::try_from_char(','), Ok(Instruction::In));
}
