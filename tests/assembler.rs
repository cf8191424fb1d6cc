use chip8_asm::instruction_generator::{
    generate_instruction, EncodeError, Instruction, Kinds, Parameter, Register,
};
use chip8_asm::lexer::parse_numeral;
use chip8_asm::parser::{parse, to_bytes, AssembleError, Field, LineError};

fn error_at(line: usize, error: LineError) -> Result<Vec<u16>, AssembleError> {
    Err(AssembleError { line, error })
}

const NO_KINDS: Kinds = Kinds {
    v: false,
    i: false,
    dt: false,
    st: false,
    address: false,
    byte: false,
    nibble: false,
};

fn chars(s: &str) -> Vec<char> {
    s.chars().collect()
}

#[test]
fn comment_only_line_gives_no_word() {
    assert_eq!(parse("; just a comment"), Ok(vec![]));
}

#[test]
fn empty_and_blank_text_give_no_word() {
    assert_eq!(parse(""), Ok(vec![]));
    assert_eq!(parse("   \t  "), Ok(vec![]));
    assert_eq!(parse("\n\n  ; note\n"), Ok(vec![]));
}

#[test]
fn trailing_comment_is_ignored() {
    assert_eq!(parse("CLS ; clear the screen"), Ok(vec![0x00E0]));
    assert_eq!(parse("JMP 12A;loop"), Ok(vec![0x100C]));
}

#[test]
fn lines_keep_their_order() {
    assert_eq!(
        parse("JMP 1A\n; skip\n\nCALL 2A\nRET"),
        Ok(vec![0x1001, 0x2002, 0x00EE])
    );
}

#[test]
fn two_lines_to_bytes_high_first() {
    let words = parse("CLS\nRET").unwrap();
    assert_eq!(to_bytes(&words), vec![0x00, 0xE0, 0x00, 0xEE]);
}

#[test]
fn to_bytes_splits_each_word() {
    assert_eq!(to_bytes(&[0xA4D2, 0x00FF]), vec![0xA4, 0xD2, 0x00, 0xFF]);
    assert_eq!(to_bytes(&[]), Vec::<u8>::new());
}

#[test]
fn windows_line_endings() {
    assert_eq!(parse("CLS\r\nRET\r\n"), Ok(vec![0x00E0, 0x00EE]));
}

#[test]
fn unicode_white_space_separates_words() {
    assert_eq!(parse("JMP\u{00A0}12A"), Ok(vec![0x100C]));
    assert_eq!(parse("CLS\u{3000}"), Ok(vec![0x00E0]));
}

#[test]
fn register_index_boundary() {
    assert_eq!(parse("SKP V15"), Ok(vec![0xEF9E]));
    assert_eq!(parse("SKP V16"), error_at(1, LineError::OutOfRange(Field::Register)));
}

#[test]
fn address_boundary() {
    assert_eq!(parse("JMP 4095A"), Ok(vec![0x1FFF]));
    assert_eq!(parse("JMP 4096A"), error_at(1, LineError::OutOfRange(Field::Address)));
}

#[test]
fn byte_boundary() {
    assert_eq!(parse("RND V0 255B"), Ok(vec![0xC0FF]));
    assert_eq!(parse("RND V0 256B"), error_at(1, LineError::OutOfRange(Field::Byte)));
}

#[test]
fn nibble_boundary() {
    assert_eq!(parse("DRW V0 V1 15N"), Ok(vec![0xD01F]));
    assert_eq!(parse("DRW V0 V1 16N"), error_at(1, LineError::OutOfRange(Field::Nibble)));
}

#[test]
fn unknown_instruction_reports_its_line() {
    assert_eq!(parse("FOO"), error_at(1, LineError::UnknownInstruction));
    assert_eq!(parse("CLS\nFOO\nRET"), error_at(2, LineError::UnknownInstruction));
    assert_eq!(parse("cls"), error_at(1, LineError::UnknownInstruction));
}

#[test]
fn unknown_parameter_reports_its_line() {
    assert_eq!(parse("LD V12 X"), error_at(1, LineError::UnknownParameter));
    assert_eq!(parse("CLS\n\nLD V12 X"), error_at(3, LineError::UnknownParameter));
}

#[test]
fn first_error_wins() {
    assert_eq!(parse("FOO\nBAR V1 X"), error_at(1, LineError::UnknownInstruction));
    assert_eq!(parse("LD X V99"), error_at(1, LineError::UnknownParameter));
}

#[test]
fn bad_numbers() {
    assert_eq!(parse("SKP VX"), error_at(1, LineError::BadNumber(Field::Register)));
    assert_eq!(parse("SKP V"), error_at(1, LineError::BadNumber(Field::Register)));
    assert_eq!(parse("JMP xA"), error_at(1, LineError::BadNumber(Field::Address)));
    assert_eq!(parse("RND V1 -1B"), error_at(1, LineError::BadNumber(Field::Byte)));
    assert_eq!(parse("DRW V1 V2 N"), error_at(1, LineError::BadNumber(Field::Nibble)));
    assert_eq!(
        parse("SKP V99999999999999999999"),
        error_at(1, LineError::BadNumber(Field::Register))
    );
}

#[test]
fn large_numbers_are_out_of_range() {
    assert_eq!(
        parse("SKP V18446744073709551615"),
        error_at(1, LineError::OutOfRange(Field::Register))
    );
}

#[test]
fn plus_sign_is_accepted() {
    assert_eq!(parse("JMP +12A"), Ok(vec![0x100C]));
    assert_eq!(parse("SKP V+3"), Ok(vec![0xE39E]));
}

#[test]
fn wrong_operand_count() {
    assert_eq!(
        parse("CLS V1"),
        error_at(1, LineError::Encode(EncodeError::ParameterCount { expected: 0, found: 1 }))
    );
    assert_eq!(
        parse("DRW V1 V2"),
        error_at(1, LineError::Encode(EncodeError::ParameterCount { expected: 3, found: 2 }))
    );
}

#[test]
fn wrong_operand_kind() {
    assert_eq!(
        parse("LD V1 5N"),
        error_at(
            1,
            LineError::Encode(EncodeError::WrongParameter {
                index: 1,
                accepted: Kinds { v: true, dt: true, byte: true, ..NO_KINDS },
            })
        )
    );
    assert_eq!(
        parse("LD 5A V1"),
        error_at(
            1,
            LineError::Encode(EncodeError::WrongParameter {
                index: 0,
                accepted: Kinds { v: true, i: true, dt: true, st: true, ..NO_KINDS },
            })
        )
    );
    assert_eq!(
        parse("DRW V1 V2 V3"),
        error_at(
            1,
            LineError::Encode(EncodeError::WrongParameter {
                index: 2,
                accepted: Kinds { nibble: true, ..NO_KINDS },
            })
        )
    );
    assert_eq!(
        parse("ADD I 3B"),
        error_at(
            1,
            LineError::Encode(EncodeError::WrongParameter {
                index: 1,
                accepted: Kinds { v: true, ..NO_KINDS },
            })
        )
    );
}

#[test]
fn same_text_same_output() {
    let text = "CLS\nLD V1 42B\nADD I V1\nDRW V1 V2 3N";
    assert_eq!(parse(text), parse(text));
    assert_eq!(parse("FOO"), parse("FOO"));
}

#[test]
fn encoder_directly() {
    let v = |x| Parameter::Register(Register::V(x));
    assert_eq!(
        generate_instruction(&Instruction::Ld, &[v(1), Parameter::Register(Register::DT)]),
        Ok(0xF107)
    );
    assert_eq!(
        generate_instruction(&Instruction::Add, &[Parameter::Register(Register::I), v(9)]),
        Ok(0xF91E)
    );
    assert_eq!(
        generate_instruction(&Instruction::Jmp, &[v(1)]),
        Err(EncodeError::WrongParameter {
            index: 0,
            accepted: Kinds { address: true, ..NO_KINDS },
        })
    );
    assert_eq!(
        generate_instruction(&Instruction::Ret, &[v(1)]),
        Err(EncodeError::ParameterCount { expected: 0, found: 1 })
    );
}

#[test]
fn numerals() {
    assert_eq!(parse_numeral(&chars("0")), Some(0));
    assert_eq!(parse_numeral(&chars("+42")), Some(42));
    assert_eq!(parse_numeral(&chars("18446744073709551615")), Some(u64::MAX));
    assert_eq!(parse_numeral(&chars("18446744073709551616")), None);
    assert_eq!(parse_numeral(&chars("")), None);
    assert_eq!(parse_numeral(&chars("+")), None);
    assert_eq!(parse_numeral(&chars("1x")), None);
}
