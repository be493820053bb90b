use asm_lexer::{DecodeError, Instruction, Mnemonic, PseudoAddressingMode};

const MNEMONICS: [(&str, Mnemonic); 56] = [
    ("ADC", Mnemonic::ADC),
    ("AND", Mnemonic::AND),
    ("ASL", Mnemonic::ASL),
    ("BCC", Mnemonic::BCC),
    ("BCS", Mnemonic::BCS),
    ("BEQ", Mnemonic::BEQ),
    ("BIT", Mnemonic::BIT),
    ("BMI", Mnemonic::BMI),
    ("BNE", Mnemonic::BNE),
    ("BPL", Mnemonic::BPL),
    ("BRK", Mnemonic::BRK),
    ("BVC", Mnemonic::BVC),
    ("BVS", Mnemonic::BVS),
    ("CLC", Mnemonic::CLC),
    ("CLD", Mnemonic::CLD),
    ("CLI", Mnemonic::CLI),
    ("CLV", Mnemonic::CLV),
    ("CMP", Mnemonic::CMP),
    ("CPX", Mnemonic::CPX),
    ("CPY", Mnemonic::CPY),
    ("DEC", Mnemonic::DEC),
    ("DEX", Mnemonic::DEX),
    ("DEY", Mnemonic::DEY),
    ("EOR", Mnemonic::EOR),
    ("INC", Mnemonic::INC),
    ("INX", Mnemonic::INX),
    ("INY", Mnemonic::INY),
    ("JMP", Mnemonic::JMP),
    ("JSR", Mnemonic::JSR),
    ("LDA", Mnemonic::LDA),
    ("LDX", Mnemonic::LDX),
    ("LDY", Mnemonic::LDY),
    ("LSR", Mnemonic::LSR),
    ("NOP", Mnemonic::NOP),
    ("ORA", Mnemonic::ORA),
    ("PHA", Mnemonic::PHA),
    ("PHP", Mnemonic::PHP),
    ("PLA", Mnemonic::PLA),
    ("PLP", Mnemonic::PLP),
    ("ROL", Mnemonic::ROL),
    ("ROR", Mnemonic::ROR),
    ("RTI", Mnemonic::RTI),
    ("RTS", Mnemonic::RTS),
    ("SBC", Mnemonic::SBC),
    ("SEC", Mnemonic::SEC),
    ("SED", Mnemonic::SED),
    ("SEI", Mnemonic::SEI),
    ("STA", Mnemonic::STA),
    ("STX", Mnemonic::STX),
    ("STY", Mnemonic::STY),
    ("TAX", Mnemonic::TAX),
    ("TAY", Mnemonic::TAY),
    ("TSX", Mnemonic::TSX),
    ("TXA", Mnemonic::TXA),
    ("TXS", Mnemonic::TXS),
    ("TYA", Mnemonic::TYA),
];

fn decode(text: &str) -> Result<Instruction, DecodeError> {
    Instruction::decode(text)
}

#[test]
fn test_mnemonic_parsing() {
    assert_eq!(Ok(Mnemonic::LDA), "lda".parse());
    assert_eq!(Ok(Mnemonic::LDA), "LDA".parse());
    assert_eq!(Ok(Mnemonic::LDA), "Lda".parse());
    assert_eq!(Ok(Mnemonic::STA), "sta".parse());
    assert_eq!(Ok(Mnemonic::STA), "STA".parse());
    assert_eq!(Ok(Mnemonic::STA), "Sta".parse());
}

#[test]
fn test_pseudo_addressing_parsing() {
    assert_eq!(Ok(PseudoAddressingMode::Implicit), "".parse());
    assert_eq!(
        Ok(PseudoAddressingMode::Inmediate("$23".to_string())),
        "#$23".parse()
    );
    assert_eq!(
        Ok(PseudoAddressingMode::Direct("$23".to_string())),
        "$23".parse()
    );
    assert_eq!(
        Ok(PseudoAddressingMode::Inmediate("variable".to_string())),
        "#variable".parse()
    );
    assert_eq!(Ok(PseudoAddressingMode::Accumulator), "A".parse());
    assert_eq!(
        Ok(PseudoAddressingMode::IndexedByX("$25".to_string())),
        "$25,x".parse()
    );
    assert_eq!(
        Ok(PseudoAddressingMode::IndexedByX("$25".to_string())),
        "$25,X".parse()
    );
    assert_eq!(
        Ok(PseudoAddressingMode::IndexedByY("$25".to_string())),
        "$25,y".parse()
    );
    assert_eq!(
        Ok(PseudoAddressingMode::IndexedByY("$25".to_string())),
        "$25,Y".parse()
    );
    assert_eq!(
        Ok(PseudoAddressingMode::Indirect("$aa".to_string())),
        "($aa)".parse()
    );
    assert_eq!(
        Ok(PseudoAddressingMode::IndirectByX("$bb".to_string())),
        "($bb,x)".parse()
    );
    assert_eq!(
        Ok(PseudoAddressingMode::IndirectByY("$cc".to_string())),
        "($cc),y".parse()
    );
}

#[test]
fn every_name_reads_in_any_case() {
    for (name, m) in MNEMONICS {
        assert_eq!(Mnemonic::from_name(name), Ok(m));
        assert_eq!(Mnemonic::from_name(&name.to_lowercase()), Ok(m));
    }
}

#[test]
fn unknown_or_misshapen_names() {
    assert_eq!(Mnemonic::from_name("xyz"), Err(DecodeError::UnknownMnemonic));
    assert_eq!(Mnemonic::from_name("ld"), Err(DecodeError::UnknownMnemonic));
    assert_eq!(Mnemonic::from_name("ldaa"), Err(DecodeError::UnknownMnemonic));
    assert_eq!(Mnemonic::from_name(""), Err(DecodeError::UnknownMnemonic));
    assert_eq!(Mnemonic::from_name("ŀda"), Err(DecodeError::UnknownMnemonic));
}

#[test]
fn decode_implicit() {
    assert_eq!(
        decode("lda"),
        Ok(Instruction(Mnemonic::LDA, PseudoAddressingMode::Implicit))
    );
}

#[test]
fn decode_ignores_mnemonic_case() {
    assert_eq!(decode("LDA"), decode("lda"));
    assert_eq!(decode("Lda"), decode("lda"));
    assert_eq!(decode("LdA #1"), decode("lda #1"));
}

#[test]
fn decode_immediate() {
    assert_eq!(
        decode("lda #$23"),
        Ok(Instruction(
            Mnemonic::LDA,
            PseudoAddressingMode::Inmediate("$23".to_string())
        ))
    );
}

#[test]
fn decode_indexed_by_x_either_case() {
    let expected = Ok(Instruction(
        Mnemonic::LDA,
        PseudoAddressingMode::IndexedByX("$25".to_string()),
    ));
    assert_eq!(decode("lda $25,x"), expected);
    assert_eq!(decode("lda $25,X"), expected);
}

#[test]
fn decode_indirect_shapes() {
    assert_eq!(
        decode("lda ($bb,x)"),
        Ok(Instruction(
            Mnemonic::LDA,
            PseudoAddressingMode::IndirectByX("$bb".to_string())
        ))
    );
    assert_eq!(
        decode("lda ($cc),y"),
        Ok(Instruction(
            Mnemonic::LDA,
            PseudoAddressingMode::IndirectByY("$cc".to_string())
        ))
    );
    assert_eq!(
        decode("lda ($aa)"),
        Ok(Instruction(
            Mnemonic::LDA,
            PseudoAddressingMode::Indirect("$aa".to_string())
        ))
    );
}

#[test]
fn decode_unknown_mnemonic() {
    assert_eq!(decode("xyz"), Err(DecodeError::UnknownMnemonic));
    assert_eq!(decode("xyz #1"), Err(DecodeError::UnknownMnemonic));
}

#[test]
fn decode_too_short() {
    assert_eq!(decode(""), Err(DecodeError::UnknownMnemonic));
    assert_eq!(decode("ld"), Err(DecodeError::UnknownMnemonic));
    assert_eq!(decode("  ld  "), Err(DecodeError::UnknownMnemonic));
}

#[test]
fn decode_trims_the_text() {
    assert_eq!(
        decode("  nop  "),
        Ok(Instruction(Mnemonic::NOP, PseudoAddressingMode::Implicit))
    );
    assert_eq!(
        decode(" lda #1 "),
        Ok(Instruction(
            Mnemonic::LDA,
            PseudoAddressingMode::Inmediate("1".to_string())
        ))
    );
}

#[test]
fn decode_keeps_expression_whitespace() {
    assert_eq!(
        decode("lda # $23"),
        Ok(Instruction(
            Mnemonic::LDA,
            PseudoAddressingMode::Inmediate(" $23".to_string())
        ))
    );
    assert_eq!(
        decode("sta  $10 ,y"),
        Ok(Instruction(
            Mnemonic::STA,
            PseudoAddressingMode::IndexedByY(" $10 ".to_string())
        ))
    );
}

#[test]
fn decode_separator_is_not_checked() {
    assert_eq!(
        decode("ldax"),
        Ok(Instruction(Mnemonic::LDA, PseudoAddressingMode::Implicit))
    );
    assert_eq!(
        decode("lda_$10"),
        Ok(Instruction(
            Mnemonic::LDA,
            PseudoAddressingMode::Direct("$10".to_string())
        ))
    );
}

#[test]
fn malformed_operands_are_direct() {
    for text in ["#", "(a", "a)", ",x", "()", "a", "a,z"] {
        assert_eq!(
            PseudoAddressingMode::classify(text),
            PseudoAddressingMode::Direct(text.to_string())
        );
    }
}

#[test]
fn shapes_follow_priority_order() {
    assert_eq!(
        PseudoAddressingMode::classify("(a,X)"),
        PseudoAddressingMode::IndirectByX("a".to_string())
    );
    assert_eq!(
        PseudoAddressingMode::classify("((a),y)"),
        PseudoAddressingMode::Indirect("(a),y".to_string())
    );
    assert_eq!(
        PseudoAddressingMode::classify("(,x)"),
        PseudoAddressingMode::Indirect(",x".to_string())
    );
    assert_eq!(
        PseudoAddressingMode::classify("(a,x"),
        PseudoAddressingMode::IndexedByX("(a".to_string())
    );
    assert_eq!(
        PseudoAddressingMode::classify("(a),x"),
        PseudoAddressingMode::IndexedByX("(a)".to_string())
    );
}

#[test]
fn every_mnemonic_and_shape_round_trips() {
    let expr = "$1f+label";
    let e = || expr.to_string();
    let shapes = [
        ("".to_string(), PseudoAddressingMode::Implicit),
        ("A".to_string(), PseudoAddressingMode::Accumulator),
        (format!("#{}", expr), PseudoAddressingMode::Inmediate(e())),
        (expr.to_string(), PseudoAddressingMode::Direct(e())),
        (format!("{},x", expr), PseudoAddressingMode::IndexedByX(e())),
        (format!("{},y", expr), PseudoAddressingMode::IndexedByY(e())),
        (format!("({},x)", expr), PseudoAddressingMode::IndirectByX(e())),
        (format!("({}),y", expr), PseudoAddressingMode::IndirectByY(e())),
        (format!("({})", expr), PseudoAddressingMode::Indirect(e())),
    ];
    for (name, m) in MNEMONICS {
        let mut seen: Vec<String> = Vec::new();
        for (operand, mode) in &shapes {
            let text = format!("{} {}", name, operand);
            match decode(&text) {
                Ok(Instruction(got_m, got_mode)) => {
                    assert_eq!(got_m, m);
                    assert_eq!(&got_mode, mode);
                }
                Err(e) => panic!("{} did not decode: {:?}", text, e),
            }
            assert!(!seen.contains(&text));
            seen.push(text);
        }
    }
}

#[test]
fn from_str_matches_decode() {
    for text in ["lda #$23", "jmp ($fffc)", "xyz", "inx"] {
        assert_eq!(text.parse::<Instruction>(), decode(text));
    }
}
