use chip8_assembler::error::{ParseError, ParseErrorKind};
use chip8_assembler::instructions::{Assembly, Data, Ops, Register};
use chip8_assembler::parser::{is_blank, Parser};

fn parse(source: &str) -> Result<Vec<Assembly>, ParseError> {
    let mut parser = Parser::new(source.to_string());
    parser.load_instructions()?;
    Ok(parser.ops)
}

fn tokens(source: &str) -> Vec<String> {
    let mut parser = Parser::new(source.to_string());
    let mut found = Vec::new();
    while let Some(token) = parser.get_next_token() {
        found.push(token);
    }
    found
}

fn error(kind: ParseErrorKind, token: &str) -> ParseError {
    ParseError { kind, token: token.to_string() }
}

fn one(op: Ops) -> Vec<Assembly> {
    vec![Assembly::Instruction(op)]
}

#[test]
fn tokens_are_runs_between_blanks() {
    assert_eq!(tokens("mov rv0 5"), vec!["mov", "rv0", "5"]);
    assert_eq!(tokens("  mov\t\trv0\n\n5  "), vec!["mov", "rv0", "5"]);
    assert_eq!(tokens("one"), vec!["one"]);
    assert_eq!(tokens("a  b"), vec!["a", "b"]);
}

#[test]
fn no_tokens_in_empty_or_blank_text() {
    assert!(tokens("").is_empty());
    assert!(tokens(" \t\r\n ").is_empty());
    let mut parser = Parser::new(String::new());
    assert_eq!(parser.get_next_token(), None);
    assert_eq!(parser.get_next_token(), None);
}

#[test]
fn tokens_end_at_unicode_blanks() {
    assert_eq!(tokens("a\u{00A0}b\u{2003}c\u{3000}d\u{0085}e"), vec!["a", "b", "c", "d", "e"]);
    assert_eq!(tokens("a\u{200B}b"), vec!["a\u{200B}b"]);
}

#[test]
fn tokens_may_hold_any_other_character() {
    assert_eq!(tokens("jump .sch\u{00F6}n \u{8D8A}"), vec!["jump", ".sch\u{00F6}n", "\u{8D8A}"]);
    assert_eq!(
        parse(":sch\u{00F6}n jump .sch\u{00F6}n"),
        Ok(vec![
            Assembly::Label("sch\u{00F6}n".to_string()),
            Assembly::Instruction(Ops::Jump("sch\u{00F6}n".to_string())),
        ])
    );
}

#[test]
fn blank_is_the_standard_classification() {
    let mut code: u32 = 0;
    while code <= 0x10FFFF {
        if let Some(c) = char::from_u32(code) {
            assert_eq!(is_blank(c), c.is_whitespace(), "U+{:04X}", code);
        }
        code += 1;
    }
}

#[test]
fn token_cursor_only_moves_forward() {
    let mut parser = Parser::new("clr ret".to_string());
    assert_eq!(parser.get_next_token(), Some("clr".to_string()));
    assert_eq!(parser.get_next_token(), Some("ret".to_string()));
    assert_eq!(parser.get_next_token(), None);
    assert_eq!(parser.load_instructions(), Ok(()));
    assert!(parser.ops.is_empty());
}

#[test]
fn parses_move_of_literal() {
    assert_eq!(parse("mov rv0 5"), Ok(one(Ops::Move(Register::V0, Data::Int(5)))));
}

#[test]
fn parses_draw() {
    assert_eq!(parse("draw rv1 rv2 15"), Ok(one(Ops::Draw(Register::V1, Register::V2, 15))));
}

#[test]
fn parses_label_and_reference() {
    assert_eq!(
        parse(":start clr jump .start"),
        Ok(vec![
            Assembly::Label("start".to_string()),
            Assembly::Instruction(Ops::ClearScreen),
            Assembly::Instruction(Ops::Jump("start".to_string())),
        ])
    );
}

#[test]
fn parses_every_mnemonic() {
    let source = "mov rva rvb draw rv0 rvf 3 jump .a add rv1 200 se rv2 rv3 clr ldfadr rv4 \
                  call .b getrand rv5 255 sknp rv6 and rv7 rv8 sne rv9 0 sub rvc rvd bcd rve \
                  store rvf ret";
    assert_eq!(
        parse(source),
        Ok(vec![
            Assembly::Instruction(Ops::Move(Register::VA, Data::Reg(Register::VB))),
            Assembly::Instruction(Ops::Draw(Register::V0, Register::VF, 3)),
            Assembly::Instruction(Ops::Jump("a".to_string())),
            Assembly::Instruction(Ops::Add(Register::V1, Data::Int(200))),
            Assembly::Instruction(Ops::SkipIfEqual(Register::V2, Data::Reg(Register::V3))),
            Assembly::Instruction(Ops::ClearScreen),
            Assembly::Instruction(Ops::LoadFontAddress(Register::V4)),
            Assembly::Instruction(Ops::Call("b".to_string())),
            Assembly::Instruction(Ops::Rand(Register::V5, 255)),
            Assembly::Instruction(Ops::SkipIfKeyNotPress(Register::V6)),
            Assembly::Instruction(Ops::And(Register::V7, Register::V8)),
            Assembly::Instruction(Ops::SkipIfNotEqual(Register::V9, Data::Int(0))),
            Assembly::Instruction(Ops::Sub(Register::VC, Register::VD)),
            Assembly::Instruction(Ops::Bcd(Register::VE)),
            Assembly::Instruction(Ops::Store(Register::VF)),
            Assembly::Instruction(Ops::Return),
        ])
    );
}

#[test]
fn parses_every_register_name() {
    let names = [
        ("rv0", Register::V0),
        ("rv1", Register::V1),
        ("rv2", Register::V2),
        ("rv3", Register::V3),
        ("rv4", Register::V4),
        ("rv5", Register::V5),
        ("rv6", Register::V6),
        ("rv7", Register::V7),
        ("rv8", Register::V8),
        ("rv9", Register::V9),
        ("rva", Register::VA),
        ("rvb", Register::VB),
        ("rvc", Register::VC),
        ("rvd", Register::VD),
        ("rve", Register::VE),
        ("rvf", Register::VF),
        ("irg", Register::I),
        ("rdt", Register::Dt),
        ("rst", Register::St),
    ];
    for (name, register) in names {
        assert_eq!(parse(&format!("bcd {}", name)), Ok(one(Ops::Bcd(register))));
        assert_eq!(
            parse(&format!("mov rv0 {}", name)),
            Ok(one(Ops::Move(Register::V0, Data::Reg(register))))
        );
    }
}

#[test]
fn register_names_are_case_sensitive() {
    assert_eq!(parse("bcd RV0"), Err(error(ParseErrorKind::InvalidRegister, "RV0")));
    assert_eq!(parse("bcd rvA"), Err(error(ParseErrorKind::InvalidRegister, "rvA")));
    assert_eq!(parse("bcd rv"), Err(error(ParseErrorKind::InvalidRegister, "rv")));
    assert_eq!(parse("bcd rv00"), Err(error(ParseErrorKind::InvalidRegister, "rv00")));
    assert_eq!(parse("bcd v0"), Err(error(ParseErrorKind::InvalidRegister, "v0")));
}

#[test]
fn literals_are_what_the_standard_parse_takes() {
    let samples = [
        "0", "5", "007", "255", "256", "4095", "65535", "65536", "65545", "99999", "655350",
        "000000000000000000065535", "99999999999999999999999999", "+5", "+0", "+65535",
        "+65536", "+", "++5", "-5", "-0", "5+", "5a", "a5", "0x10", "1_000", "1.5", "1e3",
        "\u{0661}\u{0662}", "\u{FF15}", "5\u{00B2}",
    ];
    for text in samples {
        let expected = text.parse::<u16>().ok();
        let got = parse(&format!("draw rv0 rv1 {}", text));
        match expected {
            Some(n) => assert_eq!(got, Ok(one(Ops::Draw(Register::V0, Register::V1, n)))),
            None => assert_eq!(got, Err(error(ParseErrorKind::InvalidLiteral, text))),
        }
    }
}

#[test]
fn every_literal_of_sixteen_bits_parses_to_itself() {
    let mut n: u32 = 0;
    while n <= 0xFFFF {
        assert_eq!(
            parse(&format!("sne rv0 {}", n)),
            Ok(one(Ops::SkipIfNotEqual(Register::V0, Data::Int(n as u16))))
        );
        n += 257;
    }
    assert_eq!(
        parse("sne rv0 65535"),
        Ok(one(Ops::SkipIfNotEqual(Register::V0, Data::Int(65535))))
    );
}

#[test]
fn data_is_a_register_first_and_a_literal_second() {
    assert_eq!(parse("add rv0 rv1"), Ok(one(Ops::Add(Register::V0, Data::Reg(Register::V1)))));
    assert_eq!(parse("add rv0 17"), Ok(one(Ops::Add(Register::V0, Data::Int(17)))));
    assert_eq!(parse("add rv0 x17"), Err(error(ParseErrorKind::InvalidData, "x17")));
    assert_eq!(parse("add rv0 65536"), Err(error(ParseErrorKind::InvalidData, "65536")));
}

#[test]
fn label_reference_needs_its_sigil() {
    assert_eq!(parse("jump .here"), Ok(one(Ops::Jump("here".to_string()))));
    assert_eq!(parse("call ."), Ok(one(Ops::Call(String::new()))));
    assert_eq!(parse("jump here"), Err(error(ParseErrorKind::InvalidLabel, "here")));
    assert_eq!(parse("call :here"), Err(error(ParseErrorKind::InvalidLabel, ":here")));
}

#[test]
fn label_declaration_is_the_token_without_its_sigil() {
    assert_eq!(parse(":a"), Ok(vec![Assembly::Label("a".to_string())]));
    assert_eq!(parse(":"), Ok(vec![Assembly::Label(String::new())]));
    assert_eq!(parse("::a"), Ok(vec![Assembly::Label(":a".to_string())]));
    assert_eq!(parse(":mov"), Ok(vec![Assembly::Label("mov".to_string())]));
}

#[test]
fn undeclared_label_is_no_parse_error() {
    assert_eq!(parse("jump .nowhere"), Ok(one(Ops::Jump("nowhere".to_string()))));
}

#[test]
fn unknown_mnemonic_is_an_error() {
    assert_eq!(parse("foo rv0"), Err(error(ParseErrorKind::UnknownInstruction, "foo")));
    assert_eq!(parse("clr MOV rv0 1"), Err(error(ParseErrorKind::UnknownInstruction, "MOV")));
    assert_eq!(parse("clr rv0"), Err(error(ParseErrorKind::UnknownInstruction, "rv0")));
    assert_eq!(parse("nop"), Err(error(ParseErrorKind::UnknownInstruction, "nop")));
}

#[test]
fn missing_operand_is_an_error() {
    assert_eq!(parse("mov"), Err(error(ParseErrorKind::MissingOperand, "")));
    assert_eq!(parse("mov rv0"), Err(error(ParseErrorKind::MissingOperand, "")));
    assert_eq!(parse("draw rv0 rv1   "), Err(error(ParseErrorKind::MissingOperand, "")));
    assert_eq!(parse("clr jump"), Err(error(ParseErrorKind::MissingOperand, "")));
    assert_eq!(parse("getrand rv0"), Err(error(ParseErrorKind::MissingOperand, "")));
}

#[test]
fn random_byte_must_fit_a_byte() {
    assert_eq!(parse("getrand rv0 255"), Ok(one(Ops::Rand(Register::V0, 255))));
    assert_eq!(parse("getrand rv0 256"), Err(error(ParseErrorKind::LiteralOutOfRange, "256")));
    assert_eq!(parse("getrand rv0 65535"), Err(error(ParseErrorKind::LiteralOutOfRange, "65535")));
    assert_eq!(parse("getrand rv0 65536"), Err(error(ParseErrorKind::InvalidLiteral, "65536")));
}

#[test]
fn first_error_wins() {
    assert_eq!(parse("mov bad worse"), Err(error(ParseErrorKind::InvalidRegister, "bad")));
    assert_eq!(parse("foo bar mov"), Err(error(ParseErrorKind::UnknownInstruction, "foo")));
    assert_eq!(parse("draw rv0 x y"), Err(error(ParseErrorKind::InvalidRegister, "x")));
}

#[test]
fn failed_parse_leaves_the_parser_as_it_was() {
    let mut parser = Parser::new("clr ret foo rv0".to_string());
    assert_eq!(parser.get_next_token(), Some("clr".to_string()));
    assert_eq!(
        parser.load_instructions(),
        Err(error(ParseErrorKind::UnknownInstruction, "foo"))
    );
    assert!(parser.ops.is_empty());
    assert_eq!(parser.get_next_token(), Some("ret".to_string()));
}

#[test]
fn loading_adds_to_what_was_parsed() {
    let mut parser = Parser::new("clr ret".to_string());
    parser.ops.push(Assembly::Instruction(Ops::NoOp));
    assert_eq!(parser.load_instructions(), Ok(()));
    assert_eq!(
        parser.ops,
        vec![
            Assembly::Instruction(Ops::NoOp),
            Assembly::Instruction(Ops::ClearScreen),
            Assembly::Instruction(Ops::Return),
        ]
    );
    assert_eq!(parser.load_instructions(), Ok(()));
    assert_eq!(parser.into_ops().len(), 3);
}
