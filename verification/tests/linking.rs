use chip8_assembler::assembler::{assemble, AssembleError};
use chip8_assembler::error::{LinkError, LinkErrorKind, ParseError, ParseErrorKind};
use chip8_assembler::instructions::Data::{Int, Reg};
use chip8_assembler::instructions::Register::{Dt, St, I, V0, V1, V2, V7, VA, VE, VF};
use chip8_assembler::instructions::{Assembly, Data, Ops, Register};
use chip8_assembler::linker::Linker;

const GENERAL: [Register; 16] = [
    Register::V0,
    Register::V1,
    Register::V2,
    Register::V3,
    Register::V4,
    Register::V5,
    Register::V6,
    Register::V7,
    Register::V8,
    Register::V9,
    Register::VA,
    Register::VB,
    Register::VC,
    Register::VD,
    Register::VE,
    Register::VF,
];

const SPECIAL: [Register; 3] = [Register::Dt, Register::St, Register::I];

fn link(program: Vec<Assembly>) -> Result<Vec<u8>, LinkError> {
    let mut linker = Linker::new(program);
    linker.set_up_labels()?;
    linker.link()?;
    Ok(linker.get_code())
}

fn encode(op: Ops) -> Result<Vec<u8>, LinkErrorKind> {
    link(vec![Assembly::Instruction(op)]).map_err(|e| {
        assert_eq!(e.index, 0);
        e.kind
    })
}

fn word(w: u16) -> Result<Vec<u8>, LinkErrorKind> {
    Ok(vec![(w >> 8) as u8, (w & 0xFF) as u8])
}

fn link_error(kind: LinkErrorKind, index: usize) -> AssembleError {
    AssembleError::Link(LinkError { kind, index })
}

fn label(name: &str) -> Assembly {
    Assembly::Label(name.to_string())
}

fn jump(name: &str) -> Assembly {
    Assembly::Instruction(Ops::Jump(name.to_string()))
}

fn call(name: &str) -> Assembly {
    Assembly::Instruction(Ops::Call(name.to_string()))
}

fn clear() -> Assembly {
    Assembly::Instruction(Ops::ClearScreen)
}

#[test]
fn assembles_move_of_literal() {
    assert_eq!(assemble("mov rv0 5".to_string()), Ok(vec![0x60, 0x05]));
}

#[test]
fn assembles_label_clear_and_jump() {
    assert_eq!(
        assemble(":start clr jump .start".to_string()),
        Ok(vec![0x00, 0xE0, 0x12, 0x00])
    );
    let mut linker = Linker::new(vec![label("start"), clear(), jump("start")]);
    assert_eq!(linker.label_address("start"), None);
    assert_eq!(linker.set_up_labels(), Ok(()));
    assert_eq!(linker.label_address("start"), Some(0x200));
    assert_eq!(linker.link(), Ok(()));
    assert_eq!(linker.get_code(), vec![0x00, 0xE0, 0x12, 0x00]);
}

#[test]
fn assembles_draw() {
    assert_eq!(assemble("draw rv1 rv2 15".to_string()), Ok(vec![0xD1, 0x2F]));
}

#[test]
fn unknown_mnemonic_gives_no_output() {
    assert_eq!(
        assemble("foo rv0".to_string()),
        Err(AssembleError::Parse(ParseError {
            kind: ParseErrorKind::UnknownInstruction,
            token: "foo".to_string(),
        }))
    );
    assert_eq!(
        assemble("clr clr foo".to_string()),
        Err(AssembleError::Parse(ParseError {
            kind: ParseErrorKind::UnknownInstruction,
            token: "foo".to_string(),
        }))
    );
}

#[test]
fn empty_source_gives_empty_program() {
    assert_eq!(assemble(String::new()), Ok(Vec::new()));
    assert_eq!(assemble(" \n\t ".to_string()), Ok(Vec::new()));
    assert_eq!(assemble(":only :labels".to_string()), Ok(Vec::new()));
}

#[test]
fn same_tokens_give_same_bytes() {
    let plain = assemble(":start clr jump .start mov rv0 5".to_string());
    let spaced =
        assemble("\n\n:start\tclr\r\n  jump\u{00A0}.start\n mov  rv0\u{2003}5 \n".to_string());
    assert_eq!(plain, Ok(vec![0x00, 0xE0, 0x12, 0x00, 0x60, 0x05]));
    assert_eq!(plain, spaced);
    assert_eq!(plain, assemble(":start clr jump .start mov rv0 5".to_string()));
    let bad = assemble("mov rv0".to_string());
    assert!(bad.is_err());
    assert_eq!(bad, assemble("  mov\nrv0\n".to_string()));
}

#[test]
fn duplicate_label_is_an_error() {
    assert_eq!(
        assemble(":foo :foo".to_string()),
        Err(link_error(LinkErrorKind::DuplicateLabel, 1))
    );
    assert_eq!(
        assemble(":foo clr mov rv0 1 :bar ret :foo clr".to_string()),
        Err(link_error(LinkErrorKind::DuplicateLabel, 5))
    );
    assert_eq!(
        assemble(":a :b :b :a".to_string()),
        Err(link_error(LinkErrorKind::DuplicateLabel, 2))
    );
}

#[test]
fn failed_pass_one_leaves_the_table_as_it_was() {
    let mut linker = Linker::new(vec![label("a"), clear(), label("b"), label("a")]);
    assert_eq!(
        linker.set_up_labels(),
        Err(LinkError { kind: LinkErrorKind::DuplicateLabel, index: 3 })
    );
    assert_eq!(linker.label_address("a"), None);
    assert_eq!(linker.label_address("b"), None);
}

#[test]
fn undefined_label_is_an_error() {
    assert_eq!(
        assemble("jump .bar".to_string()),
        Err(link_error(LinkErrorKind::UndefinedLabel, 0))
    );
    assert_eq!(
        assemble(":foo clr call .bar".to_string()),
        Err(link_error(LinkErrorKind::UndefinedLabel, 2))
    );
    assert_eq!(
        assemble(":bar clr jump .Bar".to_string()),
        Err(link_error(LinkErrorKind::UndefinedLabel, 2))
    );
}

#[test]
fn link_without_pass_one_knows_no_label() {
    let mut linker = Linker::new(vec![label("start"), clear(), jump("start")]);
    assert_eq!(
        linker.link(),
        Err(LinkError { kind: LinkErrorKind::UndefinedLabel, index: 2 })
    );
    assert!(linker.get_code().is_empty());
}

#[test]
fn label_address_counts_the_instructions_before_it() {
    let mut program = Vec::new();
    for k in 0..40usize {
        program.push(label(&format!("l{}", k)));
        program.push(clear());
    }
    program.push(label("end"));
    let mut linker = Linker::new(program);
    assert_eq!(linker.set_up_labels(), Ok(()));
    for k in 0..40u128 {
        assert_eq!(linker.label_address(&format!("l{}", k)), Some(0x200 + 2 * k));
    }
    assert_eq!(linker.label_address("end"), Some(0x200 + 80));
    assert_eq!(linker.label_address("l40"), None);
}

#[test]
fn labels_in_a_row_share_an_address() {
    let mut linker = Linker::new(vec![clear(), label("a"), label("b"), clear(), label("c")]);
    assert_eq!(linker.set_up_labels(), Ok(()));
    assert_eq!(linker.label_address("a"), Some(0x202));
    assert_eq!(linker.label_address("b"), Some(0x202));
    assert_eq!(linker.label_address("c"), Some(0x204));
}

#[test]
fn forward_reference_resolves() {
    assert_eq!(
        assemble("jump .end call .end clr :end ret".to_string()),
        Ok(vec![0x12, 0x06, 0x22, 0x06, 0x00, 0xE0, 0x00, 0xEE])
    );
}

#[test]
fn address_must_fit_twelve_bits() {
    let mut program = vec![jump("last"), call("far")];
    while program.len() < 0x6FF {
        program.push(clear());
    }
    program.push(label("last"));
    program.push(clear());
    program.push(label("far"));
    let mut linker = Linker::new(program);
    assert_eq!(linker.set_up_labels(), Ok(()));
    assert_eq!(linker.label_address("last"), Some(0xFFE));
    assert_eq!(linker.label_address("far"), Some(0x1000));
    assert_eq!(
        linker.link(),
        Err(LinkError { kind: LinkErrorKind::OutOfRange, index: 1 })
    );
    assert!(linker.get_code().is_empty());

    let mut program = vec![jump("last")];
    while program.len() < 0x6FF {
        program.push(clear());
    }
    program.push(label("last"));
    let bytes = link(program).unwrap();
    assert_eq!(bytes.len(), 2 * 0x6FF);
    assert_eq!(&bytes[..4], &[0x1F, 0xFE, 0x00, 0xE0]);
}

#[test]
fn link_adds_to_what_was_encoded() {
    let mut linker = Linker::new(vec![clear(), Assembly::Instruction(Ops::Return)]);
    assert_eq!(linker.link(), Ok(()));
    assert_eq!(linker.get_code(), vec![0x00, 0xE0, 0x00, 0xEE]);
    assert_eq!(linker.link(), Ok(()));
    assert_eq!(linker.get_code(), vec![0x00, 0xE0, 0x00, 0xEE, 0x00, 0xE0, 0x00, 0xEE]);
}

#[test]
fn every_row_of_the_table() {
    assert_eq!(encode(Ops::Move(I, Int(0xABC))), word(0xAABC));
    assert_eq!(encode(Ops::Move(I, Int(0xFFF))), word(0xAFFF));
    assert_eq!(encode(Ops::Move(I, Int(0))), word(0xA000));
    assert_eq!(encode(Ops::Move(Dt, Reg(V7))), word(0xF715));
    assert_eq!(encode(Ops::Move(St, Reg(VA))), word(0xFA18));
    assert_eq!(encode(Ops::Move(VE, Reg(Dt))), word(0xFE07));
    assert_eq!(encode(Ops::Move(V1, Int(0xC4))), word(0x61C4));
    assert_eq!(encode(Ops::Move(VF, Int(0xFF))), word(0x6FFF));
    assert_eq!(encode(Ops::Move(V1, Reg(V2))), word(0x8120));
    assert_eq!(encode(Ops::Draw(V1, V2, 15)), word(0xD12F));
    assert_eq!(encode(Ops::Draw(VA, VF, 0)), word(0xDAF0));
    assert_eq!(encode(Ops::Add(I, Reg(V7))), word(0xF71E));
    assert_eq!(encode(Ops::Add(V7, Int(0x1F))), word(0x771F));
    assert_eq!(encode(Ops::Add(V7, Reg(VA))), word(0x87A4));
    assert_eq!(encode(Ops::SkipIfEqual(V2, Int(0x30))), word(0x3230));
    assert_eq!(encode(Ops::SkipIfEqual(V2, Reg(VE))), word(0x52E0));
    assert_eq!(encode(Ops::SkipIfNotEqual(V0, Int(0x0A))), word(0x400A));
    assert_eq!(encode(Ops::ClearScreen), word(0x00E0));
    assert_eq!(encode(Ops::LoadFontAddress(VA)), word(0xFA29));
    assert_eq!(encode(Ops::Rand(V1, 0x5E)), word(0xC15E));
    assert_eq!(encode(Ops::Rand(V1, 0xFF)), word(0xC1FF));
    assert_eq!(encode(Ops::SkipIfKeyNotPress(V2)), word(0xE2A1));
    assert_eq!(encode(Ops::And(V1, V2)), word(0x8122));
    assert_eq!(encode(Ops::Sub(VE, VF)), word(0x8EF5));
    assert_eq!(encode(Ops::Bcd(V7)), word(0xF733));
    assert_eq!(encode(Ops::Store(VF)), word(0xFF65));
    assert_eq!(encode(Ops::Return), word(0x00EE));
    assert_eq!(encode(Ops::NoOp), word(0x0000));
    assert_eq!(
        link(vec![clear(), label("t"), jump("t"), call("t")]),
        Ok(vec![0x00, 0xE0, 0x12, 0x02, 0x22, 0x02])
    );
}

#[test]
fn every_general_register_has_its_code() {
    for (code, register) in GENERAL.iter().enumerate() {
        let code = code as u16;
        assert_eq!(encode(Ops::Bcd(*register)), word(0xF033 | code << 8));
        assert_eq!(encode(Ops::And(Register::V0, *register)), word(0x8002 | code << 4));
        assert_eq!(
            encode(Ops::Draw(*register, *register, 1)),
            word(0xD001 | code << 8 | code << 4)
        );
    }
}

#[test]
fn special_register_has_no_code() {
    let bad = Err(LinkErrorKind::InvalidOperand);
    for s in SPECIAL {
        assert_eq!(encode(Ops::Bcd(s)), bad);
        assert_eq!(encode(Ops::Store(s)), bad);
        assert_eq!(encode(Ops::LoadFontAddress(s)), bad);
        assert_eq!(encode(Ops::SkipIfKeyNotPress(s)), bad);
        assert_eq!(encode(Ops::Rand(s, 1)), bad);
        assert_eq!(encode(Ops::And(s, Register::V0)), bad);
        assert_eq!(encode(Ops::And(Register::V0, s)), bad);
        assert_eq!(encode(Ops::Sub(s, Register::V0)), bad);
        assert_eq!(encode(Ops::Sub(Register::V0, s)), bad);
        assert_eq!(encode(Ops::Draw(s, Register::V0, 1)), bad);
        assert_eq!(encode(Ops::Draw(Register::V0, s, 1)), bad);
        assert_eq!(encode(Ops::Draw(s, Register::V0, 16)), bad);
        assert_eq!(encode(Ops::SkipIfEqual(s, Data::Int(1))), bad);
        assert_eq!(encode(Ops::SkipIfEqual(s, Data::Reg(Register::V0))), bad);
        assert_eq!(encode(Ops::SkipIfEqual(Register::V0, Data::Reg(s))), bad);
        assert_eq!(encode(Ops::SkipIfNotEqual(s, Data::Int(1))), bad);
        assert_eq!(encode(Ops::SkipIfNotEqual(s, Data::Int(256))), bad);
        assert_eq!(encode(Ops::Add(Register::V0, Data::Reg(s))), bad);
        assert_eq!(encode(Ops::Add(s, Data::Int(1))), bad);
        assert_eq!(encode(Ops::Move(s, Data::Reg(s))), bad);
    }
    assert_eq!(encode(Ops::Move(Register::I, Data::Reg(Register::V0))), bad);
    assert_eq!(encode(Ops::Move(Register::I, Data::Reg(Register::Dt))), bad);
    assert_eq!(encode(Ops::Move(Register::Dt, Data::Int(1))), bad);
    assert_eq!(encode(Ops::Move(Register::St, Data::Int(1))), bad);
    assert_eq!(encode(Ops::Move(Register::V0, Data::Reg(Register::I))), bad);
    assert_eq!(encode(Ops::Move(Register::V0, Data::Reg(Register::St))), bad);
    assert_eq!(encode(Ops::Move(Register::St, Data::Reg(Register::Dt))), bad);
    assert_eq!(encode(Ops::Add(Register::I, Data::Reg(Register::I))), bad);
    assert_eq!(encode(Ops::Add(Register::Dt, Data::Reg(Register::V0))), bad);
}

#[test]
fn comparison_of_two_registers_for_inequality_has_no_row() {
    assert_eq!(
        encode(Ops::SkipIfNotEqual(Register::V0, Data::Reg(Register::V1))),
        Err(LinkErrorKind::InvalidOperand)
    );
    assert_eq!(
        assemble("clr sne rv0 rv1".to_string()),
        Err(link_error(LinkErrorKind::InvalidOperand, 1))
    );
}

#[test]
fn literal_must_fit_its_field() {
    let wide = Err(LinkErrorKind::OutOfRange);
    assert_eq!(encode(Ops::Move(Register::V0, Data::Int(0x100))), wide);
    assert_eq!(encode(Ops::Move(Register::V0, Data::Int(0xFFFF))), wide);
    assert_eq!(encode(Ops::Move(Register::I, Data::Int(0x1000))), wide);
    assert_eq!(encode(Ops::Move(Register::I, Data::Int(0xFFFF))), wide);
    assert_eq!(encode(Ops::Add(Register::V0, Data::Int(0x100))), wide);
    assert_eq!(encode(Ops::SkipIfEqual(Register::V0, Data::Int(0x100))), wide);
    assert_eq!(encode(Ops::SkipIfNotEqual(Register::V0, Data::Int(0x100))), wide);
    assert_eq!(encode(Ops::Draw(Register::V0, Register::V1, 16)), wide);
    assert_eq!(encode(Ops::Draw(Register::V0, Register::V1, 0x1F)), wide);
    assert_eq!(
        assemble("clr clr mov rv0 256".to_string()),
        Err(link_error(LinkErrorKind::OutOfRange, 2))
    );
    assert_eq!(
        assemble("getrand rv0 256".to_string()),
        Err(AssembleError::Parse(ParseError {
            kind: ParseErrorKind::LiteralOutOfRange,
            token: "256".to_string(),
        }))
    );
}

#[test]
fn first_link_error_wins() {
    assert_eq!(
        assemble("clr mov rv0 256 jump .nowhere".to_string()),
        Err(link_error(LinkErrorKind::OutOfRange, 1))
    );
    assert_eq!(
        assemble("jump .nowhere :a :a".to_string()),
        Err(link_error(LinkErrorKind::DuplicateLabel, 2))
    );
}

fn decode(w: u16) -> Option<Ops> {
    let x = GENERAL[((w >> 8) & 0xF) as usize];
    let y = GENERAL[((w >> 4) & 0xF) as usize];
    let byte = w & 0xFF;
    let n = w & 0xF;
    Some(match w >> 12 {
        0x0 => match w {
            0x00E0 => Ops::ClearScreen,
            0x00EE => Ops::Return,
            0x0000 => Ops::NoOp,
            _ => return None,
        },
        0x3 => Ops::SkipIfEqual(x, Int(byte)),
        0x4 => Ops::SkipIfNotEqual(x, Int(byte)),
        0x5 if n == 0 => Ops::SkipIfEqual(x, Reg(y)),
        0x6 => Ops::Move(x, Int(byte)),
        0x7 => Ops::Add(x, Int(byte)),
        0x8 => match n {
            0 => Ops::Move(x, Reg(y)),
            2 => Ops::And(x, y),
            4 => Ops::Add(x, Reg(y)),
            5 => Ops::Sub(x, y),
            _ => return None,
        },
        0xA => Ops::Move(Register::I, Int(w & 0xFFF)),
        0xC => Ops::Rand(x, byte as u8),
        0xD => Ops::Draw(x, y, n),
        0xE if byte == 0xA1 => Ops::SkipIfKeyNotPress(x),
        0xF => match byte {
            0x07 => Ops::Move(x, Reg(Register::Dt)),
            0x15 => Ops::Move(Register::Dt, Reg(x)),
            0x18 => Ops::Move(Register::St, Reg(x)),
            0x1E => Ops::Add(Register::I, Reg(x)),
            0x29 => Ops::LoadFontAddress(x),
            0x33 => Ops::Bcd(x),
            0x65 => Ops::Store(x),
            _ => return None,
        },
        _ => return None,
    })
}

#[test]
fn every_word_that_decodes_is_the_code_of_what_it_decodes_to() {
    let mut seen = 0;
    for w in 0..=0xFFFFu16 {
        if let Some(op) = decode(w) {
            assert_eq!(encode(op), word(w), "{:04X}", w);
            seen += 1;
        }
    }
    assert_eq!(seen, 3 + 5 * 4096 + 256 + 4 * 256 + 2 * 4096 + 16 + 7 * 16);
}

#[test]
fn jump_and_call_decode_to_their_target() {
    let mut program = vec![jump("t"), call("t")];
    for _ in 0..5 {
        program.push(clear());
    }
    program.push(label("t"));
    let bytes = link(program).unwrap();
    assert_eq!(&bytes[..4], &[0x12, 0x0E, 0x22, 0x0E]);
    assert_eq!(0x200 + 2 * 7, 0x20E);
}

#[test]
fn bytes_are_two_for_each_instruction_high_byte_first() {
    let bytes = link(vec![
        label("a"),
        Assembly::Instruction(Ops::Move(Register::I, Data::Int(0x123))),
        label("b"),
        Assembly::Instruction(Ops::Store(Register::V4)),
        Assembly::Instruction(Ops::Return),
    ])
    .unwrap();
    assert_eq!(bytes, vec![0xA1, 0x23, 0xF4, 0x65, 0x00, 0xEE]);
}
