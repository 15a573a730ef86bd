//! The linker: pass one gives every label its address, pass two packs every
//! instruction into its opcode, and the opcodes are written out high byte
//! first.

use crate::error::{LinkError, LinkErrorKind};
use crate::instructions::{
    program_view, Assembly, AssemblyView, Data, Operation, Ops, Register,
};
use crate::opcode::{
    add_pattern, draw_pattern, is_pattern, label_pattern, lemma_label_pattern_is_pattern,
    move_pattern, opcode, skip_if_eq_pattern, skip_if_not_equal_pattern, with_address,
    with_register, with_register_byte, with_registers, word_of, MAX_ADDRESS, MAX_BYTE, MAX_NIBBLE,
    START_ADDR,
};
use crate::program::{
    address_after, big_endian, instruction_count, label_table, lemma_label_table_error,
    lemma_opcodes_error, opcodes,
};
use vstd::hash_map::StringHashMap;
use vstd::prelude::*;

verus! {

/// The two-pass linker. It holds the program, the label table that pass one
/// made of it, and the opcodes that pass two has produced so far.
pub struct Linker {
    m_code: Vec<u16>,
    ops: Vec<Assembly>,
    label_addr: StringHashMap<u128>,
}

/// The nibbles that were computed are the ones the table gives, or the error
/// is the one it gives.
pub open spec fn agrees(
    got: Result<[u8; 4], LinkErrorKind>,
    want: Result<Seq<u8>, LinkErrorKind>,
) -> bool {
    match got {
        Ok(a) => want == Ok::<Seq<u8>, LinkErrorKind>(a@),
        Err(e) => want == Err::<Seq<u8>, LinkErrorKind>(e),
    }
}

impl Linker {
    /// The program that is being linked.
    pub closed spec fn program(&self) -> Seq<AssemblyView> {
        program_view(self.ops@)
    }

    /// The opcodes produced so far, in program order.
    pub closed spec fn words(&self) -> Seq<u16> {
        self.m_code@
    }

    /// The label table: the address of each label that pass one has seen.
    pub closed spec fn labels(&self) -> Map<Seq<char>, u128> {
        self.label_addr@
    }

    /// A linker for `program`, with no label known and nothing encoded yet.
    pub fn new(program: Vec<Assembly>) -> (linker: Self)
        ensures
            linker.program() == program_view(program@),
            linker.words() == Seq::<u16>::empty(),
            linker.labels() == Map::<Seq<char>, u128>::empty(),
    {
        Self { m_code: Vec::new(), ops: program, label_addr: StringHashMap::new() }
    }

    /// Pass two. Every instruction is packed into its opcode, its labels
    /// looked up in the label table as it stands, and the opcodes are added
    /// in program order to those produced so far. The first instruction that
    /// has no opcode is an error, and then nothing is added.
    pub fn link(&mut self) -> (done: Result<(), LinkError>)
        ensures
            final(self).program() == old(self).program(),
            final(self).labels() == old(self).labels(),
            match done {
                Ok(()) => opcodes(old(self).program(), old(self).labels()) is Ok
                    && final(self).words() == old(self).words() + opcodes(
                    old(self).program(),
                    old(self).labels(),
                )->Ok_0,
                Err(e) => opcodes(old(self).program(), old(self).labels()) == Err::<
                    Seq<u16>,
                    LinkError,
                >(e) && final(self).words() == old(self).words(),
            },
    {
        let ghost prog = self.program();
        let ghost table = self.labels();
        let mut code: Vec<u16> = Vec::new();
        let mut i: usize = 0;
        while i < self.ops.len()
            invariant
                i <= self.ops.len(),
                self.program() == prog,
                self.labels() == table,
                prog.len() == self.ops.len(),
                opcodes(prog.take(i as int), table) == Ok::<Seq<u16>, LinkError>(code@),
            decreases self.ops.len() - i,
        {
            proof {
                assert(prog.take(i + 1).drop_last() == prog.take(i as int));
                assert(prog.take(i + 1).last() == self.ops[i as int]@);
            }
            match &self.ops[i] {
                Assembly::Instruction(op) => {
                    match self.covert_to_code(op) {
                        Ok(word) => code.push(word),
                        Err(kind) => {
                            proof {
                                lemma_opcodes_error(prog, table, i + 1);
                            }
                            return Err(LinkError { kind, index: i });
                        },
                    }
                },
                Assembly::Label(_) => {},
            }
            i += 1;
        }
        proof {
            assert(prog.take(i as int) == prog);
        }
        self.m_code.append(&mut code);
        Ok(())
    }

    /// The opcode of one operation, its labels looked up in the label table.
    fn covert_to_code(&self, op: &Ops) -> (code: Result<u16, LinkErrorKind>)
        ensures
            code == opcode(op@, self.labels()),
    {
        let c = match op {
            Ops::Move(reg, data) => Self::encode_move(reg, data),
            Ops::Draw(r1, r2, l) => Self::encode_draw(r1, r2, *l),
            Ops::Jump(label) => self.encode_jump(label.as_str()),
            Ops::Add(reg, data) => Self::encode_add(reg, data),
            Ops::SkipIfEqual(reg, data) => Self::encode_skip_if_eq(reg, data),
            Ops::ClearScreen => Ok([0, 0, 0xE, 0]),
            Ops::LoadFontAddress(reg) => Self::encode_load_font_address(reg),
            Ops::Call(d) => self.encode_call(d.as_str()),
            Ops::Rand(reg, literal) => Self::encode_rand(reg, *literal),
            Ops::SkipIfKeyNotPress(reg) => Self::encode_skip_if_key_not_pressed(reg),
            Ops::And(r1, r2) => Self::encode_and(r1, r2),
            Ops::SkipIfNotEqual(reg, data) => Self::encode_skip_if_not_equal(reg, data),
            Ops::Sub(reg1, reg2) => Self::encode_sub(reg1, reg2),
            Ops::Bcd(reg) => Self::encode_bcd(reg),
            Ops::Store(reg) => Self::encode_store(reg),
            Ops::Return => Ok(Self::encode_return()),
            Ops::NoOp => Ok([0, 0, 0, 0]),
        };
        assert(agrees(c, label_pattern(op@, self.labels())));
        match c {
            Ok(nibbles) => {
                proof {
                    lemma_label_pattern_is_pattern(op@, self.labels());
                }
                Ok(Self::convert(nibbles))
            },
            Err(e) => Err(e),
        }
    }

    fn encode_return() -> (nibbles: [u8; 4])
        ensures
            nibbles@ == seq![0u8, 0, 0xE, 0xE],
    {
        [0, 0, 0xE, 0xE]
    }

    fn encode_store(reg: &Register) -> (nibbles: Result<[u8; 4], LinkErrorKind>)
        ensures
            agrees(nibbles, with_register(0xF, *reg, 6, 5)),
    {
        Self::register_form(0xF, reg, 6, 5)
    }

    fn encode_bcd(reg: &Register) -> (nibbles: Result<[u8; 4], LinkErrorKind>)
        ensures
            agrees(nibbles, with_register(0xF, *reg, 3, 3)),
    {
        Self::register_form(0xF, reg, 3, 3)
    }

    fn encode_sub(reg1: &Register, reg2: &Register) -> (nibbles: Result<[u8; 4], LinkErrorKind>)
        ensures
            agrees(nibbles, with_registers(8, *reg1, *reg2, 5)),
    {
        Self::registers_form(8, reg1, reg2, 5)
    }

    fn encode_skip_if_not_equal(reg: &Register, data: &Data) -> (nibbles: Result<
        [u8; 4],
        LinkErrorKind,
    >)
        ensures
            agrees(nibbles, skip_if_not_equal_pattern(*reg, *data)),
    {
        match data {
            Data::Int(i) => Self::register_byte_form(4, reg, *i),
            Data::Reg(_) => Err(LinkErrorKind::InvalidOperand),
        }
    }

    fn encode_and(reg1: &Register, reg2: &Register) -> (nibbles: Result<[u8; 4], LinkErrorKind>)
        ensures
            agrees(nibbles, with_registers(8, *reg1, *reg2, 2)),
    {
        Self::registers_form(8, reg1, reg2, 2)
    }

    fn encode_skip_if_key_not_pressed(reg: &Register) -> (nibbles: Result<
        [u8; 4],
        LinkErrorKind,
    >)
        ensures
            agrees(nibbles, with_register(0xE, *reg, 0xA, 1)),
    {
        Self::register_form(0xE, reg, 0xA, 1)
    }

    fn encode_rand(reg: &Register, data: u8) -> (nibbles: Result<[u8; 4], LinkErrorKind>)
        ensures
            agrees(nibbles, with_register_byte(0xC, *reg, data as int)),
    {
        Self::register_byte_form(0xC, reg, data as u16)
    }

    fn encode_call(&self, d: &str) -> (nibbles: Result<[u8; 4], LinkErrorKind>)
        ensures
            agrees(nibbles, label_pattern(Operation::Call(d@), self.labels())),
    {
        match self.label_addr.get(d) {
            Some(addr) => Self::address_form(2, *addr),
            None => Err(LinkErrorKind::UndefinedLabel),
        }
    }

    fn encode_load_font_address(reg: &Register) -> (nibbles: Result<[u8; 4], LinkErrorKind>)
        ensures
            agrees(nibbles, with_register(0xF, *reg, 2, 9)),
    {
        Self::register_form(0xF, reg, 2, 9)
    }

    fn encode_skip_if_eq(reg: &Register, data: &Data) -> (nibbles: Result<[u8; 4], LinkErrorKind>)
        ensures
            agrees(nibbles, skip_if_eq_pattern(*reg, *data)),
    {
        match data {
            Data::Int(l) => Self::register_byte_form(3, reg, *l),
            Data::Reg(r2) => Self::registers_form(5, reg, r2, 0),
        }
    }

    fn encode_add(reg: &Register, data: &Data) -> (nibbles: Result<[u8; 4], LinkErrorKind>)
        ensures
            agrees(nibbles, add_pattern(*reg, *data)),
    {
        match (reg, data) {
            (Register::I, Data::Reg(r2)) => Self::register_form(0xF, r2, 1, 0xE),
            (_, Data::Int(literal)) => Self::register_byte_form(7, reg, *literal),
            (_, Data::Reg(r)) => Self::registers_form(8, reg, r, 4),
        }
    }

    fn encode_jump(&self, label: &str) -> (nibbles: Result<[u8; 4], LinkErrorKind>)
        ensures
            agrees(nibbles, label_pattern(Operation::Jump(label@), self.labels())),
    {
        match self.label_addr.get(label) {
            Some(addr) => Self::address_form(1, *addr),
            None => Err(LinkErrorKind::UndefinedLabel),
        }
    }

    fn encode_draw(r1: &Register, r2: &Register, i: u16) -> (nibbles: Result<
        [u8; 4],
        LinkErrorKind,
    >)
        ensures
            agrees(nibbles, draw_pattern(*r1, *r2, i)),
    {
        if !(Self::is_general(r1) && Self::is_general(r2)) {
            Err(LinkErrorKind::InvalidOperand)
        } else if i <= MAX_NIBBLE {
            Self::registers_form(0xD, r1, r2, i as u8)
        } else {
            Err(LinkErrorKind::OutOfRange)
        }
    }

    /// The word made of four nibbles, the first one highest.
    fn convert(arr: [u8; 4]) -> (n: u16)
        ensures
            n == (arr[0] as u16) << 12 | (arr[1] as u16) << 8 | (arr[2] as u16) << 4 | (
            arr[3] as u16),
            is_pattern(arr@) ==> n == word_of(arr@),
    {
        let a0 = arr[0] as u16;
        let a1 = arr[1] as u16;
        let a2 = arr[2] as u16;
        let a3 = arr[3] as u16;
        let mut n: u16;
        n = a0;
        n <<= 4;
        n |= a1;
        n <<= 4;
        n |= a2;
        n <<= 4;
        n |= a3;
        assert(((((a0 << 4) | a1) << 4 | a2) << 4) | a3 == a0 << 12 | a1 << 8 | a2 << 4 | a3)
            by (bit_vector);
        assert(a0 < 16 && a1 < 16 && a2 < 16 && a3 < 16 ==> (a0 << 12 | a1 << 8 | a2 << 4 | a3)
            == a0 * 4096 + a1 * 256 + a2 * 16 + a3) by (bit_vector);
        n
    }

    fn encode_move(reg: &Register, data: &Data) -> (nibbles: Result<[u8; 4], LinkErrorKind>)
        ensures
            agrees(nibbles, move_pattern(*reg, *data)),
    {
        match (reg, data) {
            (Register::I, Data::Int(i)) => Self::address_form(0xA, *i as u128),
            (Register::Dt, Data::Reg(reg)) => Self::register_form(0xF, reg, 1, 5),
            (Register::St, Data::Reg(reg)) => Self::register_form(0xF, reg, 1, 8),
            (_, Data::Reg(Register::Dt)) => Self::register_form(0xF, reg, 0, 7),
            (_, Data::Int(literal)) => Self::register_byte_form(6, reg, *literal),
            (_, Data::Reg(reg2)) => Self::registers_form(8, reg, reg2, 0),
        }
    }

    /// Whether the register is one of the sixteen that have a code.
    fn is_general(reg: &Register) -> (general: bool)
        ensures
            general == reg.is_general(),
    {
        match reg {
            Register::Dt | Register::St | Register::I => false,
            _ => true,
        }
    }

    /// The 4-bit code of a general-purpose register.
    fn get_register_code(reg: &Register) -> (code: u8)
        requires
            reg.is_general(),
        ensures
            code == reg.code(),
            code < 16,
    {
        proof {
            reveal(Register::code);
        }
        match reg {
            Register::V0 => 0,
            Register::V1 => 1,
            Register::V2 => 2,
            Register::V3 => 3,
            Register::V4 => 4,
            Register::V5 => 5,
            Register::V6 => 6,
            Register::V7 => 7,
            Register::V8 => 8,
            Register::V9 => 9,
            Register::VA => 10,
            Register::VB => 11,
            Register::VC => 12,
            Register::VD => 13,
            Register::VE => 14,
            _ => 15,
        }
    }

    /// A nibble, then an address of twelve bits.
    fn address_form(head: u8, address: u128) -> (nibbles: Result<[u8; 4], LinkErrorKind>)
        ensures
            agrees(nibbles, with_address(head, address as int)),
    {
        if address <= MAX_ADDRESS as u128 {
            let a: u16 = address as u16;
            Ok([head, ((a / 256) % 16) as u8, ((a / 16) % 16) as u8, (a % 16) as u8])
        } else {
            Err(LinkErrorKind::OutOfRange)
        }
    }

    /// A nibble, a general-purpose register, then a byte.
    fn register_byte_form(head: u8, reg: &Register, byte: u16) -> (nibbles: Result<
        [u8; 4],
        LinkErrorKind,
    >)
        ensures
            agrees(nibbles, with_register_byte(head, *reg, byte as int)),
    {
        if !Self::is_general(reg) {
            Err(LinkErrorKind::InvalidOperand)
        } else if byte <= MAX_BYTE {
            Ok([head, Self::get_register_code(reg), ((byte / 16) % 16) as u8, (byte % 16) as u8])
        } else {
            Err(LinkErrorKind::OutOfRange)
        }
    }

    /// A nibble, a general-purpose register, then two fixed nibbles.
    fn register_form(head: u8, reg: &Register, n2: u8, n3: u8) -> (nibbles: Result<
        [u8; 4],
        LinkErrorKind,
    >)
        ensures
            agrees(nibbles, with_register(head, *reg, n2, n3)),
    {
        if Self::is_general(reg) {
            Ok([head, Self::get_register_code(reg), n2, n3])
        } else {
            Err(LinkErrorKind::InvalidOperand)
        }
    }

    /// A nibble, two general-purpose registers, then a fixed nibble.
    fn registers_form(head: u8, reg1: &Register, reg2: &Register, n3: u8) -> (nibbles: Result<
        [u8; 4],
        LinkErrorKind,
    >)
        ensures
            agrees(nibbles, with_registers(head, *reg1, *reg2, n3)),
    {
        if Self::is_general(reg1) && Self::is_general(reg2) {
            Ok([head, Self::get_register_code(reg1), Self::get_register_code(reg2), n3])
        } else {
            Err(LinkErrorKind::InvalidOperand)
        }
    }

    /// The opcodes produced so far as bytes: two for each opcode, the high
    /// byte first.
    pub fn get_code(&self) -> (code: Vec<u8>)
        ensures
            code@ == big_endian(self.words()),
    {
        let mut code: Vec<u8> = Vec::new();
        let mut i: usize = 0;
        while i < self.m_code.len()
            invariant
                i <= self.m_code.len(),
                code@ == big_endian(self.m_code@.take(i as int)),
            decreases self.m_code.len() - i,
        {
            let t = self.m_code[i];
            code.push((t / 256) as u8);
            code.push((t % 256) as u8);
            i += 1;
            assert(code@ =~= big_endian(self.m_code@.take(i as int)));
        }
        assert(self.m_code@.take(i as int) == self.m_code@);
        code
    }

    /// Pass one. Every label is given the address of the instruction that
    /// follows it: the load address, and two more for each instruction that
    /// stands before the label. A label that is declared a second time is an
    /// error, and then the label table stays as it was.
    pub fn set_up_labels(&mut self) -> (done: Result<(), LinkError>)
        ensures
            final(self).program() == old(self).program(),
            final(self).words() == old(self).words(),
            match done {
                Ok(()) => label_table(old(self).program()) == Ok::<
                    Map<Seq<char>, u128>,
                    LinkError,
                >(final(self).labels()),
                Err(e) => label_table(old(self).program()) == Err::<
                    Map<Seq<char>, u128>,
                    LinkError,
                >(e) && final(self).labels() == old(self).labels(),
            },
    {
        let ghost prog = self.program();
        let mut lables: StringHashMap<u128> = StringHashMap::new();
        let mut addr: u128 = START_ADDR;
        let mut i: usize = 0;
        while i < self.ops.len()
            invariant
                i <= self.ops.len(),
                self.program() == prog,
                prog.len() == self.ops.len(),
                label_table(prog.take(i as int)) == Ok::<Map<Seq<char>, u128>, LinkError>(
                    lables@,
                ),
                addr == address_after(prog.take(i as int)),
                instruction_count(prog.take(i as int)) <= i,
            decreases self.ops.len() - i,
        {
            proof {
                assert(prog.take(i + 1).drop_last() == prog.take(i as int));
                assert(prog.take(i + 1).last() == self.ops[i as int]@);
            }
            match &self.ops[i] {
                Assembly::Label(label) => {
                    if lables.contains_key(label.as_str()) {
                        proof {
                            lemma_label_table_error(prog, i + 1);
                        }
                        return Err(LinkError { kind: LinkErrorKind::DuplicateLabel, index: i });
                    }
                    lables.insert(label.clone(), addr);
                },
                Assembly::Instruction(_) => {
                    addr += 2;
                },
            }
            i += 1;
        }
        proof {
            assert(prog.take(i as int) == prog);
        }
        self.label_addr = lables;
        Ok(())
    }

    /// The address that pass one gave the label `name`, if it saw one of
    /// that name.
    pub fn label_address(&self, name: &str) -> (address: Option<u128>)
        ensures
            address == if self.labels().contains_key(name@) {
                Some(self.labels()[name@])
            } else {
                None
            },
    {
        match self.label_addr.get(name) {
            Some(a) => Some(*a),
            None => None,
        }
    }
}

} // verus!
