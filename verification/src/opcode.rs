//! The opcode table: which four nibbles each operation is packed into, and
//! how a 16-bit word is read back as an operation.

use crate::error::LinkErrorKind;
use crate::instructions::{Data, Operation, Register};
use vstd::prelude::*;

verus! {

/// The address at which the first instruction of a program stands.
pub const START_ADDR: u128 = 0x200;

/// The number of bytes one instruction takes up.
pub const INSTRUCTION_WIDTH: u128 = 2;

/// The largest value an address field holds: twelve bits.
pub const MAX_ADDRESS: u16 = 0xFFF;

/// The largest value a byte field holds.
pub const MAX_BYTE: u16 = 0xFF;

/// The largest value a nibble field holds.
pub const MAX_NIBBLE: u16 = 0xF;

/// The lowest four bits of `x`.
pub open spec fn nibble(x: int) -> u8 {
    (x % 16) as u8
}

/// The word made of four nibbles, the first one highest.
pub open spec fn word_of(p: Seq<u8>) -> u16
    recommends
        is_pattern(p),
{
    (p[0] * 4096 + p[1] * 256 + p[2] * 16 + p[3]) as u16
}

/// Four values of four bits each.
pub open spec fn is_pattern(p: Seq<u8>) -> bool {
    &&& p.len() == 4
    &&& p[0] < 16
    &&& p[1] < 16
    &&& p[2] < 16
    &&& p[3] < 16
}

/// A nibble, then a 12-bit address.
pub open spec fn with_address(head: u8, address: int) -> Result<Seq<u8>, LinkErrorKind> {
    if 0 <= address <= MAX_ADDRESS {
        Ok(seq![head, nibble(address / 256), nibble(address / 16), nibble(address)])
    } else {
        Err(LinkErrorKind::OutOfRange)
    }
}

/// A nibble, a general-purpose register, then a byte.
pub open spec fn with_register_byte(head: u8, r: Register, byte: int) -> Result<
    Seq<u8>,
    LinkErrorKind,
> {
    if !r.is_general() {
        Err(LinkErrorKind::InvalidOperand)
    } else if 0 <= byte <= MAX_BYTE {
        Ok(seq![head, r.code(), nibble(byte / 16), nibble(byte)])
    } else {
        Err(LinkErrorKind::OutOfRange)
    }
}

/// A nibble, a general-purpose register, then two fixed nibbles.
pub open spec fn with_register(head: u8, r: Register, n2: u8, n3: u8) -> Result<
    Seq<u8>,
    LinkErrorKind,
> {
    if r.is_general() {
        Ok(seq![head, r.code(), n2, n3])
    } else {
        Err(LinkErrorKind::InvalidOperand)
    }
}

/// A nibble, two general-purpose registers, then a fixed nibble.
pub open spec fn with_registers(head: u8, r1: Register, r2: Register, n3: u8) -> Result<
    Seq<u8>,
    LinkErrorKind,
> {
    if r1.is_general() && r2.is_general() {
        Ok(seq![head, r1.code(), r2.code(), n3])
    } else {
        Err(LinkErrorKind::InvalidOperand)
    }
}

/// The nibbles of a move.
pub open spec fn move_pattern(r: Register, d: Data) -> Result<Seq<u8>, LinkErrorKind> {
    match (r, d) {
        (Register::I, Data::Int(n)) => with_address(0xA, n as int),
        (Register::Dt, Data::Reg(s)) => with_register(0xF, s, 1, 5),
        (Register::St, Data::Reg(s)) => with_register(0xF, s, 1, 8),
        (_, Data::Reg(Register::Dt)) => with_register(0xF, r, 0, 7),
        (_, Data::Int(n)) => with_register_byte(6, r, n as int),
        (_, Data::Reg(s)) => with_registers(8, r, s, 0),
    }
}

/// The nibbles of an addition.
pub open spec fn add_pattern(r: Register, d: Data) -> Result<Seq<u8>, LinkErrorKind> {
    match (r, d) {
        (Register::I, Data::Reg(s)) => with_register(0xF, s, 1, 0xE),
        (_, Data::Int(n)) => with_register_byte(7, r, n as int),
        (_, Data::Reg(s)) => with_registers(8, r, s, 4),
    }
}

/// The nibbles of a skip on equal.
pub open spec fn skip_if_eq_pattern(r: Register, d: Data) -> Result<Seq<u8>, LinkErrorKind> {
    match d {
        Data::Int(n) => with_register_byte(3, r, n as int),
        Data::Reg(s) => with_registers(5, r, s, 0),
    }
}

/// The nibbles of a skip on not equal. It compares with a literal only.
pub open spec fn skip_if_not_equal_pattern(r: Register, d: Data) -> Result<
    Seq<u8>,
    LinkErrorKind,
> {
    match d {
        Data::Int(n) => with_register_byte(4, r, n as int),
        Data::Reg(_) => Err(LinkErrorKind::InvalidOperand),
    }
}

/// The nibbles of a draw: two registers and a sprite height of four bits.
pub open spec fn draw_pattern(r1: Register, r2: Register, n: u16) -> Result<
    Seq<u8>,
    LinkErrorKind,
> {
    if !(r1.is_general() && r2.is_general()) {
        Err(LinkErrorKind::InvalidOperand)
    } else if n <= MAX_NIBBLE {
        with_registers(0xD, r1, r2, n as u8)
    } else {
        Err(LinkErrorKind::OutOfRange)
    }
}

/// The four nibbles of an operation whose jump target is an address, or why
/// it has none.
///
/// An operand that has no place in the operation's row is an
/// `InvalidOperand`; a literal or an address that does not fit its field is
/// `OutOfRange`, and is never cut down to fit.
pub open spec fn pattern(op: Operation<int>) -> Result<Seq<u8>, LinkErrorKind> {
    match op {
        Operation::Move(r, d) => move_pattern(r, d),
        Operation::Draw(r1, r2, n) => draw_pattern(r1, r2, n),
        Operation::Jump(a) => with_address(1, a),
        Operation::Add(r, d) => add_pattern(r, d),
        Operation::SkipIfEqual(r, d) => skip_if_eq_pattern(r, d),
        Operation::ClearScreen => Ok(seq![0, 0, 0xE, 0]),
        Operation::LoadFontAddress(r) => with_register(0xF, r, 2, 9),
        Operation::Call(a) => with_address(2, a),
        Operation::Rand(r, b) => with_register_byte(0xC, r, b as int),
        Operation::SkipIfKeyNotPress(r) => with_register(0xE, r, 0xA, 1),
        Operation::And(r1, r2) => with_registers(8, r1, r2, 2),
        Operation::SkipIfNotEqual(r, d) => skip_if_not_equal_pattern(r, d),
        Operation::Sub(r1, r2) => with_registers(8, r1, r2, 5),
        Operation::Bcd(r) => with_register(0xF, r, 3, 3),
        Operation::Store(r) => with_register(0xF, r, 6, 5),
        Operation::Return => Ok(seq![0, 0, 0xE, 0xE]),
        Operation::NoOp => Ok(seq![0, 0, 0, 0]),
    }
}

/// The operation with each label replaced by its address in `table`, or
/// `UndefinedLabel` where the table has no such label.
pub open spec fn resolve(op: Operation<Seq<char>>, table: Map<Seq<char>, u128>) -> Result<
    Operation<int>,
    LinkErrorKind,
> {
    match op {
        Operation::Jump(l) => if table.contains_key(l) {
            Ok(Operation::Jump(table[l] as int))
        } else {
            Err(LinkErrorKind::UndefinedLabel)
        },
        Operation::Call(l) => if table.contains_key(l) {
            Ok(Operation::Call(table[l] as int))
        } else {
            Err(LinkErrorKind::UndefinedLabel)
        },
        Operation::Move(r, d) => Ok(Operation::Move(r, d)),
        Operation::Draw(r1, r2, n) => Ok(Operation::Draw(r1, r2, n)),
        Operation::Add(r, d) => Ok(Operation::Add(r, d)),
        Operation::SkipIfEqual(r, d) => Ok(Operation::SkipIfEqual(r, d)),
        Operation::ClearScreen => Ok(Operation::ClearScreen),
        Operation::LoadFontAddress(r) => Ok(Operation::LoadFontAddress(r)),
        Operation::Rand(r, b) => Ok(Operation::Rand(r, b)),
        Operation::SkipIfKeyNotPress(r) => Ok(Operation::SkipIfKeyNotPress(r)),
        Operation::And(r1, r2) => Ok(Operation::And(r1, r2)),
        Operation::SkipIfNotEqual(r, d) => Ok(Operation::SkipIfNotEqual(r, d)),
        Operation::Sub(r1, r2) => Ok(Operation::Sub(r1, r2)),
        Operation::Bcd(r) => Ok(Operation::Bcd(r)),
        Operation::Store(r) => Ok(Operation::Store(r)),
        Operation::Return => Ok(Operation::Return),
        Operation::NoOp => Ok(Operation::NoOp),
    }
}

/// The nibbles of an operation whose targets are label names, looked up in
/// `table`.
pub open spec fn label_pattern(op: Operation<Seq<char>>, table: Map<Seq<char>, u128>) -> Result<
    Seq<u8>,
    LinkErrorKind,
> {
    match resolve(op, table) {
        Ok(resolved) => pattern(resolved),
        Err(e) => Err(e),
    }
}

/// The 16-bit opcode of an operation, its labels looked up in `table`.
pub open spec fn opcode(op: Operation<Seq<char>>, table: Map<Seq<char>, u128>) -> Result<
    u16,
    LinkErrorKind,
> {
    match label_pattern(op, table) {
        Ok(p) => Ok(word_of(p)),
        Err(e) => Err(e),
    }
}

/// The operation that four nibbles stand for, read off the opcode table;
/// `None` where they are in no row of it.
pub open spec fn decode_nibbles(n0: int, n1: int, n2: int, n3: int) -> Option<Operation<int>> {
    let x = Register::general(n1);
    let y = Register::general(n2);
    let byte = n2 * 16 + n3;
    let address = n1 * 256 + n2 * 16 + n3;
    if n0 == 0 {
        if address == 0x0E0 {
            Some(Operation::ClearScreen)
        } else if address == 0x0EE {
            Some(Operation::Return)
        } else if address == 0 {
            Some(Operation::NoOp)
        } else {
            None
        }
    } else if n0 == 1 {
        Some(Operation::Jump(address))
    } else if n0 == 2 {
        Some(Operation::Call(address))
    } else if n0 == 3 {
        Some(Operation::SkipIfEqual(x, Data::Int(byte as u16)))
    } else if n0 == 4 {
        Some(Operation::SkipIfNotEqual(x, Data::Int(byte as u16)))
    } else if n0 == 5 {
        if n3 == 0 {
            Some(Operation::SkipIfEqual(x, Data::Reg(y)))
        } else {
            None
        }
    } else if n0 == 6 {
        Some(Operation::Move(x, Data::Int(byte as u16)))
    } else if n0 == 7 {
        Some(Operation::Add(x, Data::Int(byte as u16)))
    } else if n0 == 8 {
        if n3 == 0 {
            Some(Operation::Move(x, Data::Reg(y)))
        } else if n3 == 2 {
            Some(Operation::And(x, y))
        } else if n3 == 4 {
            Some(Operation::Add(x, Data::Reg(y)))
        } else if n3 == 5 {
            Some(Operation::Sub(x, y))
        } else {
            None
        }
    } else if n0 == 0xA {
        Some(Operation::Move(Register::I, Data::Int(address as u16)))
    } else if n0 == 0xC {
        Some(Operation::Rand(x, byte as u8))
    } else if n0 == 0xD {
        Some(Operation::Draw(x, y, n3 as u16))
    } else if n0 == 0xE {
        if byte == 0xA1 {
            Some(Operation::SkipIfKeyNotPress(x))
        } else {
            None
        }
    } else if n0 == 0xF {
        if byte == 0x07 {
            Some(Operation::Move(x, Data::Reg(Register::Dt)))
        } else if byte == 0x15 {
            Some(Operation::Move(Register::Dt, Data::Reg(x)))
        } else if byte == 0x18 {
            Some(Operation::Move(Register::St, Data::Reg(x)))
        } else if byte == 0x1E {
            Some(Operation::Add(Register::I, Data::Reg(x)))
        } else if byte == 0x29 {
            Some(Operation::LoadFontAddress(x))
        } else if byte == 0x33 {
            Some(Operation::Bcd(x))
        } else if byte == 0x65 {
            Some(Operation::Store(x))
        } else {
            None
        }
    } else {
        None
    }
}

/// The operation that a 16-bit word stands for: the one that its four
/// nibbles stand for, the highest nibble first.
pub open spec fn decode(w: u16) -> Option<Operation<int>> {
    decode_nibbles(
        (w / 4096) as int,
        ((w / 256) % 16) as int,
        ((w / 16) % 16) as int,
        (w % 16) as int,
    )
}

/// A general-purpose register is the one that its code names, and the code
/// fits a nibble.
pub proof fn lemma_register_code(r: Register)
    requires
        r.is_general(),
    ensures
        r.code() < 16,
        Register::general(r.code() as int) == r,
{
    reveal(Register::code);
    reveal(Register::general);
}

/// Every code of four bits names a general-purpose register with that code.
pub proof fn lemma_general_register(code: int)
    requires
        0 <= code < 16,
    ensures
        Register::general(code).is_general(),
        Register::general(code).code() == code,
{
    reveal(Register::code);
    reveal(Register::general);
}

/// The word `w` is made of the nibbles `n0` to `n3`, the first one highest.
pub open spec fn has_fields(w: u16, n0: int, n1: int, n2: int, n3: int) -> bool {
    &&& 0 <= n0 < 16
    &&& 0 <= n1 < 16
    &&& 0 <= n2 < 16
    &&& 0 <= n3 < 16
    &&& w == n0 * 4096 + n1 * 256 + n2 * 16 + n3
    &&& w / 4096 == n0
    &&& (w / 256) % 16 == n1
    &&& (w / 16) % 16 == n2
    &&& w % 16 == n3
}

proof fn lemma_compose(n0: u16, n1: u16, n2: u16, n3: u16, w: u16)
    by (bit_vector)
    requires
        n0 < 16,
        n1 < 16,
        n2 < 16,
        n3 < 16,
        w == n0 * 4096 + n1 * 256 + n2 * 16 + n3,
    ensures
        w / 4096 == n0,
        (w / 256) % 16 == n1,
        (w / 16) % 16 == n2,
        w % 16 == n3,
{
}

proof fn lemma_split(w: u16)
    by (bit_vector)
    ensures
        w / 4096 < 16,
        (w / 256) % 16 < 16,
        (w / 16) % 16 < 16,
        w % 16 < 16,
        w == (w / 4096) * 4096 + ((w / 256) % 16) * 256 + ((w / 16) % 16) * 16 + w % 16,
{
}

/// A word made of four nibbles gives each of them back.
pub proof fn lemma_word_fields(p: Seq<u8>)
    requires
        is_pattern(p),
    ensures
        has_fields(word_of(p), p[0] as int, p[1] as int, p[2] as int, p[3] as int),
{
    lemma_compose(p[0] as u16, p[1] as u16, p[2] as u16, p[3] as u16, word_of(p));
}

/// Every word is made of its four nibbles.
pub proof fn lemma_fields_of_word(w: u16)
    ensures
        has_fields(
            w,
            (w / 4096) as int,
            ((w / 256) % 16) as int,
            ((w / 16) % 16) as int,
            (w % 16) as int,
        ),
{
    lemma_split(w);
}

proof fn lemma_nibbles_u16(v: u16)
    by (bit_vector)
    requires
        v < 4096,
    ensures
        v / 256 < 16,
        (v / 256) * 256 + ((v / 16) % 16) * 16 + v % 16 == v,
{
}

/// The three nibbles of a 12-bit value make it up again.
pub proof fn lemma_nibbles(v: int)
    requires
        0 <= v < 4096,
    ensures
        nibble(v / 256) == v / 256,
        nibble(v / 16) == (v / 16) % 16,
        nibble(v) == v % 16,
        (v / 256) * 256 + ((v / 16) % 16) * 16 + v % 16 == v,
        v < 256 ==> v / 256 == 0,
{
    lemma_nibbles_u16(v as u16);
}

/// What a word of the address form is read as.
proof fn lemma_with_address(head: u8, address: int)
    requires
        head < 16,
        with_address(head, address) is Ok,
    ensures
        is_pattern(with_address(head, address)->Ok_0),
        decode(word_of(with_address(head, address)->Ok_0)) == decode_nibbles(
            head as int,
            address / 256,
            (address / 16) % 16,
            address % 16,
        ),
        (address / 256) * 256 + ((address / 16) % 16) * 16 + address % 16 == address,
{
    lemma_nibbles(address);
    lemma_word_fields(with_address(head, address)->Ok_0);
}

/// What a word of the register-and-byte form is read as.
proof fn lemma_with_register_byte(head: u8, r: Register, byte: int)
    requires
        head < 16,
        with_register_byte(head, r, byte) is Ok,
    ensures
        is_pattern(with_register_byte(head, r, byte)->Ok_0),
        decode(word_of(with_register_byte(head, r, byte)->Ok_0)) == decode_nibbles(
            head as int,
            r.code() as int,
            (byte / 16) % 16,
            byte % 16,
        ),
        ((byte / 16) % 16) * 16 + byte % 16 == byte,
        Register::general(r.code() as int) == r,
{
    lemma_register_code(r);
    lemma_nibbles(byte);
    lemma_word_fields(with_register_byte(head, r, byte)->Ok_0);
}

/// What a word of the one-register form is read as.
proof fn lemma_with_register(head: u8, r: Register, n2: u8, n3: u8)
    requires
        head < 16,
        n2 < 16,
        n3 < 16,
        with_register(head, r, n2, n3) is Ok,
    ensures
        is_pattern(with_register(head, r, n2, n3)->Ok_0),
        decode(word_of(with_register(head, r, n2, n3)->Ok_0)) == decode_nibbles(
            head as int,
            r.code() as int,
            n2 as int,
            n3 as int,
        ),
        Register::general(r.code() as int) == r,
{
    lemma_register_code(r);
    lemma_word_fields(with_register(head, r, n2, n3)->Ok_0);
}

/// What a word of the two-register form is read as.
proof fn lemma_with_registers(head: u8, r1: Register, r2: Register, n3: u8)
    requires
        head < 16,
        n3 < 16,
        with_registers(head, r1, r2, n3) is Ok,
    ensures
        is_pattern(with_registers(head, r1, r2, n3)->Ok_0),
        decode(word_of(with_registers(head, r1, r2, n3)->Ok_0)) == decode_nibbles(
            head as int,
            r1.code() as int,
            r2.code() as int,
            n3 as int,
        ),
        Register::general(r1.code() as int) == r1,
        Register::general(r2.code() as int) == r2,
{
    lemma_register_code(r1);
    lemma_register_code(r2);
    lemma_word_fields(with_registers(head, r1, r2, n3)->Ok_0);
}

proof fn lemma_decode_move(r: Register, d: Data)
    requires
        move_pattern(r, d) is Ok,
    ensures
        is_pattern(move_pattern(r, d)->Ok_0),
        decode(word_of(move_pattern(r, d)->Ok_0)) == Some(Operation::<int>::Move(r, d)),
{
    match (r, d) {
        (Register::I, Data::Int(n)) => lemma_with_address(0xA, n as int),
        (Register::Dt, Data::Reg(s)) => lemma_with_register(0xF, s, 1, 5),
        (Register::St, Data::Reg(s)) => lemma_with_register(0xF, s, 1, 8),
        (_, Data::Reg(Register::Dt)) => lemma_with_register(0xF, r, 0, 7),
        (_, Data::Int(n)) => lemma_with_register_byte(6, r, n as int),
        (_, Data::Reg(s)) => lemma_with_registers(8, r, s, 0),
    }
}

proof fn lemma_decode_add(r: Register, d: Data)
    requires
        add_pattern(r, d) is Ok,
    ensures
        is_pattern(add_pattern(r, d)->Ok_0),
        decode(word_of(add_pattern(r, d)->Ok_0)) == Some(Operation::<int>::Add(r, d)),
{
    match (r, d) {
        (Register::I, Data::Reg(s)) => lemma_with_register(0xF, s, 1, 0xE),
        (_, Data::Int(n)) => lemma_with_register_byte(7, r, n as int),
        (_, Data::Reg(s)) => lemma_with_registers(8, r, s, 4),
    }
}

proof fn lemma_decode_skip(r: Register, d: Data)
    ensures
        skip_if_eq_pattern(r, d) is Ok ==> is_pattern(skip_if_eq_pattern(r, d)->Ok_0) && decode(
            word_of(skip_if_eq_pattern(r, d)->Ok_0),
        ) == Some(Operation::<int>::SkipIfEqual(r, d)),
        skip_if_not_equal_pattern(r, d) is Ok ==> is_pattern(
            skip_if_not_equal_pattern(r, d)->Ok_0,
        ) && decode(word_of(skip_if_not_equal_pattern(r, d)->Ok_0)) == Some(
            Operation::<int>::SkipIfNotEqual(r, d),
        ),
{
    if skip_if_eq_pattern(r, d) is Ok {
        match d {
            Data::Int(n) => lemma_with_register_byte(3, r, n as int),
            Data::Reg(s) => lemma_with_registers(5, r, s, 0),
        }
    }
    if skip_if_not_equal_pattern(r, d) is Ok {
        match d {
            Data::Int(n) => lemma_with_register_byte(4, r, n as int),
            Data::Reg(_) => {},
        }
    }
}

/// Whatever has an encoding has one of four nibbles, and reading back the
/// word that they make gives the operation: its variant and each of its
/// operands.
pub proof fn lemma_decode_encoded(op: Operation<int>)
    requires
        pattern(op) is Ok,
    ensures
        is_pattern(pattern(op)->Ok_0),
        decode(word_of(pattern(op)->Ok_0)) == Some(op),
{
    let p = pattern(op)->Ok_0;
    match op {
        Operation::Move(r, d) => lemma_decode_move(r, d),
        Operation::Draw(r1, r2, n) => lemma_with_registers(0xD, r1, r2, n as u8),
        Operation::Jump(a) => lemma_with_address(1, a),
        Operation::Add(r, d) => lemma_decode_add(r, d),
        Operation::SkipIfEqual(r, d) => lemma_decode_skip(r, d),
        Operation::LoadFontAddress(r) => lemma_with_register(0xF, r, 2, 9),
        Operation::Call(a) => lemma_with_address(2, a),
        Operation::Rand(r, b) => lemma_with_register_byte(0xC, r, b as int),
        Operation::SkipIfKeyNotPress(r) => lemma_with_register(0xE, r, 0xA, 1),
        Operation::And(r1, r2) => lemma_with_registers(8, r1, r2, 2),
        Operation::SkipIfNotEqual(r, d) => lemma_decode_skip(r, d),
        Operation::Sub(r1, r2) => lemma_with_registers(8, r1, r2, 5),
        Operation::Bcd(r) => lemma_with_register(0xF, r, 3, 3),
        Operation::Store(r) => lemma_with_register(0xF, r, 6, 5),
        Operation::ClearScreen => lemma_word_fields(p),
        Operation::Return => lemma_word_fields(p),
        Operation::NoOp => lemma_word_fields(p),
    }
}

/// Whatever has an encoding under a label table has one of four nibbles.
pub proof fn lemma_label_pattern_is_pattern(op: Operation<Seq<char>>, table: Map<Seq<char>, u128>)
    requires
        label_pattern(op, table) is Ok,
    ensures
        is_pattern(label_pattern(op, table)->Ok_0),
{
    lemma_decode_encoded(resolve(op, table)->Ok_0);
}

/// The word of the address form is its head nibble, then the address.
pub proof fn lemma_address_word(head: u8, address: int)
    requires
        head < 16,
        0 <= address <= MAX_ADDRESS,
    ensures
        with_address(head, address) is Ok,
        word_of(with_address(head, address)->Ok_0) == head * 0x1000 + address,
{
    lemma_nibbles(address);
    lemma_word_fields(with_address(head, address)->Ok_0);
}

/// The word of the register-and-byte form is its head nibble, then the
/// register's code, then the byte.
pub proof fn lemma_register_byte_word(head: u8, r: Register, byte: int)
    requires
        head < 16,
        r.is_general(),
        0 <= byte <= MAX_BYTE,
    ensures
        with_register_byte(head, r, byte) is Ok,
        word_of(with_register_byte(head, r, byte)->Ok_0) == head * 0x1000 + r.code() * 0x100
            + byte,
{
    lemma_register_code(r);
    lemma_nibbles(byte);
    lemma_word_fields(with_register_byte(head, r, byte)->Ok_0);
}

/// The word of the two-register form is its head nibble, then the codes of
/// the two registers, then its last nibble. With the one-register form the
/// two last nibbles are the fixed ones.
pub proof fn lemma_registers_word(head: u8, r1: Register, r2: Register, n2: u8, n3: u8)
    requires
        head < 16,
        n2 < 16,
        n3 < 16,
        r1.is_general(),
    ensures
        with_register(head, r1, n2, n3) is Ok,
        word_of(with_register(head, r1, n2, n3)->Ok_0) == head * 0x1000 + r1.code() * 0x100 + n2
            * 0x10 + n3,
        r2.is_general() ==> with_registers(head, r1, r2, n3) is Ok && word_of(
            with_registers(head, r1, r2, n3)->Ok_0,
        ) == head * 0x1000 + r1.code() * 0x100 + r2.code() * 0x10 + n3,
{
    lemma_register_code(r1);
    lemma_word_fields(with_register(head, r1, n2, n3)->Ok_0);
    if r2.is_general() {
        lemma_register_code(r2);
        lemma_word_fields(with_registers(head, r1, r2, n3)->Ok_0);
    }
}

/// Reading back the opcode of an operation gives the operation, with the
/// address of its label in the place of the label.
pub proof fn lemma_decode_opcode(op: Operation<Seq<char>>, table: Map<Seq<char>, u128>)
    requires
        opcode(op, table) is Ok,
    ensures
        resolve(op, table) is Ok,
        decode(opcode(op, table)->Ok_0) == Some(resolve(op, table)->Ok_0),
{
    lemma_decode_encoded(resolve(op, table)->Ok_0);
}

/// Packing the operation that a word is read as gives the word back.
pub proof fn lemma_encode_decoded(w: u16)
    requires
        decode(w) is Some,
    ensures
        pattern(decode(w)->Some_0) is Ok,
        word_of(pattern(decode(w)->Some_0)->Ok_0) == w,
{
    let n0 = (w / 4096) as int;
    let n1 = ((w / 256) % 16) as int;
    let n2 = ((w / 16) % 16) as int;
    let n3 = (w % 16) as int;
    lemma_fields_of_word(w);
    lemma_general_register(n1);
    lemma_general_register(n2);
    lemma_nibbles(n1 * 256 + n2 * 16 + n3);
    lemma_nibbles(n2 * 16 + n3);
    lemma_encode_nibbles(n0, n1, n2, n3);
}

/// Packing the operation that four nibbles are read as gives the nibbles
/// back.
proof fn lemma_encode_nibbles(n0: int, n1: int, n2: int, n3: int)
    requires
        0 <= n0 < 16,
        0 <= n1 < 16,
        0 <= n2 < 16,
        0 <= n3 < 16,
        decode_nibbles(n0, n1, n2, n3) is Some,
        Register::general(n1).is_general(),
        Register::general(n1).code() == n1,
        Register::general(n2).is_general(),
        Register::general(n2).code() == n2,
        nibble((n1 * 256 + n2 * 16 + n3) / 256) == n1,
        nibble((n1 * 256 + n2 * 16 + n3) / 16) == n2,
        nibble(n1 * 256 + n2 * 16 + n3) == n3,
        nibble((n2 * 16 + n3) / 16) == n2,
        nibble(n2 * 16 + n3) == n3,
    ensures
        pattern(decode_nibbles(n0, n1, n2, n3)->Some_0) == Ok::<Seq<u8>, LinkErrorKind>(
            seq![n0 as u8, n1 as u8, n2 as u8, n3 as u8],
        ),
{
    let op = decode_nibbles(n0, n1, n2, n3)->Some_0;
    let want = seq![n0 as u8, n1 as u8, n2 as u8, n3 as u8];
    assert(pattern(op) is Ok);
    assert(pattern(op)->Ok_0 =~= want);
}

/// Two operations that are packed into the same word are the same.
pub proof fn lemma_encoding_injective(a: Operation<int>, b: Operation<int>)
    requires
        pattern(a) is Ok,
        pattern(b) is Ok,
        word_of(pattern(a)->Ok_0) == word_of(pattern(b)->Ok_0),
    ensures
        a == b,
{
    lemma_decode_encoded(a);
    lemma_decode_encoded(b);
}

} // verus!
