//! The instruction model: registers, operands, operations, and the two forms
//! a parsed program is made of.

use vstd::prelude::*;

verus! {

/// One of the machine's registers: sixteen general-purpose ones, the delay
/// timer, the sound timer and the index register.
#[derive(Clone, Copy, Debug, PartialEq, Eq, Structural)]
pub enum Register {
    V0,
    V1,
    V2,
    V3,
    V4,
    V5,
    V6,
    V7,
    V8,
    V9,
    VA,
    VB,
    VC,
    VD,
    VE,
    VF,
    Dt,
    St,
    I,
}

impl Register {
    /// The general-purpose registers are those with a 4-bit code.
    pub open spec fn is_general(self) -> bool {
        !(self is Dt || self is St || self is I)
    }

    /// The 4-bit code of a general-purpose register: `V0` is 0, `VF` is 15.
    /// The special registers have none.
    #[verifier::opaque]
    pub open spec fn code(self) -> u8
        recommends
            self.is_general(),
    {
        match self {
            Register::V0 => 0,
            Register::V1 => 1,
            Register::V2 => 2,
            Register::V3 => 3,
            Register::V4 => 4,
            Register::V5 => 5,
            Register::V6 => 6,
            Register::V7 => 7,
            Register::V8 => 8,
            Register::V9 => 9,
            Register::VA => 10,
            Register::VB => 11,
            Register::VC => 12,
            Register::VD => 13,
            Register::VE => 14,
            Register::VF => 15,
            _ => arbitrary(),
        }
    }

    /// The general-purpose register with the given code.
    #[verifier::opaque]
    pub open spec fn general(code: int) -> Register
        recommends
            0 <= code < 16,
    {
        if code == 0 {
            Register::V0
        } else if code == 1 {
            Register::V1
        } else if code == 2 {
            Register::V2
        } else if code == 3 {
            Register::V3
        } else if code == 4 {
            Register::V4
        } else if code == 5 {
            Register::V5
        } else if code == 6 {
            Register::V6
        } else if code == 7 {
            Register::V7
        } else if code == 8 {
            Register::V8
        } else if code == 9 {
            Register::V9
        } else if code == 10 {
            Register::VA
        } else if code == 11 {
            Register::VB
        } else if code == 12 {
            Register::VC
        } else if code == 13 {
            Register::VD
        } else if code == 14 {
            Register::VE
        } else {
            Register::VF
        }
    }
}

/// The right-hand operand of a move, an addition or a comparison.
#[derive(Clone, Copy, Debug, PartialEq, Eq, Structural)]
pub enum Data {
    Reg(Register),
    Int(u16),
}

/// One operation of the instruction set, with the operands it needs.
/// A jump or a call names its target label.
#[derive(Clone, Debug, PartialEq, Eq)]
pub enum Ops {
    Move(Register, Data),
    Draw(Register, Register, u16),
    Jump(String),
    Add(Register, Data),
    SkipIfEqual(Register, Data),
    ClearScreen,
    LoadFontAddress(Register),
    Call(String),
    Rand(Register, u8),
    SkipIfKeyNotPress(Register),
    And(Register, Register),
    SkipIfNotEqual(Register, Data),
    Sub(Register, Register),
    Bcd(Register),
    Store(Register),
    Return,
    NoOp,
}

/// An operation as contracts see it, over any kind of jump target `L`.
/// With `L = Seq<char>` it is what [`Ops`] stands for: the target is a label
/// name. With `L = int` the target is an address.
pub enum Operation<L> {
    Move(Register, Data),
    Draw(Register, Register, u16),
    Jump(L),
    Add(Register, Data),
    SkipIfEqual(Register, Data),
    ClearScreen,
    LoadFontAddress(Register),
    Call(L),
    Rand(Register, u8),
    SkipIfKeyNotPress(Register),
    And(Register, Register),
    SkipIfNotEqual(Register, Data),
    Sub(Register, Register),
    Bcd(Register),
    Store(Register),
    Return,
    NoOp,
}

impl View for Ops {
    type V = Operation<Seq<char>>;

    open spec fn view(&self) -> Operation<Seq<char>> {
        match *self {
            Ops::Move(r, d) => Operation::Move(r, d),
            Ops::Draw(r1, r2, n) => Operation::Draw(r1, r2, n),
            Ops::Jump(l) => Operation::Jump(l@),
            Ops::Add(r, d) => Operation::Add(r, d),
            Ops::SkipIfEqual(r, d) => Operation::SkipIfEqual(r, d),
            Ops::ClearScreen => Operation::ClearScreen,
            Ops::LoadFontAddress(r) => Operation::LoadFontAddress(r),
            Ops::Call(l) => Operation::Call(l@),
            Ops::Rand(r, b) => Operation::Rand(r, b),
            Ops::SkipIfKeyNotPress(r) => Operation::SkipIfKeyNotPress(r),
            Ops::And(r1, r2) => Operation::And(r1, r2),
            Ops::SkipIfNotEqual(r, d) => Operation::SkipIfNotEqual(r, d),
            Ops::Sub(r1, r2) => Operation::Sub(r1, r2),
            Ops::Bcd(r) => Operation::Bcd(r),
            Ops::Store(r) => Operation::Store(r),
            Ops::Return => Operation::Return,
            Ops::NoOp => Operation::NoOp,
        }
    }
}

/// The unit a parse produces: an instruction, which takes up two bytes of the
/// program, or a label, which takes up none and names the address of the
/// instruction that follows it.
#[derive(Clone, Debug, PartialEq, Eq)]
pub enum Assembly {
    Instruction(Ops),
    Label(String),
}

/// What [`Assembly`] stands for in contracts.
pub enum AssemblyView {
    Instruction(Operation<Seq<char>>),
    Label(Seq<char>),
}

impl View for Assembly {
    type V = AssemblyView;

    open spec fn view(&self) -> AssemblyView {
        match *self {
            Assembly::Instruction(op) => AssemblyView::Instruction(op@),
            Assembly::Label(l) => AssemblyView::Label(l@),
        }
    }
}

/// A program as contracts see it: the view of each element, in order.
pub open spec fn program_view(ops: Seq<Assembly>) -> Seq<AssemblyView> {
    ops.map_values(|a: Assembly| a@)
}

} // verus!
