//! What can go wrong. Every error is final: nothing is assembled from a
//! source that has one.

use vstd::prelude::*;

verus! {

/// Why a token could not be parsed.
#[derive(Clone, Copy, Debug, PartialEq, Eq, Structural)]
pub enum ParseErrorKind {
    /// The token is neither a label declaration nor a known mnemonic.
    UnknownInstruction,
    /// The source ends where an operand is due.
    MissingOperand,
    /// A register is due and the token names none.
    InvalidRegister,
    /// A register or a literal is due and the token is neither.
    InvalidData,
    /// An unsigned integer literal is due and the token is none.
    InvalidLiteral,
    /// A label reference is due and the token lacks the leading `.`.
    InvalidLabel,
    /// The literal is an integer, but too large for the byte it is to fill.
    LiteralOutOfRange,
}

/// A parse error: its kind and the token it is about. Where an operand is
/// missing there is no such token, and `token` is empty.
#[derive(Clone, Debug, PartialEq, Eq)]
pub struct ParseError {
    pub kind: ParseErrorKind,
    pub token: String,
}

/// What [`ParseError`] stands for in contracts.
pub struct ParseErrorView {
    pub kind: ParseErrorKind,
    pub token: Seq<char>,
}

impl View for ParseError {
    type V = ParseErrorView;

    open spec fn view(&self) -> ParseErrorView {
        ParseErrorView { kind: self.kind, token: self.token@ }
    }
}

/// Why an element of the program could not be linked.
#[derive(Clone, Copy, Debug, PartialEq, Eq, Structural)]
pub enum LinkErrorKind {
    /// A label is declared a second time.
    DuplicateLabel,
    /// A jump or a call names a label that is declared nowhere.
    UndefinedLabel,
    /// The operation has no encoding for this combination of registers and
    /// operands.
    InvalidOperand,
    /// A literal or an address is too large for the bits it is to fill.
    OutOfRange,
}

/// A link error: its kind, and the position in the program of the element it
/// is about.
#[derive(Clone, Copy, Debug, PartialEq, Eq, Structural)]
pub struct LinkError {
    pub kind: LinkErrorKind,
    pub index: usize,
}

} // verus!
