//! What the source text means: how it falls into tokens, what each kind of
//! operand token stands for, and which instruction a run of tokens makes.

use crate::error::{ParseErrorKind, ParseErrorView};
use crate::instructions::{AssemblyView, Data, Operation, Register};
use vstd::prelude::*;

verus! {

/// The characters that separate tokens: those with the Unicode property
/// `White_Space`.
pub open spec fn blank(c: char) -> bool {
    let n = c as u32;
    (0x09 <= n <= 0x0D) || n == 0x20 || n == 0x85 || n == 0xA0 || n == 0x1680 || (0x2000 <= n
        <= 0x200A) || n == 0x2028 || n == 0x2029 || n == 0x202F || n == 0x205F || n == 0x3000
}

/// Where the next token starts: the first position at or after `p` that
/// holds no blank. It is at or behind the end where there is no such
/// position.
pub open spec fn token_start(s: Seq<char>, p: int) -> int
    decreases s.len() - p,
{
    if 0 <= p < s.len() && blank(s[p]) {
        token_start(s, p + 1)
    } else {
        p
    }
}

/// Where the token that starts at `p` ends: the first position at or after
/// `p` that holds a blank, or the end of the text.
pub open spec fn token_end(s: Seq<char>, p: int) -> int
    decreases s.len() - p,
{
    if 0 <= p < s.len() && !blank(s[p]) {
        token_end(s, p + 1)
    } else {
        p
    }
}

/// Where the cursor stands after one token has been asked for at `p`:
/// behind that token, or where the search for one ended.
pub open spec fn advance(s: Seq<char>, p: int) -> int {
    token_end(s, token_start(s, p))
}

/// Where the cursor stands after `k` tokens have been asked for, one after
/// the other, the first of them at `p`.
pub open spec fn cursor_after(s: Seq<char>, p: int, k: nat) -> int
    decreases k,
{
    if k == 0 {
        p
    } else {
        advance(s, cursor_after(s, p, (k - 1) as nat))
    }
}

/// The tokens of the text from position `p` on: its maximal runs of
/// characters that are not blank, in order.
pub open spec fn tokens_from(s: Seq<char>, p: int) -> Seq<Seq<char>>
    decreases s.len() - p,
    when 0 <= p
    via tokens_from_decreases
{
    let start = token_start(s, p);
    if start >= s.len() {
        Seq::empty()
    } else {
        seq![s.subrange(start, token_end(s, start))] + tokens_from(s, token_end(s, start))
    }
}

#[via_fn]
proof fn tokens_from_decreases(s: Seq<char>, p: int) {
    let start = token_start(s, p);
    if start < s.len() {
        lemma_token_start(s, p);
        lemma_token_end(s, start);
    }
}

/// The tokens of a whole text.
pub open spec fn tokens(s: Seq<char>) -> Seq<Seq<char>> {
    tokens_from(s, 0)
}

/// The start of the next token is not before `p`; nothing but blanks stands
/// between the two; and, where it is inside the text, it holds no blank.
pub proof fn lemma_token_start(s: Seq<char>, p: int)
    requires
        0 <= p,
    ensures
        p <= token_start(s, p),
        p <= s.len() ==> token_start(s, p) <= s.len(),
        forall|i: int| p <= i < token_start(s, p) ==> i < s.len() && blank(#[trigger] s[i]),
        token_start(s, p) < s.len() ==> !blank(s[token_start(s, p)]),
    decreases s.len() - p,
{
    if p < s.len() && blank(s[p]) {
        lemma_token_start(s, p + 1);
    }
}

/// The end of a token is not before its start; no blank stands between the
/// two; a token that starts on a character that is not blank is not empty;
/// and its end, where it is inside the text, holds a blank.
pub proof fn lemma_token_end(s: Seq<char>, p: int)
    requires
        0 <= p,
    ensures
        p <= token_end(s, p),
        p <= s.len() ==> token_end(s, p) <= s.len(),
        forall|i: int| p <= i < token_end(s, p) ==> i < s.len() && !blank(#[trigger] s[i]),
        p < s.len() && !blank(s[p]) ==> p < token_end(s, p),
        token_end(s, p) < s.len() ==> blank(s[token_end(s, p)]),
    decreases s.len() - p,
{
    if p < s.len() && !blank(s[p]) {
        lemma_token_end(s, p + 1);
    }
}

/// Asking for one token at `p` gives the first of the tokens from `p` on,
/// if there is one, and leaves the others to be asked for.
pub proof fn lemma_advance(s: Seq<char>, p: int)
    requires
        0 <= p,
    ensures
        p <= advance(s, p),
        tokens_from(s, p).len() == 0 <==> token_start(s, p) >= s.len(),
        tokens_from(s, p).len() > 0 ==> tokens_from(s, p)[0] == s.subrange(
            token_start(s, p),
            advance(s, p),
        ) && tokens_from(s, advance(s, p)) == tokens_from(s, p).skip(1),
        tokens_from(s, p).len() == 0 ==> advance(s, p) == if p <= s.len() {
            s.len() as int
        } else {
            p
        },
{
    let start = token_start(s, p);
    lemma_token_start(s, p);
    lemma_token_end(s, start);
    if start < s.len() {
        let rest = tokens_from(s, token_end(s, start));
        assert(tokens_from(s, p) == seq![s.subrange(start, token_end(s, start))] + rest);
        assert(tokens_from(s, p).skip(1) =~= rest);
    }
}

/// After `k` of the tokens from `p` on have been asked for, the others are
/// left, and the cursor has not left the text if it was in it.
pub proof fn lemma_cursor_after(s: Seq<char>, p: int, k: nat)
    requires
        0 <= p,
        k <= tokens_from(s, p).len(),
    ensures
        p <= cursor_after(s, p, k),
        p <= s.len() ==> cursor_after(s, p, k) <= s.len(),
        k > 0 ==> p < s.len(),
        tokens_from(s, cursor_after(s, p, k)) == tokens_from(s, p).skip(k as int),
    decreases k,
{
    if k == 0 {
        assert(tokens_from(s, p).skip(0) =~= tokens_from(s, p));
    } else {
        let before = cursor_after(s, p, (k - 1) as nat);
        lemma_cursor_after(s, p, (k - 1) as nat);
        lemma_advance(s, before);
        lemma_token_start(s, before);
        lemma_token_end(s, token_start(s, before));
        assert(tokens_from(s, p).skip(k - 1).skip(1) =~= tokens_from(s, p).skip(k as int));
    }
}

/// Asking for one token and then for `k` more is asking for `k + 1`.
pub proof fn lemma_cursor_after_first(s: Seq<char>, p: int, k: nat)
    ensures
        cursor_after(s, advance(s, p), k) == cursor_after(s, p, k + 1),
    decreases k,
{
    reveal_with_fuel(cursor_after, 2);
    if k > 0 {
        lemma_cursor_after_first(s, p, (k - 1) as nat);
    }
}

/// A token is a run of characters of which none is blank, and it is not
/// empty.
pub proof fn lemma_tokens_hold_no_blank(s: Seq<char>, p: int, k: int)
    requires
        0 <= p,
        0 <= k < tokens_from(s, p).len(),
    ensures
        tokens_from(s, p)[k].len() > 0,
        forall|i: int| 0 <= i < tokens_from(s, p)[k].len() ==> !blank(tokens_from(s, p)[k][i]),
    decreases k,
{
    let start = token_start(s, p);
    lemma_advance(s, p);
    lemma_token_start(s, p);
    lemma_token_end(s, start);
    if k > 0 {
        lemma_tokens_hold_no_blank(s, advance(s, p), k - 1);
    }
}

/// The token that names a register, and no other, stands for it.
pub open spec fn register_of(t: Seq<char>) -> Option<Register> {
    if t == "rv0"@ {
        Some(Register::V0)
    } else if t == "rv1"@ {
        Some(Register::V1)
    } else if t == "rv2"@ {
        Some(Register::V2)
    } else if t == "rv3"@ {
        Some(Register::V3)
    } else if t == "rv4"@ {
        Some(Register::V4)
    } else if t == "rv5"@ {
        Some(Register::V5)
    } else if t == "rv6"@ {
        Some(Register::V6)
    } else if t == "rv7"@ {
        Some(Register::V7)
    } else if t == "rv8"@ {
        Some(Register::V8)
    } else if t == "rv9"@ {
        Some(Register::V9)
    } else if t == "rva"@ {
        Some(Register::VA)
    } else if t == "rvb"@ {
        Some(Register::VB)
    } else if t == "rvc"@ {
        Some(Register::VC)
    } else if t == "rvd"@ {
        Some(Register::VD)
    } else if t == "rve"@ {
        Some(Register::VE)
    } else if t == "rvf"@ {
        Some(Register::VF)
    } else if t == "irg"@ {
        Some(Register::I)
    } else if t == "rdt"@ {
        Some(Register::Dt)
    } else if t == "rst"@ {
        Some(Register::St)
    } else {
        None
    }
}

/// One of the ten decimal digits.
pub open spec fn is_digit(c: char) -> bool {
    0x30 <= c as u32 <= 0x39
}

/// The value of a decimal digit.
pub open spec fn digit_value(c: char) -> nat {
    if is_digit(c) {
        (c as u32 - 0x30) as nat
    } else {
        0
    }
}

/// The number that a run of decimal digits writes.
pub open spec fn digits_value(s: Seq<char>) -> nat
    decreases s.len(),
{
    if s.len() == 0 {
        0
    } else {
        digits_value(s.drop_last()) * 10 + digit_value(s.last())
    }
}

/// The digits of a literal: the token without the `+` that may lead it.
pub open spec fn literal_digits(t: Seq<char>) -> Seq<char> {
    if t.len() > 0 && t[0] == '+' {
        t.skip(1)
    } else {
        t
    }
}

/// The unsigned 16-bit integer that a token writes: one or more decimal
/// digits, which a single `+` may lead, whose value fits sixteen bits.
pub open spec fn literal_of(t: Seq<char>) -> Option<u16> {
    let digits = literal_digits(t);
    if digits.len() > 0 && (forall|i: int| 0 <= i < digits.len() ==> is_digit(digits[i]))
        && digits_value(digits) <= u16::MAX {
        Some(digits_value(digits) as u16)
    } else {
        None
    }
}

/// The operand that a token stands for where a register or a literal is due:
/// a register if it names one, else a literal if it writes one.
pub open spec fn data_of(t: Seq<char>) -> Option<Data> {
    match register_of(t) {
        Some(r) => Some(Data::Reg(r)),
        None => match literal_of(t) {
            Some(n) => Some(Data::Int(n)),
            None => None,
        },
    }
}

/// A token that begins with `:` declares the label named by the rest of it.
pub open spec fn declares_label(t: Seq<char>) -> bool {
    t.len() > 0 && t[0] == ':'
}

/// A token that begins with `.` refers to the label named by the rest of it.
pub open spec fn refers_to_label(t: Seq<char>) -> bool {
    t.len() > 0 && t[0] == '.'
}

/// The error of the given kind about the token `t`.
pub open spec fn fault(kind: ParseErrorKind, t: Seq<char>) -> ParseErrorView {
    ParseErrorView { kind, token: t }
}

/// The error for an operand that is due where the source has ended.
pub open spec fn missing_operand() -> ParseErrorView {
    ParseErrorView { kind: ParseErrorKind::MissingOperand, token: Seq::empty() }
}

/// The register that the first of `rest` names.
pub open spec fn register_operand(rest: Seq<Seq<char>>) -> Result<Register, ParseErrorView> {
    if rest.len() == 0 {
        Err(missing_operand())
    } else {
        match register_of(rest[0]) {
            Some(r) => Ok(r),
            None => Err(fault(ParseErrorKind::InvalidRegister, rest[0])),
        }
    }
}

/// The register or literal that the first of `rest` stands for.
pub open spec fn data_operand(rest: Seq<Seq<char>>) -> Result<Data, ParseErrorView> {
    if rest.len() == 0 {
        Err(missing_operand())
    } else {
        match data_of(rest[0]) {
            Some(d) => Ok(d),
            None => Err(fault(ParseErrorKind::InvalidData, rest[0])),
        }
    }
}

/// The literal that the first of `rest` writes.
pub open spec fn literal_operand(rest: Seq<Seq<char>>) -> Result<u16, ParseErrorView> {
    if rest.len() == 0 {
        Err(missing_operand())
    } else {
        match literal_of(rest[0]) {
            Some(n) => Ok(n),
            None => Err(fault(ParseErrorKind::InvalidLiteral, rest[0])),
        }
    }
}

/// The byte that the first of `rest` writes: a literal of at most 255.
pub open spec fn byte_operand(rest: Seq<Seq<char>>) -> Result<u8, ParseErrorView> {
    match literal_operand(rest) {
        Ok(n) => if n <= u8::MAX {
            Ok(n as u8)
        } else {
            Err(fault(ParseErrorKind::LiteralOutOfRange, rest[0]))
        },
        Err(e) => Err(e),
    }
}

/// The name of the label that the first of `rest` refers to. Whether the
/// label is declared anywhere is not asked here.
pub open spec fn label_operand(rest: Seq<Seq<char>>) -> Result<Seq<char>, ParseErrorView> {
    if rest.len() == 0 {
        Err(missing_operand())
    } else if refers_to_label(rest[0]) {
        Ok(rest[0].skip(1))
    } else {
        Err(fault(ParseErrorKind::InvalidLabel, rest[0]))
    }
}

/// A register, then a register or literal.
pub open spec fn register_data(rest: Seq<Seq<char>>) -> Result<(Register, Data), ParseErrorView> {
    match register_operand(rest) {
        Err(e) => Err(e),
        Ok(r) => match data_operand(rest.skip(1)) {
            Err(e) => Err(e),
            Ok(d) => Ok((r, d)),
        },
    }
}

/// A register, then another.
pub open spec fn two_registers(rest: Seq<Seq<char>>) -> Result<
    (Register, Register),
    ParseErrorView,
> {
    match register_operand(rest) {
        Err(e) => Err(e),
        Ok(r1) => match register_operand(rest.skip(1)) {
            Err(e) => Err(e),
            Ok(r2) => Ok((r1, r2)),
        },
    }
}

/// Two registers, then a literal.
pub open spec fn two_registers_literal(rest: Seq<Seq<char>>) -> Result<
    (Register, Register, u16),
    ParseErrorView,
> {
    match two_registers(rest) {
        Err(e) => Err(e),
        Ok((r1, r2)) => match literal_operand(rest.skip(2)) {
            Err(e) => Err(e),
            Ok(n) => Ok((r1, r2, n)),
        },
    }
}

/// A register, then a byte.
pub open spec fn register_byte(rest: Seq<Seq<char>>) -> Result<(Register, u8), ParseErrorView> {
    match register_operand(rest) {
        Err(e) => Err(e),
        Ok(r) => match byte_operand(rest.skip(1)) {
            Err(e) => Err(e),
            Ok(b) => Ok((r, b)),
        },
    }
}

/// The operation that the mnemonic `t` makes of the tokens that follow it,
/// and the number of them that it takes as operands; or the error of the
/// first token that does not fit.
pub open spec fn instruction(t: Seq<char>, rest: Seq<Seq<char>>) -> Result<
    (Operation<Seq<char>>, nat),
    ParseErrorView,
> {
    if t == "mov"@ {
        match register_data(rest) {
            Ok((r, d)) => Ok((Operation::Move(r, d), 2)),
            Err(e) => Err(e),
        }
    } else if t == "draw"@ {
        match two_registers_literal(rest) {
            Ok((r1, r2, n)) => Ok((Operation::Draw(r1, r2, n), 3)),
            Err(e) => Err(e),
        }
    } else if t == "jump"@ {
        match label_operand(rest) {
            Ok(l) => Ok((Operation::Jump(l), 1)),
            Err(e) => Err(e),
        }
    } else if t == "add"@ {
        match register_data(rest) {
            Ok((r, d)) => Ok((Operation::Add(r, d), 2)),
            Err(e) => Err(e),
        }
    } else if t == "se"@ {
        match register_data(rest) {
            Ok((r, d)) => Ok((Operation::SkipIfEqual(r, d), 2)),
            Err(e) => Err(e),
        }
    } else if t == "clr"@ {
        Ok((Operation::ClearScreen, 0))
    } else if t == "ldfadr"@ {
        match register_operand(rest) {
            Ok(r) => Ok((Operation::LoadFontAddress(r), 1)),
            Err(e) => Err(e),
        }
    } else if t == "call"@ {
        match label_operand(rest) {
            Ok(l) => Ok((Operation::Call(l), 1)),
            Err(e) => Err(e),
        }
    } else if t == "getrand"@ {
        match register_byte(rest) {
            Ok((r, b)) => Ok((Operation::Rand(r, b), 2)),
            Err(e) => Err(e),
        }
    } else if t == "sknp"@ {
        match register_operand(rest) {
            Ok(r) => Ok((Operation::SkipIfKeyNotPress(r), 1)),
            Err(e) => Err(e),
        }
    } else if t == "and"@ {
        match two_registers(rest) {
            Ok((r1, r2)) => Ok((Operation::And(r1, r2), 2)),
            Err(e) => Err(e),
        }
    } else if t == "sne"@ {
        match register_data(rest) {
            Ok((r, d)) => Ok((Operation::SkipIfNotEqual(r, d), 2)),
            Err(e) => Err(e),
        }
    } else if t == "sub"@ {
        match two_registers(rest) {
            Ok((r1, r2)) => Ok((Operation::Sub(r1, r2), 2)),
            Err(e) => Err(e),
        }
    } else if t == "bcd"@ {
        match register_operand(rest) {
            Ok(r) => Ok((Operation::Bcd(r), 1)),
            Err(e) => Err(e),
        }
    } else if t == "store"@ {
        match register_operand(rest) {
            Ok(r) => Ok((Operation::Store(r), 1)),
            Err(e) => Err(e),
        }
    } else if t == "ret"@ {
        Ok((Operation::Return, 0))
    } else {
        Err(fault(ParseErrorKind::UnknownInstruction, t))
    }
}

/// An instruction takes no more operands than there are tokens.
pub proof fn lemma_instruction_operands(t: Seq<char>, rest: Seq<Seq<char>>)
    requires
        instruction(t, rest) is Ok,
    ensures
        instruction(t, rest)->Ok_0.1 <= rest.len(),
{
}

/// What the tokens at the head of `toks` make: a label declaration or an
/// instruction with its operands, together with the number of tokens it is
/// made of; or the error of the first token that does not fit.
pub open spec fn parse_one(toks: Seq<Seq<char>>) -> Result<(AssemblyView, nat), ParseErrorView>
    recommends
        toks.len() > 0,
{
    if declares_label(toks[0]) {
        Ok((AssemblyView::Label(toks[0].skip(1)), 1))
    } else {
        match instruction(toks[0], toks.skip(1)) {
            Ok((op, operands)) => Ok((AssemblyView::Instruction(op), operands + 1)),
            Err(e) => Err(e),
        }
    }
}

/// What is made of one token or more is made of no more tokens than there
/// are.
pub proof fn lemma_parse_one_width(toks: Seq<Seq<char>>)
    requires
        toks.len() > 0,
        parse_one(toks) is Ok,
    ensures
        1 <= parse_one(toks)->Ok_0.1 <= toks.len(),
{
    if !declares_label(toks[0]) {
        lemma_instruction_operands(toks[0], toks.skip(1));
    }
}

/// The program that a run of tokens makes: instruction after instruction,
/// each with the operands it needs, and the label declarations between
/// them; or the first error.
pub open spec fn parse_tokens(toks: Seq<Seq<char>>) -> Result<Seq<AssemblyView>, ParseErrorView>
    decreases toks.len(),
    via parse_tokens_decreases
{
    if toks.len() == 0 {
        Ok(Seq::empty())
    } else {
        match parse_one(toks) {
            Err(e) => Err(e),
            Ok((first, width)) => match parse_tokens(toks.skip(width as int)) {
                Err(e) => Err(e),
                Ok(others) => Ok(seq![first] + others),
            },
        }
    }
}

#[via_fn]
proof fn parse_tokens_decreases(toks: Seq<Seq<char>>) {
    if toks.len() > 0 && parse_one(toks) is Ok {
        lemma_parse_one_width(toks);
    }
}

/// The program that a source text makes.
pub open spec fn parsed(source: Seq<char>) -> Result<Seq<AssemblyView>, ParseErrorView> {
    parse_tokens(tokens(source))
}

} // verus!
