//! The tokenizer and the parser: from source text to the ordered list of
//! instructions and label declarations.

use crate::error::{ParseError, ParseErrorKind, ParseErrorView};
use crate::instructions::{
    program_view, Assembly, AssemblyView, Data, Operation, Ops, Register,
};
use crate::syntax::{
    advance, blank, byte_operand, cursor_after, data_operand, digits_value, instruction, is_digit,
    label_operand, lemma_advance, lemma_cursor_after, lemma_cursor_after_first,
    lemma_parse_one_width, lemma_token_end, literal_digits, literal_of, literal_operand,
    missing_operand, parse_one, parse_tokens, register_byte, register_data, register_of,
    register_operand, token_end, token_start, tokens_from, two_registers, two_registers_literal,
};
use vstd::prelude::*;

verus! {

/// A parser over one source text. It holds the text, a cursor into it that
/// only moves forward as tokens are taken, and the program parsed so far.
#[derive(Debug)]
pub struct Parser {
    data: String,
    p: usize,
    pub ops: Vec<Assembly>,
}

/// Whether the character separates tokens.
pub fn is_blank(c: char) -> (b: bool)
    ensures
        b == blank(c),
{
    let n: u32 = c as u32;
    (0x09 <= n && n <= 0x0D) || n == 0x20 || n == 0x85 || n == 0xA0 || n == 0x1680 || (0x2000 <= n
        && n <= 0x200A) || n == 0x2028 || n == 0x2029 || n == 0x202F || n == 0x205F || n == 0x3000
}

/// Whether two texts are the same, character by character.
fn text_eq(a: &str, b: &str) -> (same: bool)
    ensures
        same == (a@ == b@),
{
    let n = a.unicode_len();
    if n != b.unicode_len() {
        return false;
    }
    let mut i: usize = 0;
    while i < n
        invariant
            i <= n,
            n == a@.len(),
            n == b@.len(),
            a@.take(i as int) == b@.take(i as int),
        decreases n - i,
    {
        if a.get_char(i) != b.get_char(i) {
            return false;
        }
        i += 1;
        assert(a@.take(i as int) =~= a@.take(i - 1).push(a@[i - 1]));
        assert(b@.take(i as int) =~= b@.take(i - 1).push(b@[i - 1]));
    }
    assert(a@ =~= a@.take(n as int));
    assert(b@ =~= b@.take(n as int));
    true
}

impl Parser {
    /// The source text.
    pub closed spec fn source(&self) -> Seq<char> {
        self.data@
    }

    /// The position in the source text, counted in characters, from which
    /// the next token is looked for.
    pub closed spec fn cursor(&self) -> int {
        self.p as int
    }

    /// The program parsed so far: what the field `ops` holds.
    pub closed spec fn items(&self) -> Seq<Assembly> {
        self.ops@
    }

    /// A parser at the start of `odata`, with nothing parsed yet.
    pub fn new(odata: String) -> (parser: Self)
        ensures
            parser.source() == odata@,
            parser.cursor() == 0,
            parser.items() == Seq::<Assembly>::empty(),
    {
        Self { data: odata, p: 0, ops: Vec::new() }
    }

    /// The next token: the next maximal run of characters that are not
    /// blank, at or after the cursor. The cursor moves behind it. Where
    /// nothing but blanks is left there is no token, and the cursor moves to
    /// the end of the text.
    pub fn get_next_token(&mut self) -> (token: Option<String>)
        ensures
            final(self).source() == old(self).source(),
            final(self).items() == old(self).items(),
            final(self).cursor() == advance(old(self).source(), old(self).cursor()),
            ({
                let text = old(self).source();
                let start = token_start(text, old(self).cursor());
                match token {
                    Some(t) => start < text.len() && t@ == text.subrange(
                        start,
                        token_end(text, start),
                    ),
                    None => start >= text.len(),
                }
            }),
    {
        let text = self.data.as_str();
        let n = text.unicode_len();
        let mut p = self.p;
        while p < n && is_blank(text.get_char(p))
            invariant
                n == text@.len(),
                token_start(text@, p as int) == token_start(text@, self.p as int),
            decreases n - p,
        {
            p += 1;
        }
        let start = p;
        while p < n && !is_blank(text.get_char(p))
            invariant
                n == text@.len(),
                token_end(text@, p as int) == token_end(text@, start as int),
            decreases n - p,
        {
            p += 1;
        }
        let end = p;
        proof {
            lemma_token_end(text@, start as int);
        }
        if start >= n {
            self.p = end;
            return None;
        }
        let token = String::from_str(text.substring_char(start, end));
        self.p = end;
        Some(token)
    }

    /// Parses the rest of the source text, from the cursor on, and adds what
    /// it makes to the program: instruction after instruction, each with the
    /// operands it needs, and the label declarations between them. The
    /// cursor is then at the end of the text. Where a token does not fit,
    /// the error is about the first such token, nothing is added, and the
    /// cursor stays where it was.
    pub fn load_instructions(&mut self) -> (done: Result<(), ParseError>)
        ensures
            final(self).source() == old(self).source(),
            match done {
                Ok(()) => {
                    let made = parse_tokens(tokens_from(old(self).source(), old(self).cursor()));
                    &&& made is Ok
                    &&& program_view(final(self).items()) == program_view(old(self).items())
                        + made->Ok_0
                    &&& final(self).items().take(old(self).items().len() as int) == old(
                        self
                    ).items()
                    &&& final(self).cursor() == if old(self).cursor() <= old(self).source().len() {
                        old(self).source().len() as int
                    } else {
                        old(self).cursor()
                    }
                },
                Err(e) => {
                    &&& parse_tokens(tokens_from(old(self).source(), old(self).cursor())) == Err::<
                        Seq<AssemblyView>,
                        ParseErrorView,
                    >(e@)
                    &&& final(self).items() == old(self).items()
                    &&& final(self).cursor() == old(self).cursor()
                },
            },
    {
        let start = self.p;
        let ghost src = self.source();
        let ghost all = tokens_from(src, start as int);
        let mut found: Vec<Assembly> = Vec::new();
        proof {
            assert(program_view(found@) + parse_tokens(all)->Ok_0 =~= parse_tokens(all)->Ok_0);
        }
        loop
            invariant_except_break
                start <= self.cursor(),
                start <= src.len() ==> self.cursor() <= src.len(),
                start < self.cursor() ==> start < src.len(),
                parse_tokens(all) == match parse_tokens(tokens_from(src, self.cursor())) {
                    Ok(others) => Ok::<Seq<AssemblyView>, ParseErrorView>(
                        program_view(found@) + others,
                    ),
                    Err(e) => Err::<Seq<AssemblyView>, ParseErrorView>(e),
                },
            invariant
                src == old(self).source(),
                self.source() == src,
                self.items() == old(self).items(),
                start == old(self).cursor(),
                all == tokens_from(src, start as int),
            ensures
                parse_tokens(all) == Ok::<Seq<AssemblyView>, ParseErrorView>(program_view(found@)),
                self.cursor() == if start <= src.len() {
                    src.len() as int
                } else {
                    start as int
                },
            decreases tokens_from(src, self.cursor()).len(),
        {
            let ghost here = self.cursor();
            let ghost toks = tokens_from(src, here);
            proof {
                lemma_advance(src, here);
                if toks.len() > 0 && parse_one(toks) is Ok {
                    lemma_parse_one_width(toks);
                    lemma_cursor_after(src, here, parse_one(toks)->Ok_0.1);
                }
            }
            match self.get_instrution() {
                Ok(Some(instruction)) => {
                    proof {
                        let others = parse_tokens(tokens_from(src, self.cursor()));
                        if others is Ok {
                            assert(program_view(found@.push(instruction)) + others->Ok_0
                                =~= program_view(found@) + (seq![instruction@] + others->Ok_0));
                        }
                    }
                    found.push(instruction);
                },
                Ok(None) => {
                    proof {
                        assert(program_view(found@) + Seq::<AssemblyView>::empty()
                            =~= program_view(found@));
                    }
                    break ;
                },
                Err(e) => {
                    self.p = start;
                    return Err(e);
                },
            }
        }
        proof {
            assert(program_view(self.ops@ + found@) =~= program_view(self.ops@) + program_view(
                found@,
            ));
            assert((self.ops@ + found@).take(self.ops@.len() as int) =~= self.ops@);
        }
        self.ops.append(&mut found);
        Ok(())
    }

    /// The program parsed so far, taken out of the parser.
    pub fn into_ops(self) -> (ops: Vec<Assembly>)
        ensures
            ops@ == self.items(),
    {
        self.ops
    }

    /// The next instruction or label declaration: its first token and the
    /// operands that the token asks for. There is none where nothing but
    /// blanks is left. Where a token does not fit, the error is about that
    /// token, and the cursor stays where it was.
    fn get_instrution(&mut self) -> (made: Result<Option<Assembly>, ParseError>)
        ensures
            final(self).source() == old(self).source(),
            final(self).items() == old(self).items(),
            match made {
                Ok(None) => tokens_from(old(self).source(), old(self).cursor()).len() == 0
                    && final(self).cursor() == advance(old(self).source(), old(self).cursor()),
                Ok(Some(a)) => {
                    let toks = tokens_from(old(self).source(), old(self).cursor());
                    &&& toks.len() > 0
                    &&& parse_one(toks) is Ok
                    &&& parse_one(toks)->Ok_0.0 == a@
                    &&& final(self).cursor() == cursor_after(
                        old(self).source(),
                        old(self).cursor(),
                        parse_one(toks)->Ok_0.1,
                    )
                },
                Err(e) => {
                    let toks = tokens_from(old(self).source(), old(self).cursor());
                    &&& toks.len() > 0
                    &&& parse_one(toks) == Err::<(AssemblyView, nat), ParseErrorView>(e@)
                    &&& final(self).cursor() == old(self).cursor()
                },
            },
    {
        let start = self.p;
        let ghost src = self.source();
        proof {
            lemma_advance(src, start as int);
            reveal_with_fuel(cursor_after, 2);
        }
        let token = match self.get_next_token() {
            Some(tok) => tok,
            None => { return Ok(None); },
        };
        let text = token.as_str();
        let n = text.unicode_len();
        if n > 0 && text.get_char(0) == ':' {
            return Ok(Some(Assembly::Label(String::from_str(text.substring_char(1, n)))));
        }
        match self.get_operation(text) {
            Ok(op) => {
                proof {
                    let operands = instruction(
                        text@,
                        tokens_from(src, start as int).skip(1),
                    )->Ok_0.1;
                    lemma_cursor_after_first(src, start as int, operands);
                }
                Ok(Some(Assembly::Instruction(op)))
            },
            Err(e) => {
                self.p = start;
                Err(e)
            },
        }
    }

    /// The operation that a mnemonic makes of the tokens that follow it.
    /// Where one of them does not fit, the cursor stays where it was.
    fn get_operation(&mut self, mnemonic: &str) -> (made: Result<Ops, ParseError>)
        ensures
            final(self).source() == old(self).source(),
            final(self).items() == old(self).items(),
            match made {
                Ok(op) => {
                    let rest = tokens_from(old(self).source(), old(self).cursor());
                    &&& instruction(mnemonic@, rest) is Ok
                    &&& instruction(mnemonic@, rest)->Ok_0.0 == op@
                    &&& final(self).cursor() == cursor_after(
                        old(self).source(),
                        old(self).cursor(),
                        instruction(mnemonic@, rest)->Ok_0.1,
                    )
                },
                Err(e) => instruction(
                    mnemonic@,
                    tokens_from(old(self).source(), old(self).cursor()),
                ) == Err::<(Operation<Seq<char>>, nat), ParseErrorView>(e@) && final(self).cursor()
                    == old(self).cursor(),
            },
    {
        proof {
            reveal_with_fuel(cursor_after, 2);
        }
        let start = self.p;
        let made = if text_eq(mnemonic, "mov") {
            match self.get_register_data() {
                Ok((r, d)) => Ok(Ops::Move(r, d)),
                Err(e) => Err(e),
            }
        } else if text_eq(mnemonic, "draw") {
            match self.get_two_registers_literal() {
                Ok((r1, r2, l)) => Ok(Ops::Draw(r1, r2, l)),
                Err(e) => Err(e),
            }
        } else if text_eq(mnemonic, "jump") {
            match self.get_label() {
                Ok(l) => Ok(Ops::Jump(l)),
                Err(e) => Err(e),
            }
        } else if text_eq(mnemonic, "add") {
            match self.get_register_data() {
                Ok((r, d)) => Ok(Ops::Add(r, d)),
                Err(e) => Err(e),
            }
        } else if text_eq(mnemonic, "se") {
            match self.get_register_data() {
                Ok((r, d)) => Ok(Ops::SkipIfEqual(r, d)),
                Err(e) => Err(e),
            }
        } else if text_eq(mnemonic, "clr") {
            Ok(Ops::ClearScreen)
        } else if text_eq(mnemonic, "ldfadr") {
            match self.get_register() {
                Ok(r) => Ok(Ops::LoadFontAddress(r)),
                Err(e) => Err(e),
            }
        } else if text_eq(mnemonic, "call") {
            match self.get_label() {
                Ok(l) => Ok(Ops::Call(l)),
                Err(e) => Err(e),
            }
        } else if text_eq(mnemonic, "getrand") {
            match self.get_register_byte() {
                Ok((r, b)) => Ok(Ops::Rand(r, b)),
                Err(e) => Err(e),
            }
        } else if text_eq(mnemonic, "sknp") {
            match self.get_register() {
                Ok(r) => Ok(Ops::SkipIfKeyNotPress(r)),
                Err(e) => Err(e),
            }
        } else if text_eq(mnemonic, "and") {
            match self.get_two_registers() {
                Ok((r1, r2)) => Ok(Ops::And(r1, r2)),
                Err(e) => Err(e),
            }
        } else if text_eq(mnemonic, "sne") {
            match self.get_register_data() {
                Ok((r, d)) => Ok(Ops::SkipIfNotEqual(r, d)),
                Err(e) => Err(e),
            }
        } else if text_eq(mnemonic, "sub") {
            match self.get_two_registers() {
                Ok((r1, r2)) => Ok(Ops::Sub(r1, r2)),
                Err(e) => Err(e),
            }
        } else if text_eq(mnemonic, "bcd") {
            match self.get_register() {
                Ok(r) => Ok(Ops::Bcd(r)),
                Err(e) => Err(e),
            }
        } else if text_eq(mnemonic, "store") {
            match self.get_register() {
                Ok(r) => Ok(Ops::Store(r)),
                Err(e) => Err(e),
            }
        } else if text_eq(mnemonic, "ret") {
            Ok(Ops::Return)
        } else {
            Err(
                ParseError {
                    kind: ParseErrorKind::UnknownInstruction,
                    token: String::from_str(mnemonic),
                },
            )
        };
        if made.is_err() {
            self.p = start;
        }
        made
    }

    /// The registers that the next two tokens name, and the literal that the
    /// token after them writes.
    fn get_two_registers_literal(&mut self) -> (made: Result<(Register, Register, u16), ParseError>)
        ensures
            final(self).source() == old(self).source(),
            final(self).items() == old(self).items(),
            final(self).cursor() == cursor_after(
                old(self).source(),
                old(self).cursor(),
                if two_registers(tokens_from(old(self).source(), old(self).cursor())) is Ok {
                    3nat
                } else if register_operand(tokens_from(old(self).source(), old(self).cursor()))
                    is Ok {
                    2nat
                } else {
                    1nat
                },
            ),
            match made {
                Ok(found) => two_registers_literal(
                    tokens_from(old(self).source(), old(self).cursor()),
                ) == Ok::<(Register, Register, u16), ParseErrorView>(found),
                Err(e) => two_registers_literal(
                    tokens_from(old(self).source(), old(self).cursor()),
                ) == Err::<(Register, Register, u16), ParseErrorView>(e@),
            },
    {
        let ghost src = self.source();
        let ghost start = self.cursor();
        proof {
            reveal_with_fuel(cursor_after, 2);
        }
        let (r1, r2) = match self.get_two_registers() {
            Ok(rs) => rs,
            Err(e) => { return Err(e); },
        };
        proof {
            lemma_cursor_after(src, start, 2);
        }
        let l = match self.get_literal() {
            Ok(l) => l,
            Err(e) => { return Err(e); },
        };
        Ok((r1, r2, l))
    }

    /// The register that the next token names, and the byte that the token
    /// after it writes.
    fn get_register_byte(&mut self) -> (made: Result<(Register, u8), ParseError>)
        ensures
            final(self).source() == old(self).source(),
            final(self).items() == old(self).items(),
            final(self).cursor() == cursor_after(
                old(self).source(),
                old(self).cursor(),
                if register_operand(tokens_from(old(self).source(), old(self).cursor())) is Ok {
                    2nat
                } else {
                    1nat
                },
            ),
            match made {
                Ok(found) => register_byte(tokens_from(old(self).source(), old(self).cursor()))
                    == Ok::<(Register, u8), ParseErrorView>(found),
                Err(e) => register_byte(tokens_from(old(self).source(), old(self).cursor()))
                    == Err::<(Register, u8), ParseErrorView>(e@),
            },
    {
        proof {
            lemma_advance(self.source(), self.cursor());
            reveal_with_fuel(cursor_after, 3);
        }
        let r = match self.get_register() {
            Ok(r) => r,
            Err(e) => { return Err(e); },
        };
        let b = match self.get_byte() {
            Ok(b) => b,
            Err(e) => { return Err(e); },
        };
        Ok((r, b))
    }

    /// The registers that the next two tokens name.
    fn get_two_registers(&mut self) -> (pair: Result<(Register, Register), ParseError>)
        ensures
            final(self).source() == old(self).source(),
            final(self).items() == old(self).items(),
            final(self).cursor() == cursor_after(
                old(self).source(),
                old(self).cursor(),
                if register_operand(tokens_from(old(self).source(), old(self).cursor())) is Ok {
                    2nat
                } else {
                    1nat
                },
            ),
            match pair {
                Ok(rs) => two_registers(tokens_from(old(self).source(), old(self).cursor()))
                    == Ok::<(Register, Register), ParseErrorView>(rs),
                Err(e) => two_registers(tokens_from(old(self).source(), old(self).cursor()))
                    == Err::<(Register, Register), ParseErrorView>(e@),
            },
    {
        proof {
            lemma_advance(self.source(), self.cursor());
            reveal_with_fuel(cursor_after, 3);
        }
        let r1 = match self.get_register() {
            Ok(r) => r,
            Err(e) => { return Err(e); },
        };
        let r2 = match self.get_register() {
            Ok(r) => r,
            Err(e) => { return Err(e); },
        };
        Ok((r1, r2))
    }

    /// The register that the next token names, and the register or literal
    /// that the token after it stands for.
    fn get_register_data(&mut self) -> (pair: Result<(Register, Data), ParseError>)
        ensures
            final(self).source() == old(self).source(),
            final(self).items() == old(self).items(),
            final(self).cursor() == cursor_after(
                old(self).source(),
                old(self).cursor(),
                if register_operand(tokens_from(old(self).source(), old(self).cursor())) is Ok {
                    2nat
                } else {
                    1nat
                },
            ),
            match pair {
                Ok(rd) => register_data(tokens_from(old(self).source(), old(self).cursor()))
                    == Ok::<(Register, Data), ParseErrorView>(rd),
                Err(e) => register_data(tokens_from(old(self).source(), old(self).cursor()))
                    == Err::<(Register, Data), ParseErrorView>(e@),
            },
    {
        proof {
            lemma_advance(self.source(), self.cursor());
            reveal_with_fuel(cursor_after, 3);
        }
        let r = match self.get_register() {
            Ok(r) => r,
            Err(e) => { return Err(e); },
        };
        let d = match self.get_data() {
            Ok(d) => d,
            Err(e) => { return Err(e); },
        };
        Ok((r, d))
    }

    /// The byte that the next token writes.
    fn get_byte(&mut self) -> (byte: Result<u8, ParseError>)
        ensures
            final(self).source() == old(self).source(),
            final(self).items() == old(self).items(),
            final(self).cursor() == advance(old(self).source(), old(self).cursor()),
            match byte {
                Ok(b) => byte_operand(tokens_from(old(self).source(), old(self).cursor()))
                    == Ok::<u8, ParseErrorView>(b),
                Err(e) => byte_operand(tokens_from(old(self).source(), old(self).cursor()))
                    == Err::<u8, ParseErrorView>(e@),
            },
    {
        proof {
            lemma_advance(self.source(), self.cursor());
        }
        let token = match self.get_next_token() {
            None => { return Err(Self::missing()); },
            Some(token) => token,
        };
        match self.to_literal(token.as_str()) {
            Some(n) => if n <= 0xFF {
                Ok(n as u8)
            } else {
                Err(ParseError { kind: ParseErrorKind::LiteralOutOfRange, token })
            },
            None => Err(ParseError { kind: ParseErrorKind::InvalidLiteral, token }),
        }
    }

    /// The name of the label that the next token refers to.
    fn get_label(&mut self) -> (label: Result<String, ParseError>)
        ensures
            final(self).source() == old(self).source(),
            final(self).items() == old(self).items(),
            final(self).cursor() == advance(old(self).source(), old(self).cursor()),
            match label {
                Ok(l) => label_operand(tokens_from(old(self).source(), old(self).cursor()))
                    == Ok::<Seq<char>, ParseErrorView>(l@),
                Err(e) => label_operand(tokens_from(old(self).source(), old(self).cursor()))
                    == Err::<Seq<char>, ParseErrorView>(e@),
            },
    {
        proof {
            lemma_advance(self.source(), self.cursor());
        }
        match self.get_next_token() {
            None => Err(Self::missing()),
            Some(token) => {
                let text = token.as_str();
                let n = text.unicode_len();
                if n > 0 && text.get_char(0) == '.' {
                    Ok(String::from_str(text.substring_char(1, n)))
                } else {
                    Err(ParseError { kind: ParseErrorKind::InvalidLabel, token })
                }
            },
        }
    }

    /// The error for an operand that is due where the source has ended.
    fn missing() -> (e: ParseError)
        ensures
            e@ == missing_operand(),
    {
        ParseError { kind: ParseErrorKind::MissingOperand, token: String::new() }
    }

    /// The register that a token names, if it names one.
    fn to_register(&self, token: &str) -> (register: Option<Register>)
        ensures
            register == register_of(token@),
    {
        if text_eq(token, "rv0") {
            Some(Register::V0)
        } else if text_eq(token, "rv1") {
            Some(Register::V1)
        } else if text_eq(token, "rv2") {
            Some(Register::V2)
        } else if text_eq(token, "rv3") {
            Some(Register::V3)
        } else if text_eq(token, "rv4") {
            Some(Register::V4)
        } else if text_eq(token, "rv5") {
            Some(Register::V5)
        } else if text_eq(token, "rv6") {
            Some(Register::V6)
        } else if text_eq(token, "rv7") {
            Some(Register::V7)
        } else if text_eq(token, "rv8") {
            Some(Register::V8)
        } else if text_eq(token, "rv9") {
            Some(Register::V9)
        } else if text_eq(token, "rva") {
            Some(Register::VA)
        } else if text_eq(token, "rvb") {
            Some(Register::VB)
        } else if text_eq(token, "rvc") {
            Some(Register::VC)
        } else if text_eq(token, "rvd") {
            Some(Register::VD)
        } else if text_eq(token, "rve") {
            Some(Register::VE)
        } else if text_eq(token, "rvf") {
            Some(Register::VF)
        } else if text_eq(token, "irg") {
            Some(Register::I)
        } else if text_eq(token, "rdt") {
            Some(Register::Dt)
        } else if text_eq(token, "rst") {
            Some(Register::St)
        } else {
            None
        }
    }

    /// The unsigned 16-bit integer that a token writes in decimal digits, if
    /// it writes one.
    fn to_literal(&self, token: &str) -> (literal: Option<u16>)
        ensures
            literal == literal_of(token@),
    {
        let n = token.unicode_len();
        let first: usize = if n > 0 && token.get_char(0) == '+' {
            1
        } else {
            0
        };
        let ghost digits = literal_digits(token@);
        if first >= n {
            return None;
        }
        let mut value: u32 = 0;
        let mut i: usize = first;
        while i < n
            invariant
                first <= i <= n,
                n == token@.len(),
                digits == literal_digits(token@),
                digits == token@.skip(first as int),
                forall|k: int| 0 <= k < i - first ==> is_digit(digits[k]),
                value == digits_value(digits.take(i - first)),
                value <= u16::MAX,
            decreases n - i,
        {
            let c = token.get_char(i);
            let code: u32 = c as u32;
            if !(0x30 <= code && code <= 0x39) {
                assert(!is_digit(digits[i - first]));
                return None;
            }
            proof {
                assert(digits.take(i + 1 - first).drop_last() == digits.take(i - first));
                assert(digits.take(i + 1 - first).last() == c);
            }
            value = value * 10 + (code - 0x30);
            if value > 0xFFFF {
                proof {
                    lemma_digits_value_grows(digits, i + 1 - first);
                }
                return None;
            }
            i += 1;
        }
        assert(digits.take(i - first) == digits);
        Some(value as u16)
    }

    /// The register or literal that the next token stands for.
    fn get_data(&mut self) -> (data: Result<Data, ParseError>)
        ensures
            final(self).source() == old(self).source(),
            final(self).items() == old(self).items(),
            final(self).cursor() == advance(old(self).source(), old(self).cursor()),
            match data {
                Ok(d) => data_operand(tokens_from(old(self).source(), old(self).cursor()))
                    == Ok::<Data, ParseErrorView>(d),
                Err(e) => data_operand(tokens_from(old(self).source(), old(self).cursor()))
                    == Err::<Data, ParseErrorView>(e@),
            },
    {
        proof {
            lemma_advance(self.source(), self.cursor());
        }
        let token = match self.get_next_token() {
            None => { return Err(Self::missing()); },
            Some(token) => token,
        };
        if let Some(reg) = self.to_register(token.as_str()) {
            return Ok(Data::Reg(reg));
        }
        if let Some(literal) = self.to_literal(token.as_str()) {
            return Ok(Data::Int(literal));
        }
        Err(ParseError { kind: ParseErrorKind::InvalidData, token })
    }

    /// The register that the next token names.
    fn get_register(&mut self) -> (register: Result<Register, ParseError>)
        ensures
            final(self).source() == old(self).source(),
            final(self).items() == old(self).items(),
            final(self).cursor() == advance(old(self).source(), old(self).cursor()),
            match register {
                Ok(r) => register_operand(tokens_from(old(self).source(), old(self).cursor()))
                    == Ok::<Register, ParseErrorView>(r),
                Err(e) => register_operand(tokens_from(old(self).source(), old(self).cursor()))
                    == Err::<Register, ParseErrorView>(e@),
            },
    {
        proof {
            lemma_advance(self.source(), self.cursor());
        }
        let token = match self.get_next_token() {
            None => { return Err(Self::missing()); },
            Some(token) => token,
        };
        match self.to_register(token.as_str()) {
            Some(reg) => Ok(reg),
            None => Err(ParseError { kind: ParseErrorKind::InvalidRegister, token }),
        }
    }

    /// The literal that the next token writes.
    fn get_literal(&mut self) -> (literal: Result<u16, ParseError>)
        ensures
            final(self).source() == old(self).source(),
            final(self).items() == old(self).items(),
            final(self).cursor() == advance(old(self).source(), old(self).cursor()),
            match literal {
                Ok(n) => literal_operand(tokens_from(old(self).source(), old(self).cursor()))
                    == Ok::<u16, ParseErrorView>(n),
                Err(e) => literal_operand(tokens_from(old(self).source(), old(self).cursor()))
                    == Err::<u16, ParseErrorView>(e@),
            },
    {
        proof {
            lemma_advance(self.source(), self.cursor());
        }
        let token = match self.get_next_token() {
            None => { return Err(Self::missing()); },
            Some(token) => token,
        };
        match self.to_literal(token.as_str()) {
            Some(n) => Ok(n),
            None => Err(ParseError { kind: ParseErrorKind::InvalidLiteral, token }),
        }
    }
}

/// A run of digits writes a number no smaller than any of its beginnings
/// does.
proof fn lemma_digits_value_grows(s: Seq<char>, k: int)
    requires
        0 <= k <= s.len(),
    ensures
        digits_value(s.take(k)) <= digits_value(s),
    decreases s.len(),
{
    if k < s.len() {
        assert(s.drop_last().take(k) == s.take(k));
        lemma_digits_value_grows(s.drop_last(), k);
    } else {
        assert(s.take(k) == s);
    }
}

} // verus!
