//! The whole run: from source text to the bytes of the program.

use crate::error::{LinkError, ParseError, ParseErrorView};
use crate::instructions::program_view;
use crate::linker::Linker;
use crate::parser::Parser;
use crate::program::linked;
use crate::syntax::{parsed, tokens};
use vstd::prelude::*;

verus! {

/// Why a source text could not be assembled: it does not parse, or what it
/// parses to does not link.
#[derive(Clone, Debug, PartialEq, Eq)]
pub enum AssembleError {
    Parse(ParseError),
    Link(LinkError),
}

/// What [`AssembleError`] stands for in contracts.
pub enum AssembleErrorView {
    Parse(ParseErrorView),
    Link(LinkError),
}

impl View for AssembleError {
    type V = AssembleErrorView;

    open spec fn view(&self) -> AssembleErrorView {
        match *self {
            AssembleError::Parse(e) => AssembleErrorView::Parse(e@),
            AssembleError::Link(e) => AssembleErrorView::Link(e),
        }
    }
}

/// The bytes that a source text is assembled into, or the first error: the
/// text is parsed, and what it makes is linked.
pub open spec fn assembled(source: Seq<char>) -> Result<Seq<u8>, AssembleErrorView> {
    match parsed(source) {
        Err(e) => Err(AssembleErrorView::Parse(e)),
        Ok(prog) => match linked(prog) {
            Err(e) => Err(AssembleErrorView::Link(e)),
            Ok(bytes) => Ok(bytes),
        },
    }
}

/// Assembles a source text: parses it, gives every label its address, packs
/// every instruction into its opcode, and writes the opcodes out high byte
/// first. Any error ends the run, and then there are no bytes at all.
pub fn assemble(source: String) -> (rom: Result<Vec<u8>, AssembleError>)
    ensures
        match rom {
            Ok(bytes) => assembled(source@) == Ok::<Seq<u8>, AssembleErrorView>(bytes@),
            Err(e) => assembled(source@) == Err::<Seq<u8>, AssembleErrorView>(e@),
        },
{
    let mut parser = Parser::new(source);
    if let Err(e) = parser.load_instructions() {
        return Err(AssembleError::Parse(e));
    }
    let ghost prog = program_view(parser.items());
    proof {
        assert(prog =~= parsed(source@)->Ok_0);
    }
    let mut linker = Linker::new(parser.into_ops());
    if let Err(e) = linker.set_up_labels() {
        return Err(AssembleError::Link(e));
    }
    if let Err(e) = linker.link() {
        return Err(AssembleError::Link(e));
    }
    Ok(linker.get_code())
}

/// What a source text is assembled into depends on its tokens alone: two
/// texts that fall into the same tokens give the same bytes, or the same
/// error.
pub proof fn lemma_same_tokens_same_bytes(a: Seq<char>, b: Seq<char>)
    requires
        tokens(a) == tokens(b),
    ensures
        assembled(a) == assembled(b),
{
}

} // verus!
