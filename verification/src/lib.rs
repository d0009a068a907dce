//! Core of the CDL configuration language: lexer, parser, printer and selector engine.

use vstd::prelude::*;
use crate::ast::{AstRootNode, SpecRoot};
use crate::grammar::{parse_root, SyntaxError};
use crate::lex::{lex, LexError, Lexer};
use crate::parse::Parser;
use crate::print::root_text;

pub mod ast;
pub mod canon;
pub mod grammar;
pub mod lex;
pub mod parse;
pub mod print;
pub mod roundtrip;
pub mod select;
pub mod text;

verus! {

/// Why a text is no CDL document.
pub enum CompileError {
    Lexical(LexError),
    Syntax(SyntaxError),
}

impl CompileError {
    /// The message that [`compile`] reports for this error.
    pub open spec fn message(self) -> Seq<char> {
        match self {
            CompileError::Lexical(e) => e.message(),
            CompileError::Syntax(e) => e.message(),
        }
    }
}

/// The document that the text `cdl` spells: the tree that the grammar reads from the tokens
/// of `cdl`; or the first error, lexical errors before syntax errors.
pub open spec fn compiled(cdl: Seq<char>) -> Result<SpecRoot, CompileError> {
    match lex(cdl) {
        Ok(tokens) => match parse_root(tokens) {
            Ok(root) => Ok(root),
            Err(e) => Err(CompileError::Syntax(e)),
        },
        Err(e) => Err(CompileError::Lexical(e)),
    }
}

/// Compiles the CDL text `cdl` to its syntax tree, or reports the first error.
pub fn compile(cdl: String) -> (res: Result<AstRootNode, String>)
    ensures
        match compiled(cdl@) {
            Ok(root) => res matches Ok(tree) && tree@ == root && tree@.well_formed(),
            Err(e) => res matches Err(message) && message@ == e.message(),
        },
{
    proof {
        crate::roundtrip::lemma_compiled_is_well_formed(cdl@);
    }
    let lexer = Lexer::new(cdl);
    let lex_items = match lexer.lex() {
        Ok(lex_items) => lex_items,
        Err(message) => {
            return Err(message);
        },
    };
    let parser = Parser::new(lex_items);
    assert(parser.remaining() =~= parser.tokens());
    parser.parse()
}

/// Prints the document `root` as canonical CDL text.
pub fn print(root: AstRootNode) -> (text: String)
    ensures
        text@ == root_text(root@),
{
    print::print(root)
}

} // verus!
