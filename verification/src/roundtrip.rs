//! Printing a document and compiling the text again.

use vstd::prelude::*;
use crate::ast::SpecRoot;
use crate::compiled;
use crate::lex::{lemma_lex_well_formed, lex};
use crate::print::root_text;
use crate::roundtrip::documents::lemma_root_reparses;
use crate::roundtrip::lexing::lemma_printed_text_lexes;
use crate::roundtrip::wellformed::lemma_entities_well_formed;

pub mod documents;
pub mod expressions;
pub mod lexing;
pub mod wellformed;

verus! {

/// Every document that the compiler reads is well formed: its names are identifiers, none
/// of them empty; its numbers are decimal literals; its strings hold no quote; each path
/// has a table and a field and nothing else.
pub proof fn lemma_compiled_is_well_formed(cdl: Seq<char>)
    ensures
        compiled(cdl) matches Ok(root) ==> root.well_formed(),
{
    lemma_lex_well_formed(cdl);
    if let Ok(tokens) = lex(cdl) {
        lemma_entities_well_formed(Seq::empty(), tokens);
    }
}

/// The printed text of a well-formed document compiles, to a well-formed document with the
/// same printed text: the two differ at most in how the operations of an expression are
/// grouped.
pub proof fn lemma_printed_text_compiles(root: SpecRoot)
    requires
        root.well_formed(),
    ensures
        compiled(root_text(root)) matches Ok(again) && root_text(again) == root_text(root)
            && again.well_formed(),
{
    lemma_printed_text_lexes(root);
    lemma_root_reparses(root);
}

/// Printing what was compiled, compiling that text and printing again gives the text of
/// the first printing.
pub proof fn lemma_print_compile_print(cdl: Seq<char>)
    requires
        compiled(cdl) is Ok,
    ensures
        compiled(root_text(compiled(cdl)->Ok_0)) matches Ok(again) && root_text(again)
            == root_text(compiled(cdl)->Ok_0),
{
    lemma_compiled_is_well_formed(cdl);
    lemma_printed_text_compiles(compiled(cdl)->Ok_0);
}

/// What the compiler reads from the printed text of a well-formed document, it reads
/// again, unchanged, from its own printed text.
pub proof fn lemma_compiled_print_is_stable(root: SpecRoot)
    requires
        root.well_formed(),
    ensures
        compiled(root_text(root)) matches Ok(again) && compiled(root_text(again)) == Ok::<
            SpecRoot,
            crate::CompileError,
        >(again),
{
    lemma_printed_text_compiles(root);
}

} // verus!
