//! What holds of the whole way from the lexemes to the file.

use crate::elf::obj::ElfView;
use crate::elf::writer::file_of;
use crate::parser::ast::{is_parse_of, parse_spec, Node, SymbolInfo, Visibility};
use crate::parser::laws::{
    is_global_directive, is_weak_directive, lemma_directive_counts_anywhere, reaches,
};
use crate::parser::token::Lexeme;
use crate::riscv::laws::{follows, lemma_symbols_follow_attributes};
use crate::riscv::model::{encode_sections_spec, is_encoding_of, Program};
use vstd::prelude::*;

verus! {

/// The program that parsing `lexemes` gives.
pub open spec fn program_from(lexemes: Seq<Lexeme>) -> Program {
    Program { tree: parse_spec(lexemes).get().0, attrs: parse_spec(lexemes).get().1 }
}

/// The object that encoding the program of `lexemes` gives, or leaves where
/// it stops.
pub open spec fn object_from(lexemes: Seq<Lexeme>) -> ElfView {
    encode_sections_spec(program_from(lexemes)).state.elf
}

/// A visibility or weakness directive applies to the symbol that it names
/// in the symbol table of the object, wherever in the source it stands: also
/// after the label of that symbol.
pub proof fn lemma_directive_reaches_symbol_table(
    lexemes: Seq<Lexeme>,
    at: int,
    name: Seq<char>,
    symbol: int,
)
    requires
        reaches(lexemes, 0, at),
        0 <= symbol < object_from(lexemes).symbols.len(),
        object_from(lexemes).symbols[symbol].name == name,
    ensures
        is_global_directive(lexemes, at, name) ==> object_from(
            lexemes,
        ).symbols[symbol].info.visibility == Visibility::Global,
        is_weak_directive(lexemes, at, name) ==> object_from(lexemes).symbols[symbol].info.weak,
{
    lemma_directive_counts_anywhere(lexemes, at, name);
    lemma_symbols_follow_attributes(program_from(lexemes));
    assert(follows(object_from(lexemes), program_from(lexemes).attrs));
}

/// The file is a function of the lexemes. Take two runs on the same
/// lexemes: each parses them, encodes the tree and the attributes that its
/// parser gave, and has the writer give a file for the object that its
/// encoder gave. The two runs then hold the same tree, the same attributes,
/// the same object with the same ids and offsets, and the same bytes.
pub proof fn lemma_pipeline_is_deterministic(
    lexemes: Seq<Lexeme>,
    first: (Seq<Node>, Map<Seq<char>, SymbolInfo>, ElfView, Seq<u8>),
    second: (Seq<Node>, Map<Seq<char>, SymbolInfo>, ElfView, Seq<u8>),
)
    requires
        is_parse_of(lexemes, Ok((first.0, first.1))),
        is_parse_of(lexemes, Ok((second.0, second.1))),
        is_encoding_of(Program { tree: first.0, attrs: first.1 }, Ok(first.2)),
        is_encoding_of(Program { tree: second.0, attrs: second.1 }, Ok(second.2)),
        file_of(first.2) == Some(first.3),
        file_of(second.2) == Some(second.3),
    ensures
        first == second,
        first.2 == object_from(lexemes),
{
}

} // verus!
