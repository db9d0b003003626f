//! What holds of parsing, whatever the lexemes.

use crate::parser::ast::{
    identifier_read, is_parse_of, operand_count, parse_from, parse_spec, statement_spec, Complaint,
    Node, ParserState, SymbolInfo, Visibility,
};
use crate::parser::token::{lexeme_at, token_of, Lexeme, Token};
use crate::utils::identifier_of;
use vstd::prelude::*;

verus! {

/// Whether a statement begins at place `at` of `lexemes`, where one begins
/// at place `from`: the statements follow one another, each after the
/// operands of the one before.
pub open spec fn reaches(lexemes: Seq<Lexeme>, from: int, at: int) -> bool
    decreases
        (if from < lexemes.len() {
            lexemes.len() - from
        } else {
            0
        }),
{
    if from == at {
        true
    } else if 0 <= from < lexemes.len() && from < at {
        reaches(lexemes, from + 1 + operand_count(lexemes[from].token), at)
    } else {
        false
    }
}

/// Whether the lexeme at place `at` is a `.global` or `.globl` directive
/// that names `name`.
pub open spec fn is_global_directive(lexemes: Seq<Lexeme>, at: int, name: Seq<char>) -> bool {
    &&& 0 <= at < lexemes.len()
    &&& lexemes[at].token == Some(Token::Global) || lexemes[at].token == Some(Token::Globl)
    &&& identifier_of(token_of(lexeme_at(lexemes, at + 1))) == Some(name)
}

/// Whether the lexeme at place `at` is a `.weak` directive that names
/// `name`.
pub open spec fn is_weak_directive(lexemes: Seq<Lexeme>, at: int, name: Seq<char>) -> bool {
    &&& 0 <= at < lexemes.len()
    &&& lexemes[at].token == Some(Token::Weak)
    &&& identifier_of(token_of(lexeme_at(lexemes, at + 1))) == Some(name)
}

/// What the directives have said so far makes `name` global.
pub open spec fn is_global(state: ParserState, name: Seq<char>) -> bool {
    state.info(name).visibility == Visibility::Global
}

/// What the directives have said so far makes `name` weak.
pub open spec fn is_weak(state: ParserState, name: Seq<char>) -> bool {
    state.info(name).weak
}

/// No statement takes back what a directive has said: a symbol that is
/// global stays global, and one that is weak stays weak. A directive that
/// names a symbol makes it so.
pub proof fn lemma_statement_keeps_attributes(
    lexemes: Seq<Lexeme>,
    at: int,
    state: ParserState,
    name: Seq<char>,
)
    requires
        0 <= at < lexemes.len(),
    ensures
        is_global(state, name) ==> is_global(statement_spec(lexemes, at, state), name),
        is_weak(state, name) ==> is_weak(statement_spec(lexemes, at, state), name),
        is_global_directive(lexemes, at, name) ==> is_global(
            statement_spec(lexemes, at, state),
            name,
        ),
        is_weak_directive(lexemes, at, name) ==> is_weak(statement_spec(lexemes, at, state), name),
{
    let lexeme = lexemes[at];
    let entered = ParserState { line: lexeme.line, ..state };
    match lexeme.token {
        None => {},
        Some(token) => match token {
            Token::Global | Token::Globl => {
                let (named, done) = identifier_read(lexeme_at(lexemes, at + 1), entered);
                assert(done.functions_info == state.functions_info);
            },
            Token::Weak => {
                let (named, done) = identifier_read(lexeme_at(lexemes, at + 1), entered);
                assert(done.functions_info == state.functions_info);
            },
            _ => {
                assert(statement_spec(lexemes, at, state).functions_info == state.functions_info);
            },
        },
    }
}

/// What a directive says holds at the end, from whichever statement on
/// parsing goes.
pub proof fn lemma_attributes_last(
    lexemes: Seq<Lexeme>,
    from: int,
    state: ParserState,
    name: Seq<char>,
)
    ensures
        is_global(state, name) ==> is_global(parse_from(lexemes, from, state), name),
        is_weak(state, name) ==> is_weak(parse_from(lexemes, from, state), name),
        forall|at: int|
            reaches(lexemes, from, at) && is_global_directive(lexemes, at, name) ==> is_global(
                parse_from(lexemes, from, state),
                name,
            ),
        forall|at: int|
            reaches(lexemes, from, at) && is_weak_directive(lexemes, at, name) ==> is_weak(
                parse_from(lexemes, from, state),
                name,
            ),
    decreases
        (if from < lexemes.len() {
            lexemes.len() - from
        } else {
            0
        }),
{
    if 0 <= from < lexemes.len() {
        let next = from + 1 + operand_count(lexemes[from].token);
        let after = statement_spec(lexemes, from, state);
        lemma_statement_keeps_attributes(lexemes, from, state, name);
        lemma_attributes_last(lexemes, next, after, name);
        assert forall|at: int|
            reaches(lexemes, from, at) && is_global_directive(lexemes, at, name) implies is_global(
            parse_from(lexemes, from, state),
            name,
        ) by {
            if at != from {
                assert(reaches(lexemes, next, at));
            }
        }
        assert forall|at: int|
            reaches(lexemes, from, at) && is_weak_directive(lexemes, at, name) implies is_weak(
            parse_from(lexemes, from, state),
            name,
        ) by {
            if at != from {
                assert(reaches(lexemes, next, at));
            }
        }
    } else {
        assert forall|at: int|
            reaches(lexemes, from, at) && is_global_directive(lexemes, at, name) implies is_global(
            parse_from(lexemes, from, state),
            name,
        ) by {}
        assert forall|at: int|
            reaches(lexemes, from, at) && is_weak_directive(lexemes, at, name) implies is_weak(
            parse_from(lexemes, from, state),
            name,
        ) by {}
    }
}

/// A `.global`, `.globl` or `.weak` directive counts wherever it stands: in
/// the attribute table that parsing gives, the symbol that it names is
/// global, or weak, whether its label stands before the directive, after
/// it, or nowhere.
pub proof fn lemma_directive_counts_anywhere(lexemes: Seq<Lexeme>, at: int, name: Seq<char>)
    requires
        reaches(lexemes, 0, at),
    ensures
        is_global_directive(lexemes, at, name) ==> crate::riscv::model::info_of(
            parse_spec(lexemes).get().1,
            name,
        ).visibility == Visibility::Global,
        is_weak_directive(lexemes, at, name) ==> crate::riscv::model::info_of(
            parse_spec(lexemes).get().1,
            name,
        ).weak,
{
    lemma_attributes_last(lexemes, 0, ParserState::initial(), name);
    let end = parse_from(lexemes, 0, ParserState::initial());
    assert(end.push_label().functions_info == end.functions_info);
}

/// Parsing is a function of the lexemes: two runs on the same lexemes give
/// the same tree and the same attribute table, or the same complaints.
pub proof fn lemma_parsing_is_deterministic(
    lexemes: Seq<Lexeme>,
    first: Result<(Seq<Node>, Map<Seq<char>, SymbolInfo>), Seq<Complaint>>,
    second: Result<(Seq<Node>, Map<Seq<char>, SymbolInfo>), Seq<Complaint>>,
)
    requires
        is_parse_of(lexemes, first),
        is_parse_of(lexemes, second),
    ensures
        first == second,
{
}

} // verus!
