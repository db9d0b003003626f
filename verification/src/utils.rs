//! From single tokens to the values of operands.
//!
//! Each function here takes the token that was read where an operand of
//! one class was due. It gives the operand's value, or notes a mismatch in
//! the parser's context and gives a value that stands for nothing.

use crate::parser::ast::{AstError, Complaint, OperandClass, ParserCtx, ParserState};
use crate::parser::token::{text_of, Token, TokenStream};
use vstd::prelude::*;

verus! {

/// The number that `token` stands for, if it is a number: an unsigned
/// number as it is, a negative number in two's complement, an ASCII
/// character as its code.
pub open spec fn num_of(token: Token) -> Option<u64> {
    match token {
        Token::Number(n) => Some(n),
        Token::NegNumber(n) => Some(n as u64),
        Token::Char(c) => if (c as u32) < 128 {
            Some(c as u64)
        } else {
            None
        },
        _ => None,
    }
}

/// The index of the register that `token` names, if it names one.
pub open spec fn reg_of(token: Token) -> Option<u32> {
    match token {
        Token::X0 | Token::Zero => Some(0),
        Token::X1 | Token::Ra => Some(1),
        Token::X2 | Token::Sp => Some(2),
        Token::X3 | Token::Gp => Some(3),
        Token::X4 | Token::Tp => Some(4),
        Token::X5 | Token::T0 => Some(5),
        Token::X6 | Token::T1 => Some(6),
        Token::X7 | Token::T2 => Some(7),
        Token::X8 | Token::S0 | Token::Fp => Some(8),
        Token::X9 | Token::S1 => Some(9),
        Token::X10 | Token::A0 => Some(10),
        Token::X11 | Token::A1 => Some(11),
        Token::X12 | Token::A2 => Some(12),
        Token::X13 | Token::A3 => Some(13),
        Token::X14 | Token::A4 => Some(14),
        Token::X15 | Token::A5 => Some(15),
        Token::X16 | Token::A6 => Some(16),
        Token::X17 | Token::A7 => Some(17),
        Token::X18 | Token::S2 => Some(18),
        Token::X19 | Token::S3 => Some(19),
        Token::X20 | Token::S4 => Some(20),
        Token::X21 | Token::S5 => Some(21),
        Token::X22 | Token::S6 => Some(22),
        Token::X23 | Token::S7 => Some(23),
        Token::X24 | Token::S8 => Some(24),
        Token::X25 | Token::S9 => Some(25),
        Token::X26 | Token::S10 => Some(26),
        Token::X27 | Token::S11 => Some(27),
        Token::X28 | Token::T3 => Some(28),
        Token::X29 | Token::T4 => Some(29),
        Token::X30 | Token::T5 => Some(30),
        Token::X31 | Token::T6 => Some(31),
        _ => None,
    }
}

/// The name that `token` holds, if it is a name with a dot.
pub open spec fn name_of(token: Token) -> Option<Seq<char>> {
    match token {
        Token::Name(s) => Some(s@),
        _ => None,
    }
}

/// The identifier that `token` holds, if it is one.
pub open spec fn identifier_of(token: Token) -> Option<Seq<char>> {
    match token {
        Token::Identifier(s) => Some(s@),
        _ => None,
    }
}

/// The text that `token` holds, if it is a string literal.
pub open spec fn string_of(token: Token) -> Option<Seq<char>> {
    match token {
        Token::Str(s) => Some(s@),
        _ => None,
    }
}

/// The state after an operand of class `expected` was due and the lexeme
/// with text `found` was read: as before where the lexeme `fits`, and with
/// a mismatch noted on the line of the statement where it does not.
pub open spec fn checked(
    state: ParserState,
    fits: bool,
    expected: OperandClass,
    found: Seq<char>,
) -> ParserState {
    if fits {
        state
    } else {
        state.complain(Complaint::Mismatch { expected, found, line: state.line })
    }
}

/// Notes that the lexeme which `lex` has read last is no operand of class
/// `expected`.
pub fn mismatch(expected: OperandClass, lex: &TokenStream<'_>, ctx: &mut ParserCtx)
    requires
        lex.wf(),
    ensures
        final(ctx)@ == checked(old(ctx)@, false, expected, text_of(lex.lexeme())),
{
    let line = ctx.line;
    ctx.complain(AstError::Mismatch { expected, found: lex.slice(), line });
}

/// The number that `reg` stands for; where it stands for none, a mismatch
/// is noted and the number is 0.
pub fn check_num(reg: &Token, lex: &TokenStream<'_>, ctx: &mut ParserCtx) -> (value: u64)
    requires
        lex.wf(),
    ensures
        value == match num_of(*reg) {
            Some(n) => n,
            None => 0,
        },
        final(ctx)@ == checked(
            old(ctx)@,
            num_of(*reg) is Some,
            OperandClass::Number,
            text_of(lex.lexeme()),
        ),
{
    match reg {
        Token::Number(n) => *n,
        Token::NegNumber(n) => *n as u64,
        Token::Char(c) => {
            if (*c as u32) < 128 {
                *c as u64
            } else {
                mismatch(OperandClass::Number, lex, ctx);
                0
            }
        },
        _ => {
            mismatch(OperandClass::Number, lex, ctx);
            0
        },
    }
}

/// The index of the register that `token` names; where it names none, a
/// mismatch is noted and the index is 0.
pub fn token_to_reg(token: &Token, lex: &TokenStream<'_>, ctx: &mut ParserCtx) -> (reg: u32)
    requires
        lex.wf(),
    ensures
        reg == match reg_of(*token) {
            Some(r) => r,
            None => 0,
        },
        reg < 32,
        final(ctx)@ == checked(
            old(ctx)@,
            reg_of(*token) is Some,
            OperandClass::Register,
            text_of(lex.lexeme()),
        ),
{
    match token {
        Token::X0 | Token::Zero => 0,
        Token::X1 | Token::Ra => 1,
        Token::X2 | Token::Sp => 2,
        Token::X3 | Token::Gp => 3,
        Token::X4 | Token::Tp => 4,
        Token::X5 | Token::T0 => 5,
        Token::X6 | Token::T1 => 6,
        Token::X7 | Token::T2 => 7,
        Token::X8 | Token::S0 | Token::Fp => 8,
        Token::X9 | Token::S1 => 9,
        Token::X10 | Token::A0 => 10,
        Token::X11 | Token::A1 => 11,
        Token::X12 | Token::A2 => 12,
        Token::X13 | Token::A3 => 13,
        Token::X14 | Token::A4 => 14,
        Token::X15 | Token::A5 => 15,
        Token::X16 | Token::A6 => 16,
        Token::X17 | Token::A7 => 17,
        Token::X18 | Token::S2 => 18,
        Token::X19 | Token::S3 => 19,
        Token::X20 | Token::S4 => 20,
        Token::X21 | Token::S5 => 21,
        Token::X22 | Token::S6 => 22,
        Token::X23 | Token::S7 => 23,
        Token::X24 | Token::S8 => 24,
        Token::X25 | Token::S9 => 25,
        Token::X26 | Token::S10 => 26,
        Token::X27 | Token::S11 => 27,
        Token::X28 | Token::T3 => 28,
        Token::X29 | Token::T4 => 29,
        Token::X30 | Token::T5 => 30,
        Token::X31 | Token::T6 => 31,
        _ => {
            mismatch(OperandClass::Register, lex, ctx);
            0
        },
    }
}

/// The name that `token` holds; where it holds none, a mismatch is noted
/// and the name is empty.
pub fn token_to_name(token: &Token, lex: &TokenStream<'_>, ctx: &mut ParserCtx) -> (name: String)
    requires
        lex.wf(),
    ensures
        name@ == match name_of(*token) {
            Some(s) => s,
            None => Seq::empty(),
        },
        final(ctx)@ == checked(
            old(ctx)@,
            name_of(*token) is Some,
            OperandClass::Name,
            text_of(lex.lexeme()),
        ),
{
    match token {
        Token::Name(s) => s.clone(),
        _ => {
            mismatch(OperandClass::Name, lex, ctx);
            String::new()
        },
    }
}

/// The identifier that `token` holds; where it holds none, a mismatch is
/// noted and the identifier is empty.
pub fn token_to_identifier(token: &Token, lex: &TokenStream<'_>, ctx: &mut ParserCtx) -> (name:
    String)
    requires
        lex.wf(),
    ensures
        name@ == match identifier_of(*token) {
            Some(s) => s,
            None => Seq::empty(),
        },
        final(ctx)@ == checked(
            old(ctx)@,
            identifier_of(*token) is Some,
            OperandClass::Identifier,
            text_of(lex.lexeme()),
        ),
{
    match token {
        Token::Identifier(s) => s.clone(),
        _ => {
            mismatch(OperandClass::Identifier, lex, ctx);
            String::new()
        },
    }
}

/// The text that `token` holds; where it is no string literal, a mismatch
/// is noted and the text is empty.
pub fn token_to_string(token: &Token, lex: &TokenStream<'_>, ctx: &mut ParserCtx) -> (text: String)
    requires
        lex.wf(),
    ensures
        text@ == match string_of(*token) {
            Some(s) => s,
            None => Seq::empty(),
        },
        final(ctx)@ == checked(
            old(ctx)@,
            string_of(*token) is Some,
            OperandClass::String,
            text_of(lex.lexeme()),
        ),
{
    match token {
        Token::Str(s) => s.clone(),
        _ => {
            mismatch(OperandClass::String, lex, ctx);
            String::new()
        },
    }
}

} // verus!
