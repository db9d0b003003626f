use rvasm::parser::ast::{AstError, OperandClass, ParserCtx};
use rvasm::parser::token::{line_at, Lexeme, Token, TokenStream};
use rvasm::utils::{check_num, token_to_identifier, token_to_name, token_to_reg, token_to_string};

fn one(token: Token, text: &str, line: u64) -> Vec<Lexeme> {
    vec![Lexeme { token: Some(token), text: text.to_string(), line }]
}

#[test]
fn default_token_is_empty() {
    assert_eq!(Token::default(), Token::Empty);
}

#[test]
fn every_register_name_has_its_index() {
    let table: Vec<(Token, Token, u32)> = vec![
        (Token::X0, Token::Zero, 0),
        (Token::X1, Token::Ra, 1),
        (Token::X2, Token::Sp, 2),
        (Token::X3, Token::Gp, 3),
        (Token::X4, Token::Tp, 4),
        (Token::X5, Token::T0, 5),
        (Token::X6, Token::T1, 6),
        (Token::X7, Token::T2, 7),
        (Token::X8, Token::S0, 8),
        (Token::X9, Token::S1, 9),
        (Token::X10, Token::A0, 10),
        (Token::X11, Token::A1, 11),
        (Token::X12, Token::A2, 12),
        (Token::X13, Token::A3, 13),
        (Token::X14, Token::A4, 14),
        (Token::X15, Token::A5, 15),
        (Token::X16, Token::A6, 16),
        (Token::X17, Token::A7, 17),
        (Token::X18, Token::S2, 18),
        (Token::X19, Token::S3, 19),
        (Token::X20, Token::S4, 20),
        (Token::X21, Token::S5, 21),
        (Token::X22, Token::S6, 22),
        (Token::X23, Token::S7, 23),
        (Token::X24, Token::S8, 24),
        (Token::X25, Token::S9, 25),
        (Token::X26, Token::S10, 26),
        (Token::X27, Token::S11, 27),
        (Token::X28, Token::T3, 28),
        (Token::X29, Token::T4, 29),
        (Token::X30, Token::T5, 30),
        (Token::X31, Token::T6, 31),
    ];
    let lexemes = one(Token::Comment, "#", 1);
    let stream = TokenStream::new(&lexemes);
    let mut ctx = ParserCtx::new();
    for (numbered, named, index) in &table {
        assert_eq!(token_to_reg(numbered, &stream, &mut ctx), *index);
        assert_eq!(token_to_reg(named, &stream, &mut ctx), *index);
    }
    assert_eq!(token_to_reg(&Token::Fp, &stream, &mut ctx), 8);
    assert!(ctx.errors.is_empty());
}

#[test]
fn a_token_that_is_no_register_is_a_mismatch() {
    let lexemes = one(Token::Number(7), "7", 12);
    let mut stream = TokenStream::new(&lexemes);
    assert!(stream.advance());
    let mut ctx = ParserCtx::new();
    ctx.line = 12;
    assert_eq!(token_to_reg(&Token::Number(7), &stream, &mut ctx), 0);
    assert_eq!(
        ctx.errors,
        vec![AstError::Mismatch {
            expected: OperandClass::Register,
            found: "7".to_string(),
            line: 12
        }]
    );
}

#[test]
fn numbers_come_from_three_kinds_of_token() {
    let lexemes = one(Token::Comment, "#", 1);
    let stream = TokenStream::new(&lexemes);
    let mut ctx = ParserCtx::new();
    assert_eq!(check_num(&Token::Number(42), &stream, &mut ctx), 42);
    assert_eq!(check_num(&Token::Number(u64::MAX), &stream, &mut ctx), u64::MAX);
    assert_eq!(check_num(&Token::NegNumber(-1), &stream, &mut ctx), u64::MAX);
    assert_eq!(check_num(&Token::NegNumber(-20), &stream, &mut ctx), 0xFFFF_FFFF_FFFF_FFEC);
    assert_eq!(check_num(&Token::NegNumber(i64::MIN), &stream, &mut ctx), 1u64 << 63);
    assert_eq!(check_num(&Token::Char('A'), &stream, &mut ctx), 65);
    assert_eq!(check_num(&Token::Char('\n'), &stream, &mut ctx), 10);
    assert!(ctx.errors.is_empty());
}

#[test]
fn a_character_beyond_ascii_is_no_number() {
    let lexemes = one(Token::Char('é'), "'é'", 3);
    let mut stream = TokenStream::new(&lexemes);
    assert!(stream.advance());
    let mut ctx = ParserCtx::new();
    ctx.line = 3;
    assert_eq!(check_num(&Token::Char('é'), &stream, &mut ctx), 0);
    assert_eq!(
        ctx.errors,
        vec![AstError::Mismatch {
            expected: OperandClass::Number,
            found: "'é'".to_string(),
            line: 3
        }]
    );
    assert_eq!(check_num(&Token::Char('\u{7f}'), &stream, &mut ctx), 127);
    assert_eq!(check_num(&Token::Char('\u{80}'), &stream, &mut ctx), 0);
    assert_eq!(ctx.errors.len(), 2);
}

#[test]
fn a_token_that_is_no_number_is_a_mismatch() {
    let lexemes = one(Token::A0, "a0", 9);
    let mut stream = TokenStream::new(&lexemes);
    assert!(stream.advance());
    let mut ctx = ParserCtx::new();
    ctx.line = 9;
    assert_eq!(check_num(&Token::A0, &stream, &mut ctx), 0);
    assert_eq!(
        ctx.errors,
        vec![AstError::Mismatch {
            expected: OperandClass::Number,
            found: "a0".to_string(),
            line: 9
        }]
    );
}

#[test]
fn names_identifiers_and_strings_each_take_their_own_token() {
    let lexemes = one(Token::Comment, "#", 1);
    let stream = TokenStream::new(&lexemes);
    let mut ctx = ParserCtx::new();
    assert_eq!(token_to_name(&Token::Name(".text".to_string()), &stream, &mut ctx), ".text");
    assert_eq!(token_to_identifier(&Token::Identifier("main".to_string()), &stream, &mut ctx), "main");
    assert_eq!(token_to_string(&Token::Str("hi".to_string()), &stream, &mut ctx), "hi");
    assert!(ctx.errors.is_empty());

    assert_eq!(token_to_name(&Token::Identifier("text".to_string()), &stream, &mut ctx), "");
    assert_eq!(token_to_identifier(&Token::Name(".main".to_string()), &stream, &mut ctx), "");
    assert_eq!(token_to_string(&Token::Identifier("hi".to_string()), &stream, &mut ctx), "");
    let expected: Vec<OperandClass> = ctx
        .errors
        .iter()
        .map(|error| match error {
            AstError::Mismatch { expected, .. } => *expected,
            other => panic!("unexpected {:?}", other),
        })
        .collect();
    assert_eq!(
        expected,
        vec![OperandClass::Name, OperandClass::Identifier, OperandClass::String]
    );
}

#[test]
fn a_stream_reads_its_lexemes_in_order_and_stops_at_the_end() {
    let lexemes = vec![
        Lexeme { token: Some(Token::Addi), text: "addi".to_string(), line: 1 },
        Lexeme { token: None, text: "$".to_string(), line: 2 },
    ];
    let mut stream = TokenStream::new(&lexemes);
    assert_eq!(stream.token(), None);
    assert_eq!(stream.slice(), "");
    assert_eq!(stream.line(), 0);
    assert!(stream.advance());
    assert_eq!(stream.token(), Some(&Token::Addi));
    assert_eq!(stream.slice(), "addi");
    assert_eq!(stream.line(), 1);
    assert!(stream.advance());
    assert_eq!(stream.token(), None);
    assert_eq!(stream.slice(), "$");
    assert_eq!(stream.line(), 2);
    assert!(!stream.advance());
    assert_eq!(stream.token(), None);
    assert_eq!(stream.slice(), "");
    assert!(!stream.advance());
    assert_eq!(stream.next, 2);
}

#[test]
fn lines_are_counted_from_one() {
    let source = b"addi a0, zero, 1\n\necall\n";
    assert_eq!(line_at(source, 0), 1);
    assert_eq!(line_at(source, 15), 1);
    // The line feed itself still stands on the line that it ends.
    assert_eq!(line_at(source, 16), 1);
    assert_eq!(line_at(source, 17), 2);
    assert_eq!(line_at(source, 18), 3);
    assert_eq!(line_at(source, 23), 3);
}
