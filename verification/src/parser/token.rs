//! The lexical units that the parser reads.
//!
//! A scanner outside this crate cuts the source text into lexemes. Each
//! lexeme carries the token that the scanner recognised, the text it was cut
//! from, and the line on which it stands.

use vstd::prelude::*;

verus! {

/// What the scanner recognises.
#[derive(Debug, Clone, PartialEq, Eq, PartialOrd, Ord)]
pub enum Token {
    Addi,
    Ecall,
    Add,
    Sub,
    Mv,
    Xor,
    Or,
    And,
    Sll,
    Srl,
    Sra,
    Slt,
    Sltu,
    Sb,
    Auipc,
    Lui,
    La,
    Nop,
    X0,
    Zero,
    X1,
    Ra,
    X2,
    Sp,
    X3,
    Gp,
    X4,
    Tp,
    X5,
    T0,
    X6,
    T1,
    X7,
    T2,
    X8,
    S0,
    Fp,
    X9,
    S1,
    X10,
    A0,
    X11,
    A1,
    X12,
    A2,
    X13,
    A3,
    X14,
    A4,
    X15,
    A5,
    X16,
    A6,
    X17,
    A7,
    X18,
    S2,
    X19,
    S3,
    X20,
    S4,
    X21,
    S5,
    X22,
    S6,
    X23,
    S7,
    X24,
    S8,
    X25,
    S9,
    X26,
    S10,
    X27,
    S11,
    X28,
    T3,
    X29,
    T4,
    X30,
    T5,
    X31,
    T6,
    /// The directive `.ascii`.
    Assci,
    Number(u64),
    NegNumber(i64),
    Char(char),
    /// The text of a string literal, without its quotes.
    Str(String),
    /// The directive `.section`.
    Section,
    /// The directive `.global`.
    Global,
    /// The directive `.weak`.
    Weak,
    /// The directive `.globl`.
    Globl,
    /// The name of a label, without its colon.
    Label(String),
    Identifier(String),
    /// A name that begins with a dot, such as a section name.
    Name(String),
    ParenthesisStart,
    ParenthesisEnd,
    Comment,
    /// No token: what stands for a lexeme that the scanner did not
    /// recognise.
    Empty,
}

impl Default for Token {
    fn default() -> (token: Self)
        ensures
            token == Token::Empty,
    {
        Token::Empty
    }
}

/// One lexeme of the source.
#[derive(Debug, Clone)]
pub struct Lexeme {
    /// The token, or `None` where the scanner did not recognise the text.
    pub token: Option<Token>,
    /// The text of the lexeme.
    pub text: String,
    /// The line of the lexeme, counted from 1.
    pub line: u64,
}

/// The number of line feeds in `bytes`.
pub open spec fn line_feeds(bytes: Seq<u8>) -> nat
    decreases bytes.len(),
{
    if bytes.len() == 0 {
        0
    } else {
        line_feeds(bytes.drop_last()) + if bytes.last() == 10u8 {
            1nat
        } else {
            0nat
        }
    }
}

/// The line on which the byte at `offset` of `source` stands, counted from
/// 1: one more than the number of line feeds before it.
pub fn line_at(source: &[u8], offset: usize) -> (line: u64)
    requires
        offset < source@.len(),
    ensures
        line == 1 + line_feeds(source@.take(offset as int)),
{
    let mut feeds: u64 = 0;
    let mut i: usize = 0;
    assert(source@.take(0) =~= Seq::<u8>::empty());
    while i < offset
        invariant
            i <= offset < source@.len(),
            feeds == line_feeds(source@.take(i as int)),
            feeds <= i,
        decreases offset - i,
    {
        assert(source@.take(i + 1).drop_last() =~= source@.take(i as int));
        if source[i] == 10u8 {
            feeds += 1;
        }
        i += 1;
    }
    assert(source.len() <= usize::MAX);
    feeds + 1
}

/// The lexeme at place `i` of `lexemes`, if there is one.
pub open spec fn lexeme_at(lexemes: Seq<Lexeme>, i: int) -> Option<Lexeme> {
    if 0 <= i < lexemes.len() {
        Some(lexemes[i])
    } else {
        None
    }
}

/// The token that a read gives: [`Token::Empty`] where nothing is left to
/// read and where the scanner did not recognise the lexeme.
pub open spec fn token_of(read: Option<Lexeme>) -> Token {
    match read {
        Some(lexeme) => match lexeme.token {
            Some(token) => token,
            None => Token::Empty,
        },
        None => Token::Empty,
    }
}

/// The text that a read gives: none where nothing is left to read.
pub open spec fn text_of(read: Option<Lexeme>) -> Seq<char> {
    match read {
        Some(lexeme) => lexeme.text@,
        None => Seq::empty(),
    }
}

/// A cursor over the lexemes of one source.
#[derive(Debug)]
pub struct TokenStream<'a> {
    pub lexemes: &'a Vec<Lexeme>,
    /// The place of the lexeme that the next read gives.
    pub next: usize,
    /// The place of the lexeme that the last read gave, if it gave one.
    pub current: Option<usize>,
}

impl<'a> TokenStream<'a> {
    /// Whether the cursor points into its lexemes.
    pub open spec fn wf(&self) -> bool {
        &&& self.next <= self.lexemes@.len()
        &&& self.current matches Some(at) ==> at < self.lexemes@.len()
    }

    /// The lexeme that the next read gives, if any is left.
    pub open spec fn peek(&self) -> Option<Lexeme> {
        lexeme_at(self.lexemes@, self.next as int)
    }

    /// The lexeme that the last read gave, if it gave one.
    pub open spec fn lexeme(&self) -> Option<Lexeme> {
        match self.current {
            Some(at) => lexeme_at(self.lexemes@, at as int),
            None => None,
        }
    }

    /// A cursor before the first of `lexemes`.
    pub fn new(lexemes: &'a Vec<Lexeme>) -> (stream: Self)
        ensures
            stream.wf(),
            stream.lexemes == lexemes,
            stream.next == 0,
            stream.current is None,
    {
        TokenStream { lexemes, next: 0, current: None }
    }

    /// Reads the next lexeme, and says whether there was one.
    pub fn advance(&mut self) -> (more: bool)
        requires
            old(self).wf(),
        ensures
            final(self).wf(),
            final(self).lexemes == old(self).lexemes,
            more == (old(self).next < old(self).lexemes@.len()),
            final(self).lexeme() == old(self).peek(),
            final(self).current == if more {
                Some(old(self).next)
            } else {
                None::<usize>
            },
            final(self).next == if more {
                old(self).next + 1
            } else {
                old(self).next as int
            },
    {
        if self.next < self.lexemes.len() {
            self.current = Some(self.next);
            self.next = self.next + 1;
            true
        } else {
            self.current = None;
            false
        }
    }

    /// The token of the lexeme that the last read gave, if the read gave a
    /// lexeme and the scanner recognised it.
    pub fn token(&self) -> (token: Option<&'a Token>)
        requires
            self.wf(),
        ensures
            match token {
                Some(token) => self.lexeme() matches Some(lexeme) && lexeme.token == Some(*token),
                None => self.lexeme() matches Some(lexeme) ==> lexeme.token is None,
            },
            token matches Some(token) ==> token_of(self.lexeme()) == *token,
            token is None ==> token_of(self.lexeme()) == Token::Empty,
    {
        match self.current {
            Some(at) => match &self.lexemes[at].token {
                Some(token) => Some(token),
                None => None,
            },
            None => None,
        }
    }

    /// The text of the lexeme that the last read gave.
    pub fn slice(&self) -> (text: String)
        requires
            self.wf(),
        ensures
            text@ == text_of(self.lexeme()),
    {
        match self.current {
            Some(at) => self.lexemes[at].text.clone(),
            None => String::new(),
        }
    }

    /// The line of the lexeme that the last read gave, and 0 if it gave
    /// none.
    pub fn line(&self) -> (line: u64)
        requires
            self.wf(),
        ensures
            line == match self.lexeme() {
                Some(lexeme) => lexeme.line,
                None => 0,
            },
    {
        match self.current {
            Some(at) => self.lexemes[at].line,
            None => 0,
        }
    }
}

} // verus!
