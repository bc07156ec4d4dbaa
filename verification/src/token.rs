//! Tokens: the lexer's output and the parser's input.

use crate::number::Number;
use vstd::prelude::*;

verus! {

/// Errors the lexer can name. Unknown characters are surfaced as
/// [`TokenKind::Unknown`] tokens instead, so no function returns this yet.
#[derive(Debug, Clone, Copy)]
pub enum LexingError {
    UnidentifiedToken,
}

/// What a token is. Identifiers and strings carry their text; a number
/// carries the value that the host's arithmetic read from its digits.
#[derive(Debug)]
pub enum TokenKind {
    LeftParen,
    RightParen,
    LeftBrace,
    RightBrace,
    Comma,
    Dot,
    Minus,
    Plus,
    Semicolon,
    Slash,
    Star,
    Bang,
    Ne,
    Eq,
    EqEq,
    Gt,
    Ge,
    Lt,
    Le,
    Identifier(String),
    String(String),
    Number(Number),
    And,
    Class,
    Else,
    False,
    Fun,
    For,
    If,
    Nil,
    Or,
    Print,
    Return,
    Super,
    This,
    True,
    Var,
    While,
    Whitespace,
    Unknown(char),
    Eof,
}

/// The mathematical value of a [`TokenKind`]: the same variants over
/// sequences of characters. A number's value is the host's and is left
/// out; its digits are the token's lexeme.
pub ghost enum KindView {
    LeftParen,
    RightParen,
    LeftBrace,
    RightBrace,
    Comma,
    Dot,
    Minus,
    Plus,
    Semicolon,
    Slash,
    Star,
    Bang,
    Ne,
    Eq,
    EqEq,
    Gt,
    Ge,
    Lt,
    Le,
    Identifier(Seq<char>),
    String(Seq<char>),
    Number,
    And,
    Class,
    Else,
    False,
    Fun,
    For,
    If,
    Nil,
    Or,
    Print,
    Return,
    Super,
    This,
    True,
    Var,
    While,
    Whitespace,
    Unknown(char),
    Eof,
}

impl View for TokenKind {
    type V = KindView;

    open spec fn view(&self) -> KindView {
        match *self {
            TokenKind::LeftParen => KindView::LeftParen,
            TokenKind::RightParen => KindView::RightParen,
            TokenKind::LeftBrace => KindView::LeftBrace,
            TokenKind::RightBrace => KindView::RightBrace,
            TokenKind::Comma => KindView::Comma,
            TokenKind::Dot => KindView::Dot,
            TokenKind::Minus => KindView::Minus,
            TokenKind::Plus => KindView::Plus,
            TokenKind::Semicolon => KindView::Semicolon,
            TokenKind::Slash => KindView::Slash,
            TokenKind::Star => KindView::Star,
            TokenKind::Bang => KindView::Bang,
            TokenKind::Ne => KindView::Ne,
            TokenKind::Eq => KindView::Eq,
            TokenKind::EqEq => KindView::EqEq,
            TokenKind::Gt => KindView::Gt,
            TokenKind::Ge => KindView::Ge,
            TokenKind::Lt => KindView::Lt,
            TokenKind::Le => KindView::Le,
            TokenKind::Identifier(s) => KindView::Identifier(s@),
            TokenKind::String(s) => KindView::String(s@),
            TokenKind::Number(_) => KindView::Number,
            TokenKind::And => KindView::And,
            TokenKind::Class => KindView::Class,
            TokenKind::Else => KindView::Else,
            TokenKind::False => KindView::False,
            TokenKind::Fun => KindView::Fun,
            TokenKind::For => KindView::For,
            TokenKind::If => KindView::If,
            TokenKind::Nil => KindView::Nil,
            TokenKind::Or => KindView::Or,
            TokenKind::Print => KindView::Print,
            TokenKind::Return => KindView::Return,
            TokenKind::Super => KindView::Super,
            TokenKind::This => KindView::This,
            TokenKind::True => KindView::True,
            TokenKind::Var => KindView::Var,
            TokenKind::While => KindView::While,
            TokenKind::Whitespace => KindView::Whitespace,
            TokenKind::Unknown(c) => KindView::Unknown(c),
            TokenKind::Eof => KindView::Eof,
        }
    }
}

impl Clone for TokenKind {
    fn clone(&self) -> (r: Self)
        ensures
            r == *self,
    {
        match self {
            TokenKind::LeftParen => TokenKind::LeftParen,
            TokenKind::RightParen => TokenKind::RightParen,
            TokenKind::LeftBrace => TokenKind::LeftBrace,
            TokenKind::RightBrace => TokenKind::RightBrace,
            TokenKind::Comma => TokenKind::Comma,
            TokenKind::Dot => TokenKind::Dot,
            TokenKind::Minus => TokenKind::Minus,
            TokenKind::Plus => TokenKind::Plus,
            TokenKind::Semicolon => TokenKind::Semicolon,
            TokenKind::Slash => TokenKind::Slash,
            TokenKind::Star => TokenKind::Star,
            TokenKind::Bang => TokenKind::Bang,
            TokenKind::Ne => TokenKind::Ne,
            TokenKind::Eq => TokenKind::Eq,
            TokenKind::EqEq => TokenKind::EqEq,
            TokenKind::Gt => TokenKind::Gt,
            TokenKind::Ge => TokenKind::Ge,
            TokenKind::Lt => TokenKind::Lt,
            TokenKind::Le => TokenKind::Le,
            TokenKind::Identifier(s) => TokenKind::Identifier(s.clone()),
            TokenKind::String(s) => TokenKind::String(s.clone()),
            TokenKind::Number(n) => TokenKind::Number(*n),
            TokenKind::And => TokenKind::And,
            TokenKind::Class => TokenKind::Class,
            TokenKind::Else => TokenKind::Else,
            TokenKind::False => TokenKind::False,
            TokenKind::Fun => TokenKind::Fun,
            TokenKind::For => TokenKind::For,
            TokenKind::If => TokenKind::If,
            TokenKind::Nil => TokenKind::Nil,
            TokenKind::Or => TokenKind::Or,
            TokenKind::Print => TokenKind::Print,
            TokenKind::Return => TokenKind::Return,
            TokenKind::Super => TokenKind::Super,
            TokenKind::This => TokenKind::This,
            TokenKind::True => TokenKind::True,
            TokenKind::Var => TokenKind::Var,
            TokenKind::While => TokenKind::While,
            TokenKind::Whitespace => TokenKind::Whitespace,
            TokenKind::Unknown(c) => TokenKind::Unknown(*c),
            TokenKind::Eof => TokenKind::Eof,
        }
    }
}

/// One token: its kind, the number of bytes the lexer consumed to produce
/// it, and the exact source text it was read from.
#[derive(Debug)]
pub struct Token {
    pub value: TokenKind,
    pub length: usize,
    pub lexeme: String,
}

/// The mathematical value of a [`Token`].
pub ghost struct TokenView {
    pub kind: KindView,
    pub length: usize,
    pub lexeme: Seq<char>,
}

impl View for Token {
    type V = TokenView;

    open spec fn view(&self) -> TokenView {
        TokenView { kind: self.value@, length: self.length, lexeme: self.lexeme@ }
    }
}

impl Clone for Token {
    fn clone(&self) -> (r: Self)
        ensures
            r == *self,
    {
        Token { value: self.value.clone(), length: self.length, lexeme: self.lexeme.clone() }
    }
}

impl Token {
    /// True for the tokens that name a variable, a function or a parameter.
    pub open spec fn is_identifier(&self) -> bool {
        self.value is Identifier
    }

    /// Tests whether the token is an identifier.
    pub fn names_something(&self) -> (b: bool)
        ensures
            b == self.is_identifier(),
    {
        match &self.value {
            TokenKind::Identifier(_) => true,
            _ => false,
        }
    }
}

} // verus!
