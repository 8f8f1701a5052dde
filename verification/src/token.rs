//! Lexical units: a token kind, a span of character indices, and a
//! 1-indexed line number.

use vstd::prelude::*;

verus! {

/// Character range `(start, end)` of a lexeme within the source, counted
/// in characters from the start of the source, end exclusive. (For ASCII
/// sources character and byte offsets coincide.)
#[derive(Debug, Clone, Copy, PartialEq, Eq, Structural)]
pub struct Span(pub usize, pub usize);

/// The kind of a lexical unit. `Identifier`, `String` and `Number` carry
/// their payload; every other variant stands for itself. `Unknown` carries
/// a character the lexer did not recognise, so that the parser can report
/// it with its exact span.
#[derive(Debug, Clone, PartialEq, Eq)]
pub enum TokenKind {
    Identifier(String),
    String(String),
    Number(i64),
    True,
    False,
    Null,
    Fn,
    Let,
    Const,
    If,
    Else,
    While,
    For,
    Return,
    Break,
    Continue,
    Use,
    Pub,
    LeftParen,
    RightParen,
    LeftBracket,
    RightBracket,
    LeftBrace,
    RightBrace,
    Comma,
    Dot,
    Semicolon,
    Colon,
    Plus,
    Minus,
    Asterisk,
    Slash,
    Equals,
    EqualsEquals,
    NotEquals,
    LessThan,
    GreaterThan,
    LessThanEquals,
    GreaterThanEquals,
    Unknown(char),
    Eof,
}

impl TokenKind {
    /// An equal copy.
    pub fn dup(&self) -> (r: TokenKind)
        ensures
            r == self,
    {
        match self {
            TokenKind::Identifier(s) => TokenKind::Identifier(s.clone()),
            TokenKind::String(s) => TokenKind::String(s.clone()),
            TokenKind::Number(n) => TokenKind::Number(*n),
            TokenKind::True => TokenKind::True,
            TokenKind::False => TokenKind::False,
            TokenKind::Null => TokenKind::Null,
            TokenKind::Fn => TokenKind::Fn,
            TokenKind::Let => TokenKind::Let,
            TokenKind::Const => TokenKind::Const,
            TokenKind::If => TokenKind::If,
            TokenKind::Else => TokenKind::Else,
            TokenKind::While => TokenKind::While,
            TokenKind::For => TokenKind::For,
            TokenKind::Return => TokenKind::Return,
            TokenKind::Break => TokenKind::Break,
            TokenKind::Continue => TokenKind::Continue,
            TokenKind::Use => TokenKind::Use,
            TokenKind::Pub => TokenKind::Pub,
            TokenKind::LeftParen => TokenKind::LeftParen,
            TokenKind::RightParen => TokenKind::RightParen,
            TokenKind::LeftBracket => TokenKind::LeftBracket,
            TokenKind::RightBracket => TokenKind::RightBracket,
            TokenKind::LeftBrace => TokenKind::LeftBrace,
            TokenKind::RightBrace => TokenKind::RightBrace,
            TokenKind::Comma => TokenKind::Comma,
            TokenKind::Dot => TokenKind::Dot,
            TokenKind::Semicolon => TokenKind::Semicolon,
            TokenKind::Colon => TokenKind::Colon,
            TokenKind::Plus => TokenKind::Plus,
            TokenKind::Minus => TokenKind::Minus,
            TokenKind::Asterisk => TokenKind::Asterisk,
            TokenKind::Slash => TokenKind::Slash,
            TokenKind::Equals => TokenKind::Equals,
            TokenKind::EqualsEquals => TokenKind::EqualsEquals,
            TokenKind::NotEquals => TokenKind::NotEquals,
            TokenKind::LessThan => TokenKind::LessThan,
            TokenKind::GreaterThan => TokenKind::GreaterThan,
            TokenKind::LessThanEquals => TokenKind::LessThanEquals,
            TokenKind::GreaterThanEquals => TokenKind::GreaterThanEquals,
            TokenKind::Unknown(c) => TokenKind::Unknown(*c),
            TokenKind::Eof => TokenKind::Eof,
        }
    }
}

/// A lexical unit tagged with its character span and line.
#[derive(Debug, Clone)]
pub struct Token {
    pub kind: TokenKind,
    pub span: Span,
    pub line: usize,
}

} // verus!
