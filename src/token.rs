use vstd::prelude::*;

use crate::loc::Loc;

verus! {

/// What a token is.
#[derive(Debug, Clone, PartialEq, Eq, Hash)]
pub enum TokenKind {
    Number(usize),
    Identifier(String),
    Int,
    If,
    Return,
    LBrace,
    RBrace,
    LParen,
    RParen,
    Semicolon,
    Assignment,
    Plus,
    Minus,
    Asterisk,
    Slash,
}

/// A token with the span of source text it was read from.
#[derive(Debug, Clone, PartialEq, Eq, Hash)]
pub struct Token {
    pub value: TokenKind,
    pub loc: Loc,
}

impl TokenKind {
    /// A kind that carries no payload: a keyword or a punctuation mark.
    pub open spec fn is_mark(&self) -> bool {
        !(self is Number) && !(self is Identifier)
    }

    /// Whether `self` is the payload-free kind `k`; the parser tests tokens
    /// against keywords and punctuation only.
    pub fn is_kind(&self, k: &TokenKind) -> (r: bool)
        requires
            k.is_mark(),
        ensures
            r == (*self == *k),
    {
        match k {
            TokenKind::Int => matches!(self, TokenKind::Int),
            TokenKind::If => matches!(self, TokenKind::If),
            TokenKind::Return => matches!(self, TokenKind::Return),
            TokenKind::LBrace => matches!(self, TokenKind::LBrace),
            TokenKind::RBrace => matches!(self, TokenKind::RBrace),
            TokenKind::LParen => matches!(self, TokenKind::LParen),
            TokenKind::RParen => matches!(self, TokenKind::RParen),
            TokenKind::Semicolon => matches!(self, TokenKind::Semicolon),
            TokenKind::Assignment => matches!(self, TokenKind::Assignment),
            TokenKind::Plus => matches!(self, TokenKind::Plus),
            TokenKind::Minus => matches!(self, TokenKind::Minus),
            TokenKind::Asterisk => matches!(self, TokenKind::Asterisk),
            TokenKind::Slash => matches!(self, TokenKind::Slash),
            _ => false,
        }
    }
}

impl Token {
    /// A copy of the token.
    pub fn duplicate(&self) -> (r: Token)
        ensures
            r == *self,
    {
        let value = match &self.value {
            TokenKind::Number(n) => TokenKind::Number(*n),
            TokenKind::Identifier(s) => TokenKind::Identifier(s.clone()),
            TokenKind::Int => TokenKind::Int,
            TokenKind::If => TokenKind::If,
            TokenKind::Return => TokenKind::Return,
            TokenKind::LBrace => TokenKind::LBrace,
            TokenKind::RBrace => TokenKind::RBrace,
            TokenKind::LParen => TokenKind::LParen,
            TokenKind::RParen => TokenKind::RParen,
            TokenKind::Semicolon => TokenKind::Semicolon,
            TokenKind::Assignment => TokenKind::Assignment,
            TokenKind::Plus => TokenKind::Plus,
            TokenKind::Minus => TokenKind::Minus,
            TokenKind::Asterisk => TokenKind::Asterisk,
            TokenKind::Slash => TokenKind::Slash,
        };
        Token { value, loc: self.loc }
    }
}

} // verus!
