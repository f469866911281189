//! The token data model: what a scan step hands to its consumer.

use vstd::prelude::*;

verus! {

/// Radix of a numeric literal, taken from its prefix.
#[derive(Debug, Clone, Copy, PartialEq, Eq, Structural)]
pub enum Base {
    /// Literal starts with "0b"
    Binary,
    /// Literal starts with "0o"
    Octal,
    /// Literal doesn't have a prefix
    Decimal,
    /// Literal starts with "0x"
    Hexadecimal,
}

impl Base {
    /// The radix as a number.
    pub open spec fn spec_radix(self) -> nat {
        match self {
            Base::Binary => 2,
            Base::Octal => 8,
            Base::Decimal => 10,
            Base::Hexadecimal => 16,
        }
    }

    /// The radix as a number: 2, 8, 10 or 16.
    pub fn radix(self) -> (r: u32)
        ensures
            r == self.spec_radix(),
    {
        match self {
            Base::Binary => 2,
            Base::Octal => 8,
            Base::Decimal => 10,
            Base::Hexadecimal => 16,
        }
    }
}

/// The kinds of numeric literal. A literal that lacks digits is still a
/// token: the flag says so, and whoever reads its value decides what to make
/// of it.
#[derive(Debug, Clone, Copy, PartialEq, Eq, Structural)]
pub enum LiteralKind {
    /// `10`, `0b101`, `0o81`, `0x1A`; `empty_int` is set when a base prefix
    /// was read and no digit came after it.
    Int { base: Base, empty_int: bool },
    /// `10.1`, `1e5`; `empty_exponent` is set when an exponent marker was
    /// read and no digit came after it.
    Float { base: Base, empty_exponent: bool },
}

/// The lexical categories.
#[derive(Debug, Clone, Copy, PartialEq, Eq, Structural)]
pub enum TokenKind {
    /// An identifier or keyword, e.g. 'ident' or 'continue'.
    Ident,
    /// Any whitespace character sequence.
    Whitespace,
    /// Literal values
    Literal { kind: LiteralKind },
    /// '!'
    Bang,
    /// ':'
    Colon,
    /// ';'
    SemiColon,
    /// '('
    OpenParen,
    /// ')'
    CloseParen,
    /// '{'
    OpenBrace,
    /// '}'
    CloseBrace,
    /// ','
    Comma,
    /// '.'
    Dot,
    /// '-'
    Minus,
    /// '+'
    Plus,
    /// '*'
    Star,
    /// '/'
    Slash,
    /// '='
    Equal,
    /// '<'
    Less,
    /// '>'
    Greater,
    /// '=='
    EqualEqual,
    /// '<='
    LessEqual,
    /// '>='
    GreaterEqual,
    /// '!='
    BangEqual,
    /// '&'
    And,
    /// '|'
    Or,
    /// End of input.
    EoF,
}

/// A classified piece of source text: its kind and the number of bytes it spans.
#[derive(Debug, Clone, Copy, PartialEq, Eq, Structural)]
pub struct Token {
    pub kind: TokenKind,
    pub len: u32,
}

impl Token {
    /// A token of kind `kind` that spans `len` bytes.
    #[inline]
    pub fn new(kind: TokenKind, len: u32) -> (token: Self)
        ensures
            token.kind == kind,
            token.len == len,
    {
        Self { kind, len }
    }
}

} // verus!
