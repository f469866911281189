//! A scan session that hands out each token with its text.

use vstd::prelude::*;
use vstd::string::StringSliceAdditionalSpecFns;
use vstd::utf8::*;
use crate::cursor::Cursor;
use crate::encoding::{
    byte_len, is_ascii_prefix, lemma_ascii_bytes, lemma_byte_len_take, lemma_encoding_injective,
    lemma_encoding_split, spec_char_width,
};
use crate::error::LexError;
use crate::grammar::{lemma_scan_ascii, lemma_scan_len, lemma_skip_skip, scan, Scan};

verus! {

/// The kinds of token that a session hands out. Words are handed out as
/// `Ident`: which of them are reserved is for the consumer to look up.
#[derive(Debug, Clone, Copy, PartialEq, Eq, Structural)]
pub enum TokenKind {
    Bang,
    Colon,
    SemiColon,
    LeftParenthesis,
    RightParenthesis,
    LeftBrace,
    RightBrace,
    Comma,
    Period,
    Minus,
    Plus,
    Star,
    Slash,
    Equal,
    Less,
    Greater,
    EqualEqual,
    LessEqual,
    GreaterEqual,
    BangEqual,
    None_,
    Let,
    And,
    Or,
    If,
    Else,
    Elif,
    For,
    While,
    Function,
    Return,
    Struct,
    Self_,
    String,
    Ident,
    Number,
    Whitespace,
}

/// The kind under which a session hands out a token of the scanner's kind
/// `kind`; `None` for the end of the input, which it does not hand out.
pub open spec fn spec_kind_of(kind: crate::token::TokenKind) -> Option<TokenKind> {
    match kind {
        crate::token::TokenKind::Ident => Some(TokenKind::Ident),
        crate::token::TokenKind::Whitespace => Some(TokenKind::Whitespace),
        crate::token::TokenKind::Literal { .. } => Some(TokenKind::Number),
        crate::token::TokenKind::Bang => Some(TokenKind::Bang),
        crate::token::TokenKind::Colon => Some(TokenKind::Colon),
        crate::token::TokenKind::SemiColon => Some(TokenKind::SemiColon),
        crate::token::TokenKind::OpenParen => Some(TokenKind::LeftParenthesis),
        crate::token::TokenKind::CloseParen => Some(TokenKind::RightParenthesis),
        crate::token::TokenKind::OpenBrace => Some(TokenKind::LeftBrace),
        crate::token::TokenKind::CloseBrace => Some(TokenKind::RightBrace),
        crate::token::TokenKind::Comma => Some(TokenKind::Comma),
        crate::token::TokenKind::Dot => Some(TokenKind::Period),
        crate::token::TokenKind::Minus => Some(TokenKind::Minus),
        crate::token::TokenKind::Plus => Some(TokenKind::Plus),
        crate::token::TokenKind::Star => Some(TokenKind::Star),
        crate::token::TokenKind::Slash => Some(TokenKind::Slash),
        crate::token::TokenKind::Equal => Some(TokenKind::Equal),
        crate::token::TokenKind::Less => Some(TokenKind::Less),
        crate::token::TokenKind::Greater => Some(TokenKind::Greater),
        crate::token::TokenKind::EqualEqual => Some(TokenKind::EqualEqual),
        crate::token::TokenKind::LessEqual => Some(TokenKind::LessEqual),
        crate::token::TokenKind::GreaterEqual => Some(TokenKind::GreaterEqual),
        crate::token::TokenKind::BangEqual => Some(TokenKind::BangEqual),
        crate::token::TokenKind::And => Some(TokenKind::And),
        crate::token::TokenKind::Or => Some(TokenKind::Or),
        crate::token::TokenKind::EoF => None,
    }
}

/// The kind under which a session hands out a token of the scanner's kind
/// `kind`; `None` for the end of the input.
#[verifier::when_used_as_spec(spec_kind_of)]
pub fn kind_of(kind: crate::token::TokenKind) -> (converted: Option<TokenKind>)
    ensures
        converted == spec_kind_of(kind),
{
    match kind {
        crate::token::TokenKind::Ident => Some(TokenKind::Ident),
        crate::token::TokenKind::Whitespace => Some(TokenKind::Whitespace),
        crate::token::TokenKind::Literal { .. } => Some(TokenKind::Number),
        crate::token::TokenKind::Bang => Some(TokenKind::Bang),
        crate::token::TokenKind::Colon => Some(TokenKind::Colon),
        crate::token::TokenKind::SemiColon => Some(TokenKind::SemiColon),
        crate::token::TokenKind::OpenParen => Some(TokenKind::LeftParenthesis),
        crate::token::TokenKind::CloseParen => Some(TokenKind::RightParenthesis),
        crate::token::TokenKind::OpenBrace => Some(TokenKind::LeftBrace),
        crate::token::TokenKind::CloseBrace => Some(TokenKind::RightBrace),
        crate::token::TokenKind::Comma => Some(TokenKind::Comma),
        crate::token::TokenKind::Dot => Some(TokenKind::Period),
        crate::token::TokenKind::Minus => Some(TokenKind::Minus),
        crate::token::TokenKind::Plus => Some(TokenKind::Plus),
        crate::token::TokenKind::Star => Some(TokenKind::Star),
        crate::token::TokenKind::Slash => Some(TokenKind::Slash),
        crate::token::TokenKind::Equal => Some(TokenKind::Equal),
        crate::token::TokenKind::Less => Some(TokenKind::Less),
        crate::token::TokenKind::Greater => Some(TokenKind::Greater),
        crate::token::TokenKind::EqualEqual => Some(TokenKind::EqualEqual),
        crate::token::TokenKind::LessEqual => Some(TokenKind::LessEqual),
        crate::token::TokenKind::GreaterEqual => Some(TokenKind::GreaterEqual),
        crate::token::TokenKind::BangEqual => Some(TokenKind::BangEqual),
        crate::token::TokenKind::And => Some(TokenKind::And),
        crate::token::TokenKind::Or => Some(TokenKind::Or),
        crate::token::TokenKind::EoF => None,
    }
}

impl TokenKind {
    /// The name under which a token of this kind is shown; `None` for the
    /// kinds whose tokens are shown by their text.
    pub open spec fn spec_name(self) -> Option<Seq<char>> {
        match self {
            TokenKind::Colon => Some("COLON"@),
            TokenKind::SemiColon => Some("SEMICOLON"@),
            TokenKind::LeftParenthesis => Some("L_PAREN"@),
            TokenKind::RightParenthesis => Some("R_PAREN"@),
            TokenKind::LeftBrace => Some("L_BRACE"@),
            TokenKind::RightBrace => Some("R_BRACE"@),
            TokenKind::Comma => Some("COMMA"@),
            TokenKind::Period => Some("PERIOD"@),
            TokenKind::Minus => Some("MINUS"@),
            TokenKind::Plus => Some("PLUS"@),
            TokenKind::Star => Some("STAR"@),
            TokenKind::Slash => Some("SLASH"@),
            TokenKind::Equal => Some("EQUAL"@),
            TokenKind::Greater => Some("GREATER"@),
            TokenKind::Less => Some("LESS"@),
            TokenKind::EqualEqual => Some("EQUAL_EQUAL"@),
            TokenKind::LessEqual => Some("LESS_EQUAL"@),
            TokenKind::GreaterEqual => Some("GREATER_EQUAL"@),
            TokenKind::BangEqual => Some("BANG_EQUAL"@),
            TokenKind::None_ => Some("NONE"@),
            TokenKind::Let => Some("LET"@),
            TokenKind::And => Some("AND"@),
            TokenKind::Bang => Some("BANG"@),
            TokenKind::Or => Some("OR"@),
            TokenKind::If => Some("IF"@),
            TokenKind::Else => Some("ELSE"@),
            TokenKind::Elif => Some("ELSE_IF"@),
            TokenKind::For => Some("FOR"@),
            TokenKind::While => Some("WHILE"@),
            TokenKind::Function => Some("FUNCTION"@),
            TokenKind::Return => Some("RETURN"@),
            TokenKind::Struct => Some("STRUCT"@),
            TokenKind::Self_ => Some("SELF"@),
            TokenKind::String => None,
            TokenKind::Ident => None,
            TokenKind::Number => None,
            TokenKind::Whitespace => Some("WHITESPACE"@),
        }
    }

    /// The name under which a token of this kind is shown; `None` for the
    /// kinds whose tokens are shown by their text.
    pub fn name(self) -> (name: Option<&'static str>)
        ensures
            match self.spec_name() {
                Some(text) => name is Some && name.unwrap()@ == text,
                None => name is None,
            },
    {
        match self {
            TokenKind::Colon => Some("COLON"),
            TokenKind::SemiColon => Some("SEMICOLON"),
            TokenKind::LeftParenthesis => Some("L_PAREN"),
            TokenKind::RightParenthesis => Some("R_PAREN"),
            TokenKind::LeftBrace => Some("L_BRACE"),
            TokenKind::RightBrace => Some("R_BRACE"),
            TokenKind::Comma => Some("COMMA"),
            TokenKind::Period => Some("PERIOD"),
            TokenKind::Minus => Some("MINUS"),
            TokenKind::Plus => Some("PLUS"),
            TokenKind::Star => Some("STAR"),
            TokenKind::Slash => Some("SLASH"),
            TokenKind::Equal => Some("EQUAL"),
            TokenKind::Greater => Some("GREATER"),
            TokenKind::Less => Some("LESS"),
            TokenKind::EqualEqual => Some("EQUAL_EQUAL"),
            TokenKind::LessEqual => Some("LESS_EQUAL"),
            TokenKind::GreaterEqual => Some("GREATER_EQUAL"),
            TokenKind::BangEqual => Some("BANG_EQUAL"),
            TokenKind::None_ => Some("NONE"),
            TokenKind::Let => Some("LET"),
            TokenKind::And => Some("AND"),
            TokenKind::Bang => Some("BANG"),
            TokenKind::Or => Some("OR"),
            TokenKind::If => Some("IF"),
            TokenKind::Else => Some("ELSE"),
            TokenKind::Elif => Some("ELSE_IF"),
            TokenKind::For => Some("FOR"),
            TokenKind::While => Some("WHILE"),
            TokenKind::Function => Some("FUNCTION"),
            TokenKind::Return => Some("RETURN"),
            TokenKind::Struct => Some("STRUCT"),
            TokenKind::Self_ => Some("SELF"),
            TokenKind::String => None,
            TokenKind::Ident => None,
            TokenKind::Number => None,
            TokenKind::Whitespace => Some("WHITESPACE"),
        }
    }
}

/// A token with the piece of the source that it spans.
#[derive(Debug, PartialEq, Eq)]
pub struct Token<'de> {
    pub text: &'de str,
    pub token_kind: TokenKind,
}

impl<'de> Token<'de> {
    /// A token of kind `token_kind` that spans `text`.
    #[inline]
    pub fn from(text: &'de str, token_kind: TokenKind) -> (token: Self)
        ensures
            token.text@ == text@,
            token.token_kind == token_kind,
    {
        Self { text, token_kind }
    }

    /// A token of kind `token_kind` that spans `text`, as a session hands
    /// it out.
    #[inline]
    pub fn some_ok_from(text: &'de str, token_kind: TokenKind) -> (item: Option<
        Result<Self, LexError>,
    >)
        ensures
            item is Some,
            item.unwrap() is Ok,
            item.unwrap().unwrap().text@ == text@,
            item.unwrap().unwrap().token_kind == token_kind,
    {
        Some(Ok(Self { text, token_kind }))
    }

    /// How the token is shown: by the name of its kind, or by its text where
    /// the kind has no name. A string literal has no shown form.
    pub fn to_string(&self) -> (shown: String)
        requires
            self.token_kind != TokenKind::String,
        ensures
            shown@ == (match self.token_kind.spec_name() {
                Some(name) => name,
                None => self.text@,
            }),
    {
        match self.token_kind.name() {
            Some(name) => name.to_owned(),
            None => self.text.to_owned(),
        }
    }
}

/// A scan session over one source text. It only moves forward; a new
/// session over the same text starts again at its front.
pub struct Lexer<'de> {
    source_code: &'de str,
    /// Number of bytes of the source that have been read.
    index: usize,
    /// Number of characters of the source that have been read.
    read: Ghost<int>,
}

/// Where a session has read `read` characters of `source` and reads
/// `taken` more, of which all are ASCII characters unless there is just one:
/// the bytes that it has read then.
proof fn lemma_bytes_read(source: Seq<char>, read: int, taken: int)
    requires
        0 <= read,
        0 <= taken,
        read + taken <= source.len(),
        taken == 1 || is_ascii_prefix(source.skip(read), taken),
    ensures
        byte_len(source.take(read + taken)) == byte_len(source.take(read)) + byte_len(
            source.skip(read).take(taken),
        ),
        taken == 1 ==> byte_len(source.skip(read).take(taken)) == spec_char_width(source[read]),
        taken != 1 ==> byte_len(source.skip(read).take(taken)) == taken,
{
    let text = source.skip(read);
    let both = source.take(read + taken);
    lemma_encoding_split(both, read);
    assert(both.take(read) =~= source.take(read));
    assert(both.skip(read) =~= text.take(taken));
    if taken == 1 {
        lemma_byte_len_take(text, 0);
        assert(text.take(0) =~= Seq::<char>::empty());
    } else {
        lemma_ascii_bytes(text, taken);
    }
}

impl<'de> Lexer<'de> {
    /// The whole text of the session.
    pub closed spec fn source(&self) -> Seq<char> {
        self.source_code@
    }

    /// The text that has been read.
    pub closed spec fn consumed(&self) -> Seq<char> {
        self.source_code@.take(self.read@)
    }

    /// The text that has not been read yet.
    pub closed spec fn remaining(&self) -> Seq<char> {
        self.source_code@.skip(self.read@)
    }

    /// Number of bytes that have been read.
    pub closed spec fn position(&self) -> nat {
        self.index as nat
    }

    /// The position stands between two characters of the source, which is
    /// short enough for a token's length to fit in `u32`.
    pub closed spec fn wf(&self) -> bool {
        &&& 0 <= self.read@ <= self.source_code@.len()
        &&& self.index == byte_len(self.source_code@.take(self.read@))
        &&& byte_len(self.source_code@) <= u32::MAX
    }

    /// The source is what has been read followed by what has not, the
    /// position is the length in bytes of what has been read, and the source
    /// is no longer than `u32::MAX` bytes.
    pub proof fn lemma_wf_parts(&self)
        requires
            self.wf(),
        ensures
            self.source() == self.consumed() + self.remaining(),
            self.position() == byte_len(self.consumed()),
            self.position() + byte_len(self.remaining()) == byte_len(self.source()),
            byte_len(self.source()) <= u32::MAX,
    {
        let source = self.source_code@;
        lemma_encoding_split(source, self.read@);
        assert(source =~= source.take(self.read@) + source.skip(self.read@));
    }

    /// A session at the front of `input`.
    #[inline]
    pub fn from(input: &'de str) -> (lexer: Self)
        requires
            byte_len(input@) <= u32::MAX,
        ensures
            lexer.wf(),
            lexer.source() == input@,
            lexer.consumed() == Seq::<char>::empty(),
            lexer.remaining() == input@,
            lexer.position() == 0,
    {
        proof {
            assert(input@.take(0) =~= Seq::<char>::empty());
            assert(input@.skip(0) =~= input@);
        }
        Self { source_code: input, index: 0, read: Ghost(0) }
    }

    /// Hands out the token at the position, with its text, and moves behind
    /// it; `None` at the end of the input. Whitespace is a token like any
    /// other, so that the texts handed out, in order, are the source.
    ///
    /// Where no token starts with the character at the position, the error
    /// says so, and the session moves behind that character.
    pub fn next(&mut self) -> (item: Option<Result<Token<'de>, LexError>>)
        requires
            old(self).wf(),
        ensures
            final(self).wf(),
            final(self).source() == old(self).source(),
            match scan(old(self).remaining()) {
                Scan::End => {
                    &&& item is None
                    &&& final(self).consumed() == old(self).consumed()
                    &&& final(self).remaining() == old(self).remaining()
                    &&& final(self).position() == old(self).position()
                },
                Scan::Token { kind, len } => {
                    &&& 1 <= len <= old(self).remaining().len()
                    &&& item is Some
                    &&& item.unwrap() is Ok
                    &&& item.unwrap().unwrap().text@ == old(self).remaining().take(len as int)
                    &&& byte_len(item.unwrap().unwrap().text@) == len
                    &&& Some(item.unwrap().unwrap().token_kind) == spec_kind_of(kind)
                    &&& old(self).remaining() == item.unwrap().unwrap().text@
                        + final(self).remaining()
                    &&& final(self).consumed() == old(self).consumed()
                        + item.unwrap().unwrap().text@
                    &&& final(self).remaining() == old(self).remaining().skip(len as int)
                    &&& final(self).position() == old(self).position() + len
                },
                Scan::Unrecognized { character } => {
                    &&& item == Some(
                        Err::<Token<'de>, LexError>(
                            LexError::UnrecognizedCharacter {
                                offset: old(self).position() as usize,
                                character,
                            },
                        ),
                    )
                    &&& final(self).consumed() == old(self).consumed().push(character)
                    &&& final(self).remaining() == old(self).remaining().skip(1)
                    &&& final(self).position() == old(self).position() + spec_char_width(
                        character,
                    )
                },
            },
    {
        let ghost source = self.source_code@;
        let ghost read = self.read@;
        let ghost s = source.skip(read);
        proof {
            lemma_encoding_split(source, read);
        }
        let (_, rest) = self.source_code.split_at(self.index);
        proof {
            assert(rest.spec_bytes() =~= encode_utf8(s));
            lemma_encoding_injective(rest@, s);
            lemma_scan_len(s);
            lemma_scan_ascii(s);
        }
        let mut cursor = Cursor::new(rest);
        let result = cursor.next_token();
        let ghost taken: int = match scan(s) {
            Scan::End => 0,
            Scan::Token { len, .. } => len as int,
            Scan::Unrecognized { .. } => 1,
        };
        proof {
            lemma_skip_skip(source, read, taken);
            lemma_bytes_read(source, read, taken);
            lemma_encoding_split(source, read + taken);
            assert(source.take(read + taken) =~= source.take(read) + s.take(taken));
            assert(s =~= s.take(taken) + s.skip(taken));
            if taken == 1 && s.len() > 0 {
                assert(s.take(1) =~= seq![s[0]]);
            }
            if taken == 0 {
                assert(s.take(0) =~= Seq::<char>::empty());
            }
        }
        let start = self.index;
        self.index = start + cursor.offset();
        self.read = Ghost(read + taken);
        match result {
            Ok(token) => match kind_of(token.kind) {
                Some(token_kind) => {
                    proof {
                        lemma_encoding_split(s, taken);
                    }
                    let (text, _) = rest.split_at(token.len as usize);
                    proof {
                        assert(text.spec_bytes() =~= encode_utf8(s.take(taken)));
                        lemma_encoding_injective(text@, s.take(taken));
                    }
                    Token::some_ok_from(text, token_kind)
                },
                None => None,
            },
            Err(error) => Some(
                Err(
                    LexError::UnrecognizedCharacter {
                        offset: start + error.offset(),
                        character: error.character(),
                    },
                ),
            ),
        }
    }
}

} // verus!
