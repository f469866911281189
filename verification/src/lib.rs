//! A lexical scanner for a small procedural language: it turns source text
//! into a flat sequence of typed tokens with their byte lengths.

use vstd::prelude::*;

pub mod cursor;
pub mod encoding;
pub mod error;
pub mod grammar;
pub mod lex;
pub mod scanner;
pub mod theorems;
pub mod token;

pub use cursor::Cursor;
pub use error::LexError;
pub use token::{Base, LiteralKind, Token, TokenKind};

use crate::encoding::byte_len;
use crate::grammar::{after, lemma_scan_len, lex, lex_from};
use vstd::std_specs::iter::IteratorSpec;

verus! {

/// Checks if `c` is whitespace.
pub open spec fn spec_is_whitespace(c: char) -> bool {
    c == ' ' || c == '\t' || c == '\n' || c == '\r'
}

/// Checks if `c` is whitespace.
#[inline]
#[verifier::when_used_as_spec(spec_is_whitespace)]
pub fn is_whitespace(c: char) -> (b: bool)
    ensures
        b == spec_is_whitespace(c),
{
    c == ' ' || c == '\t' || c == '\n' || c == '\r'
}

/// Checks if `c` is a valid starting character of an identifier.
pub open spec fn spec_is_id_start(c: char) -> bool {
    c == '_' || 'a' <= c <= 'z' || 'A' <= c <= 'Z'
}

/// Checks if `c` is a valid starting character of an identifier.
///
/// Valid characters are ASCII letters and `_`.
#[inline]
#[verifier::when_used_as_spec(spec_is_id_start)]
pub fn is_id_start(c: char) -> (b: bool)
    ensures
        b == spec_is_id_start(c),
{
    c == '_' || ('a' <= c && c <= 'z') || ('A' <= c && c <= 'Z')
}

/// Checks if `c` is a valid non-starting character of an identifier.
pub open spec fn spec_is_id_continue(c: char) -> bool {
    spec_is_id_start(c) || '0' <= c <= '9'
}

/// Checks if `c` is a valid non-starting character of an identifier.
///
/// Valid characters are ASCII letters, digits and `_`.
#[inline]
#[verifier::when_used_as_spec(spec_is_id_continue)]
pub fn is_id_continue(c: char) -> (b: bool)
    ensures
        b == spec_is_id_continue(c),
{
    is_id_start(c) || ('0' <= c && c <= '9')
}

/// Whether `s` is a valid identifier.
pub open spec fn spec_is_ident(s: Seq<char>) -> bool {
    &&& s.len() > 0
    &&& spec_is_id_start(s[0])
    &&& forall|i: int| 1 <= i < s.len() ==> spec_is_id_continue(#[trigger] s[i])
}

/// Checks whether `string` is a valid identifier.
///
/// A valid identifier can start with a letter or a `_`, and continues with
/// letters, numbers or `_`.
pub fn is_ident(string: &str) -> (b: bool)
    ensures
        b == spec_is_ident(string@),
{
    broadcast use vstd::string::group_string_axioms;

    let mut chars = string.chars();
    let start = match chars.next() {
        Some(start) => start,
        None => {
            return false;
        },
    };
    if !is_id_start(start) {
        return false;
    }
    let ghost s = string@;
    let ghost mut n: int = 1;
    loop
        invariant
            1 <= n <= s.len(),
            s == string@,
            chars.remaining() == s.skip(n),
            spec_is_id_start(s[0]),
            forall|i: int| 1 <= i < n ==> spec_is_id_continue(#[trigger] s[i]),
        decreases s.len() - n,
    {
        match chars.next() {
            Some(c) => {
                if !is_id_continue(c) {
                    assert(s[n] == c);
                    return false;
                }
            },
            None => {
                return true;
            },
        }
        proof {
            assert(s.skip(n).skip(1) =~= s.skip(n + 1));
            n = n + 1;
        }
    }
}

/// Scans the whole of `input`: gives its tokens in order, or the first
/// error, at which the scan stops.
pub fn tokenize(input: &str) -> (result: Result<Vec<Token>, LexError>)
    requires
        byte_len(input@) <= u32::MAX,
    ensures
        match lex(input@) {
            Ok(tokens) => result is Ok && result.unwrap()@ == tokens,
            Err(error) => result == Err::<Vec<Token>, LexError>(error),
        },
{
    let mut cursor = Cursor::new(input);
    let mut tokens: Vec<Token> = Vec::new();
    loop
        invariant
            cursor.wf(),
            cursor.token_len() == 0,
            lex(input@) == after(tokens@, lex_from(cursor.remaining(), cursor.token_start())),
        decreases cursor.remaining().len(),
    {
        let ghost rest = cursor.remaining();
        proof {
            lemma_scan_len(rest);
        }
        let token = match cursor.next_token() {
            Ok(token) => token,
            Err(error) => {
                return Err(error);
            },
        };
        match token.kind {
            TokenKind::EoF => {
                assert(tokens@ + Seq::<Token>::empty() =~= tokens@);
                return Ok(tokens);
            },
            _ => {},
        }
        let ghost before = tokens@;
        tokens.push(token);
        proof {
            let more = lex_from(cursor.remaining(), cursor.token_start());
            if more is Ok {
                assert(before + (seq![token] + more.unwrap()) =~= tokens@ + more.unwrap());
            }
        }
    }
}

} // verus!
