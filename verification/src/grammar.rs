//! The lexical grammar, stated over the text alone: which token stands at
//! the front of a text, and how long it is.

use vstd::prelude::*;
use crate::cursor::peek_at;
use crate::encoding::{byte_len, is_ascii_prefix, lemma_ascii_bytes, lemma_ascii_prefix_extend};
use crate::error::LexError;
use crate::token::{Base, LiteralKind, Token, TokenKind};
use crate::{spec_is_id_continue, spec_is_id_start, spec_is_whitespace};

verus! {

/// The sets of characters of which a token takes a whole run.
pub enum CharClass {
    /// Blank, tab, line feed, carriage return.
    Whitespace,
    /// Decimal digits and the separator `_`.
    Decimal,
    /// Hexadecimal digits and the separator `_`.
    Hexadecimal,
    /// Letters, decimal digits and `_`.
    IdContinue,
}

/// Whether `c` is one of `0` to `9`.
pub open spec fn is_decimal_digit(c: char) -> bool {
    '0' <= c <= '9'
}

/// Whether `c` is a decimal digit or one of the letters `a` to `f`, in
/// either case.
pub open spec fn is_hexadecimal_digit(c: char) -> bool {
    is_decimal_digit(c) || 'a' <= c <= 'f' || 'A' <= c <= 'F'
}

impl CharClass {
    /// Whether `c` belongs to the class.
    pub open spec fn contains(self, c: char) -> bool {
        match self {
            CharClass::Whitespace => spec_is_whitespace(c),
            CharClass::Decimal => is_decimal_digit(c) || c == '_',
            CharClass::Hexadecimal => is_hexadecimal_digit(c) || c == '_',
            CharClass::IdContinue => spec_is_id_continue(c),
        }
    }
}

/// Length of the longest prefix of `s` made of characters of `class`.
pub open spec fn run_len(s: Seq<char>, class: CharClass) -> nat
    decreases s.len(),
{
    if s.len() > 0 && class.contains(s[0]) {
        1 + run_len(s.skip(1), class)
    } else {
        0
    }
}

/// Whether one of the first `n` characters of `s` is not the separator `_`.
pub open spec fn has_digit(s: Seq<char>, n: nat) -> bool {
    exists|i: int| 0 <= i < n && #[trigger] s[i] != '_'
}

/// Whether `c` starts the exponent of a number.
pub open spec fn is_exponent_marker(c: char) -> bool {
    c == 'e' || c == 'E'
}

/// The exponent that stands at the front of `s`, the text behind the marker:
/// an optional sign and a run of digits. Gives its length and whether it
/// lacks a digit.
pub open spec fn exponent(s: Seq<char>) -> (nat, bool) {
    let sign: nat = if peek_at(s, 0) == '+' || peek_at(s, 0) == '-' {
        1
    } else {
        0
    };
    let digits = run_len(s.skip(sign as int), CharClass::Decimal);
    (sign + digits, !has_digit(s.skip(sign as int), digits))
}

/// Whether the `.` at the front of `s` belongs to a number that ends just
/// before it: not if a second `.` follows (a range), nor if an identifier
/// starts behind it (a member access).
pub open spec fn starts_fraction(s: Seq<char>) -> bool {
    peek_at(s, 0) == '.' && peek_at(s, 1) != '.' && !spec_is_id_start(peek_at(s, 1))
}

/// Length of the fraction at the front of `s`, the text behind the integer
/// part of a number: the `.` and the digits behind it, of which there may be
/// none.
pub open spec fn fraction_len(s: Seq<char>) -> nat {
    if starts_fraction(s) {
        1 + run_len(s.skip(1), CharClass::Decimal)
    } else {
        0
    }
}

/// What follows the integer part of a number: `s` is the text behind that
/// part. Gives the kind of the whole literal and how many characters of `s`
/// belong to it.
pub open spec fn number_tail(s: Seq<char>, base: Base) -> (LiteralKind, nat) {
    let fraction = fraction_len(s);
    let rest = s.skip(fraction as int);
    if is_exponent_marker(peek_at(rest, 0)) {
        let (len, empty) = exponent(rest.skip(1));
        (LiteralKind::Float { base, empty_exponent: empty }, fraction + 1 + len)
    } else if starts_fraction(s) {
        (LiteralKind::Float { base, empty_exponent: false }, fraction)
    } else {
        (LiteralKind::Int { base, empty_int: false }, 0)
    }
}

/// The base that the prefix character `c` behind a leading `0` selects.
pub open spec fn prefix_base(c: char) -> Option<Base> {
    if c == 'b' {
        Some(Base::Binary)
    } else if c == 'o' {
        Some(Base::Octal)
    } else if c == 'x' {
        Some(Base::Hexadecimal)
    } else {
        None
    }
}

/// The digits that are collected behind the prefix of `base`. Binary and
/// octal literals collect decimal digits: which of them the base admits is
/// left to whoever reads the literal's value.
pub open spec fn digit_class(base: Base) -> CharClass {
    match base {
        Base::Hexadecimal => CharClass::Hexadecimal,
        _ => CharClass::Decimal,
    }
}

/// The numeric literal at the front of `s`, whose first character is a
/// decimal digit: its kind and its length.
pub open spec fn number(s: Seq<char>) -> (LiteralKind, nat)
    recommends
        s.len() > 0,
        is_decimal_digit(s[0]),
{
    let prefix = if s[0] == '0' {
        prefix_base(peek_at(s, 1))
    } else {
        None
    };
    match prefix {
        Some(base) => {
            let digits = run_len(s.skip(2), digit_class(base));
            if has_digit(s.skip(2), digits) {
                let (kind, len) = number_tail(s.skip(2 + digits as int), base);
                (kind, 2 + digits + len)
            } else {
                (LiteralKind::Int { base, empty_int: true }, 2 + digits)
            }
        },
        None => {
            let digits = run_len(s.skip(1), CharClass::Decimal);
            let (kind, len) = number_tail(s.skip(1 + digits as int), Base::Decimal);
            (kind, 1 + digits + len)
        },
    }
}

/// The token kind of a character that is a token by itself wherever it
/// stands, or that starts a two-character operator.
pub open spec fn punctuation(c: char) -> Option<TokenKind> {
    if c == ';' {
        Some(TokenKind::SemiColon)
    } else if c == ':' {
        Some(TokenKind::Colon)
    } else if c == '(' {
        Some(TokenKind::OpenParen)
    } else if c == ')' {
        Some(TokenKind::CloseParen)
    } else if c == '{' {
        Some(TokenKind::OpenBrace)
    } else if c == '}' {
        Some(TokenKind::CloseBrace)
    } else if c == ',' {
        Some(TokenKind::Comma)
    } else if c == '.' {
        Some(TokenKind::Dot)
    } else if c == '!' {
        Some(TokenKind::Bang)
    } else if c == '=' {
        Some(TokenKind::Equal)
    } else if c == '+' {
        Some(TokenKind::Plus)
    } else if c == '-' {
        Some(TokenKind::Minus)
    } else if c == '*' {
        Some(TokenKind::Star)
    } else if c == '/' {
        Some(TokenKind::Slash)
    } else if c == '>' {
        Some(TokenKind::Greater)
    } else if c == '<' {
        Some(TokenKind::Less)
    } else if c == '&' {
        Some(TokenKind::And)
    } else if c == '|' {
        Some(TokenKind::Or)
    } else {
        None
    }
}

/// The two-character operator that `kind` becomes when `=` follows it.
pub open spec fn with_equal(kind: TokenKind) -> Option<TokenKind> {
    match kind {
        TokenKind::Bang => Some(TokenKind::BangEqual),
        TokenKind::Equal => Some(TokenKind::EqualEqual),
        TokenKind::Less => Some(TokenKind::LessEqual),
        TokenKind::Greater => Some(TokenKind::GreaterEqual),
        _ => None,
    }
}

/// What stands at the front of a text.
pub enum Scan {
    /// Nothing: the text is empty.
    End,
    /// A token of `len` characters, each of them one byte long.
    Token { kind: TokenKind, len: nat },
    /// A character with which no token starts.
    Unrecognized { character: char },
}

/// What stands at the front of `s`: the longest token that starts there.
pub open spec fn scan(s: Seq<char>) -> Scan {
    if s.len() == 0 {
        Scan::End
    } else if spec_is_whitespace(s[0]) {
        Scan::Token { kind: TokenKind::Whitespace, len: run_len(s, CharClass::Whitespace) }
    } else if punctuation(s[0]) is Some {
        let single = punctuation(s[0]).unwrap();
        if with_equal(single) is Some && peek_at(s, 1) == '=' {
            Scan::Token { kind: with_equal(single).unwrap(), len: 2 }
        } else {
            Scan::Token { kind: single, len: 1 }
        }
    } else if is_decimal_digit(s[0]) {
        let (kind, len) = number(s);
        Scan::Token { kind: TokenKind::Literal { kind }, len }
    } else if spec_is_id_start(s[0]) {
        Scan::Token { kind: TokenKind::Ident, len: run_len(s, CharClass::IdContinue) }
    } else {
        Scan::Unrecognized { character: s[0] }
    }
}

/// `tokens` followed by the tokens of `rest`, or the error that `rest` is.
pub open spec fn after(tokens: Seq<Token>, rest: Result<Seq<Token>, LexError>) -> Result<
    Seq<Token>,
    LexError,
> {
    match rest {
        Ok(more) => Ok(tokens + more),
        Err(error) => Err(error),
    }
}

/// The tokens of `s`, in order, where `s` is the part of an input that
/// starts `start` bytes into it; or the first error, if a character of `s`
/// starts no token.
pub open spec fn lex_from(s: Seq<char>, start: nat) -> Result<Seq<Token>, LexError>
    decreases s.len(),
    via lex_from_decreases
{
    match scan(s) {
        Scan::End => Ok(Seq::empty()),
        Scan::Unrecognized { character } => Err(
            LexError::UnrecognizedCharacter { offset: start as usize, character },
        ),
        Scan::Token { kind, len } => after(
            seq![Token { kind, len: len as u32 }],
            lex_from(s.skip(len as int), start + len),
        ),
    }
}

#[via_fn]
proof fn lex_from_decreases(s: Seq<char>, start: nat) {
    lemma_scan_len(s);
}

/// The tokens of the input `s`, or the first error.
pub open spec fn lex(s: Seq<char>) -> Result<Seq<Token>, LexError> {
    lex_from(s, 0)
}

/// A run of `class` is as long as the text at most, holds only characters of
/// `class`, and ends where the text ends or another character stands.
pub proof fn lemma_run_len(s: Seq<char>, class: CharClass)
    ensures
        run_len(s, class) <= s.len(),
        forall|i: int| 0 <= i < run_len(s, class) ==> class.contains(#[trigger] s[i]),
        run_len(s, class) < s.len() ==> !class.contains(s[run_len(s, class) as int]),
    decreases s.len(),
{
    if s.len() > 0 && class.contains(s[0]) {
        let t = s.skip(1);
        lemma_run_len(t, class);
        assert forall|i: int| 0 <= i < run_len(s, class) implies class.contains(
            #[trigger] s[i],
        ) by {
            if i > 0 {
                assert(s[i] == t[i - 1]);
            }
        }
        if run_len(s, class) < s.len() {
            assert(s[run_len(s, class) as int] == t[run_len(t, class) as int]);
        }
    }
}

/// A prefix of `n` characters of `class`, behind which the text ends or
/// another character stands, is the run of `class`.
pub proof fn lemma_run_len_unique(s: Seq<char>, class: CharClass, n: int)
    requires
        0 <= n <= s.len(),
        forall|i: int| 0 <= i < n ==> class.contains(#[trigger] s[i]),
        n < s.len() ==> !class.contains(s[n]),
    ensures
        run_len(s, class) == n,
    decreases n,
{
    if n > 0 {
        let t = s.skip(1);
        assert(class.contains(s[0]));
        assert forall|i: int| 0 <= i < n - 1 implies class.contains(#[trigger] t[i]) by {
            assert(t[i] == s[i + 1]);
        }
        if n < s.len() {
            assert(t[n - 1] == s[n]);
        }
        lemma_run_len_unique(t, class, n - 1);
    }
}

/// The characters of a run are ASCII characters.
pub proof fn lemma_run_ascii(s: Seq<char>, class: CharClass)
    ensures
        is_ascii_prefix(s, run_len(s, class) as int),
{
    lemma_run_len(s, class);
    assert forall|i: int| 0 <= i < run_len(s, class) implies #[trigger] s[i] <= '\x7f' by {
        assert(class.contains(s[i]));
    }
}

/// Dropping `a` characters and then `b` more drops `a + b` of them.
pub proof fn lemma_skip_skip(s: Seq<char>, a: int, b: int)
    requires
        0 <= a,
        0 <= b,
        a + b <= s.len(),
    ensures
        s.skip(a).skip(b) == s.skip(a + b),
{
    assert(s.skip(a).skip(b) =~= s.skip(a + b));
}

/// An exponent is no longer than the text it stands in.
pub proof fn lemma_exponent_len(s: Seq<char>)
    ensures
        exponent(s).0 <= s.len(),
{
    let sign: int = if peek_at(s, 0) == '+' || peek_at(s, 0) == '-' {
        1
    } else {
        0
    };
    lemma_run_len(s.skip(sign), CharClass::Decimal);
}

/// A fraction is no longer than the text it stands in.
pub proof fn lemma_fraction_len(s: Seq<char>)
    ensures
        fraction_len(s) <= s.len(),
{
    if starts_fraction(s) {
        lemma_run_len(s.skip(1), CharClass::Decimal);
    }
}

/// The tail of a number is no longer than the text it stands in.
pub proof fn lemma_number_tail_len(s: Seq<char>, base: Base)
    ensures
        number_tail(s, base).1 <= s.len(),
{
    lemma_fraction_len(s);
    let rest = s.skip(fraction_len(s) as int);
    if is_exponent_marker(peek_at(rest, 0)) {
        lemma_exponent_len(rest.skip(1));
    }
}

/// The characters of an exponent are ASCII characters.
pub proof fn lemma_exponent_ascii(s: Seq<char>)
    ensures
        is_ascii_prefix(s, exponent(s).0 as int),
{
    let sign: int = if peek_at(s, 0) == '+' || peek_at(s, 0) == '-' {
        1
    } else {
        0
    };
    lemma_run_len(s.skip(sign), CharClass::Decimal);
    lemma_run_ascii(s.skip(sign), CharClass::Decimal);
    lemma_ascii_prefix_extend(s, sign, run_len(s.skip(sign), CharClass::Decimal) as int);
}

/// The characters of the tail of a number are ASCII characters.
pub proof fn lemma_number_tail_ascii(s: Seq<char>, base: Base)
    ensures
        is_ascii_prefix(s, number_tail(s, base).1 as int),
{
    let fraction = fraction_len(s) as int;
    lemma_fraction_len(s);
    if starts_fraction(s) {
        lemma_run_ascii(s.skip(1), CharClass::Decimal);
        lemma_ascii_prefix_extend(s, 1, fraction - 1);
    }
    let rest = s.skip(fraction);
    if is_exponent_marker(peek_at(rest, 0)) {
        let len = exponent(rest.skip(1)).0 as int;
        lemma_exponent_len(rest.skip(1));
        lemma_exponent_ascii(rest.skip(1));
        lemma_ascii_prefix_extend(rest, 1, len);
        lemma_ascii_prefix_extend(s, fraction, 1 + len);
    }
}

/// The characters of a number are ASCII characters.
pub proof fn lemma_number_ascii(s: Seq<char>)
    requires
        s.len() > 0,
        is_decimal_digit(s[0]),
    ensures
        is_ascii_prefix(s, number(s).1 as int),
{
    let prefix = if s[0] == '0' {
        prefix_base(peek_at(s, 1))
    } else {
        None
    };
    match prefix {
        Some(base) => {
            let digits = run_len(s.skip(2), digit_class(base)) as int;
            lemma_run_len(s.skip(2), digit_class(base));
            lemma_run_ascii(s.skip(2), digit_class(base));
            lemma_ascii_prefix_extend(s, 2, digits);
            if has_digit(s.skip(2), digits as nat) {
                lemma_number_tail_len(s.skip(2 + digits), base);
                lemma_number_tail_ascii(s.skip(2 + digits), base);
                lemma_ascii_prefix_extend(
                    s,
                    2 + digits,
                    number_tail(s.skip(2 + digits), base).1 as int,
                );
            }
        },
        None => {
            let digits = run_len(s.skip(1), CharClass::Decimal) as int;
            lemma_run_len(s.skip(1), CharClass::Decimal);
            lemma_run_ascii(s.skip(1), CharClass::Decimal);
            lemma_ascii_prefix_extend(s, 1, digits);
            lemma_number_tail_len(s.skip(1 + digits), Base::Decimal);
            lemma_number_tail_ascii(s.skip(1 + digits), Base::Decimal);
            lemma_ascii_prefix_extend(
                s,
                1 + digits,
                number_tail(s.skip(1 + digits), Base::Decimal).1 as int,
            );
        },
    }
}

/// A number is at least one character long and no longer than the text it
/// stands in.
pub proof fn lemma_number_len(s: Seq<char>)
    requires
        s.len() > 0,
    ensures
        1 <= number(s).1 <= s.len(),
{
    let prefix = if s[0] == '0' {
        prefix_base(peek_at(s, 1))
    } else {
        None
    };
    match prefix {
        Some(base) => {
            let digits = run_len(s.skip(2), digit_class(base));
            lemma_run_len(s.skip(2), digit_class(base));
            lemma_number_tail_len(s.skip(2 + digits as int), base);
        },
        None => {
            let digits = run_len(s.skip(1), CharClass::Decimal);
            lemma_run_len(s.skip(1), CharClass::Decimal);
            lemma_number_tail_len(s.skip(1 + digits as int), Base::Decimal);
        },
    }
}

/// A token is at least one character long and no longer than the text.
pub proof fn lemma_scan_len(s: Seq<char>)
    ensures
        scan(s) is Token ==> 1 <= scan(s)->Token_len <= s.len(),
{
    if s.len() > 0 {
        if spec_is_whitespace(s[0]) {
            lemma_run_len(s, CharClass::Whitespace);
        } else if punctuation(s[0]) is Some {
        } else if is_decimal_digit(s[0]) {
            lemma_number_len(s);
        } else if spec_is_id_start(s[0]) {
            lemma_run_len(s, CharClass::IdContinue);
        }
    }
}

/// The characters of a token are ASCII characters, so that the token is as
/// many bytes long as it has characters.
pub proof fn lemma_scan_ascii(s: Seq<char>)
    ensures
        scan(s) is Token ==> is_ascii_prefix(s, scan(s)->Token_len as int) && byte_len(
            s.take(scan(s)->Token_len as int),
        ) == scan(s)->Token_len,
{
    lemma_scan_len(s);
    if s.len() > 0 {
        if spec_is_whitespace(s[0]) {
            lemma_run_ascii(s, CharClass::Whitespace);
        } else if punctuation(s[0]) is Some {
        } else if is_decimal_digit(s[0]) {
            lemma_number_ascii(s);
        } else if spec_is_id_start(s[0]) {
            lemma_run_ascii(s, CharClass::IdContinue);
        }
    }
    if scan(s) is Token {
        lemma_ascii_bytes(s, scan(s)->Token_len as int);
    }
}

} // verus!
