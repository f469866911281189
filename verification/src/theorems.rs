//! What holds of every scan.

use vstd::prelude::*;
use vstd::utf8::*;
use crate::cursor::peek_at;
use crate::encoding::{byte_len, lemma_encoding_split};
use crate::error::LexError;
use crate::grammar::{
    after, exponent, is_decimal_digit, is_exponent_marker, lemma_run_len, lemma_scan_ascii,
    lemma_scan_len, lex_from, number_tail, run_len, scan, CharClass, Scan,
};
use crate::token::{Base, LiteralKind, Token, TokenKind};
use crate::{spec_is_id_start, spec_is_whitespace};

verus! {

/// The pieces of `text` that `tokens` span, one behind the other: each
/// token's piece starts where the piece of the token before it ends, the
/// first at the start of `text`.
pub open spec fn pieces<T>(text: Seq<T>, tokens: Seq<Token>) -> Seq<T>
    decreases tokens.len(),
{
    if tokens.len() == 0 {
        Seq::empty()
    } else {
        text.take(tokens[0].len as int) + pieces(text.skip(tokens[0].len as int), tokens.skip(1))
    }
}

/// The lengths of `tokens`, added up.
pub open spec fn total_len(tokens: Seq<Token>) -> nat
    decreases tokens.len(),
{
    if tokens.len() == 0 {
        0
    } else {
        tokens[0].len as nat + total_len(tokens.skip(1))
    }
}

/// The tokens of a text cover it without gaps or overlaps: their pieces,
/// put together in order, are the text, in characters and in bytes; their
/// lengths add up to the text's length in bytes; and none of them is empty.
pub proof fn theorem_tokens_cover_input(s: Seq<char>, start: nat)
    requires
        byte_len(s) <= u32::MAX,
        lex_from(s, start) is Ok,
    ensures
        pieces(s, lex_from(s, start).unwrap()) == s,
        pieces(encode_utf8(s), lex_from(s, start).unwrap()) == encode_utf8(s),
        total_len(lex_from(s, start).unwrap()) == byte_len(s),
        forall|i: int|
            0 <= i < lex_from(s, start).unwrap().len() ==> (#[trigger] lex_from(
                s,
                start,
            ).unwrap()[i]).len >= 1,
    decreases s.len(),
{
    let tokens = lex_from(s, start).unwrap();
    match scan(s) {
        Scan::Token { kind, len } => {
            let n = len as int;
            let rest = s.skip(n);
            let more = lex_from(rest, start + len).unwrap();
            lemma_scan_len(s);
            lemma_scan_ascii(s);
            lemma_encoding_split(s, n);
            theorem_tokens_cover_input(rest, start + len);
            assert(tokens == seq![Token { kind, len: len as u32 }] + more);
            assert(tokens.skip(1) =~= more);
            assert(s.take(n) + rest =~= s);
            let bytes = encode_utf8(s);
            assert(bytes.take(n) =~= encode_utf8(s.take(n)));
            assert(bytes.skip(n) =~= encode_utf8(rest));
            assert forall|i: int| 0 <= i < tokens.len() implies (#[trigger] tokens[i]).len
                >= 1 by {
                if i > 0 {
                    assert(tokens[i] == more[i - 1]);
                }
            }
        },
        _ => {
            assert(s.len() == 0);
            assert(encode_utf8(s) =~= Seq::<u8>::empty());
            assert(pieces(s, tokens) =~= s);
        },
    }
}

/// A comparison operator and the `=` behind it are one token of two
/// characters, never two tokens of one.
pub proof fn theorem_comparison_takes_equal(s: Seq<char>)
    requires
        s.len() >= 2,
        s[1] == '=',
    ensures
        s[0] == '<' ==> scan(s) == (Scan::Token { kind: TokenKind::LessEqual, len: 2 }),
        s[0] == '>' ==> scan(s) == (Scan::Token { kind: TokenKind::GreaterEqual, len: 2 }),
        s[0] == '=' ==> scan(s) == (Scan::Token { kind: TokenKind::EqualEqual, len: 2 }),
        s[0] == '!' ==> scan(s) == (Scan::Token { kind: TokenKind::BangEqual, len: 2 }),
{
}

/// A comparison operator behind which no `=` stands is a token of one
/// character, and the scan goes on with the character behind it.
pub proof fn theorem_comparison_alone(s: Seq<char>, start: nat)
    requires
        s.len() >= 1,
        peek_at(s, 1) != '=',
    ensures
        s[0] == '<' ==> scan(s) == (Scan::Token { kind: TokenKind::Less, len: 1 }),
        s[0] == '>' ==> scan(s) == (Scan::Token { kind: TokenKind::Greater, len: 1 }),
        s[0] == '=' ==> scan(s) == (Scan::Token { kind: TokenKind::Equal, len: 1 }),
        s[0] == '!' ==> scan(s) == (Scan::Token { kind: TokenKind::Bang, len: 1 }),
        s[0] == '<' ==> lex_from(s, start) == after(
            seq![Token { kind: TokenKind::Less, len: 1 }],
            lex_from(s.skip(1), start + 1),
        ),
{
}

/// A run of whitespace is one token: it holds the whitespace up to the next
/// character that is none, or to the end of the text, so that no whitespace
/// token follows another.
pub proof fn theorem_whitespace_is_one_token(s: Seq<char>)
    requires
        s.len() >= 1,
        spec_is_whitespace(s[0]),
    ensures
        scan(s) == (Scan::Token {
            kind: TokenKind::Whitespace,
            len: run_len(s, CharClass::Whitespace),
        }),
        1 <= run_len(s, CharClass::Whitespace) <= s.len(),
        forall|i: int|
            0 <= i < run_len(s, CharClass::Whitespace) ==> spec_is_whitespace(#[trigger] s[i]),
        !spec_is_whitespace(peek_at(s, run_len(s, CharClass::Whitespace) as int)),
        !(scan(s.skip(run_len(s, CharClass::Whitespace) as int)) matches Scan::Token {
            kind: TokenKind::Whitespace,
            ..
        }),
{
    lemma_run_len(s, CharClass::Whitespace);
    let n = run_len(s, CharClass::Whitespace) as int;
    assert forall|i: int| 0 <= i < n implies spec_is_whitespace(#[trigger] s[i]) by {
        assert(CharClass::Whitespace.contains(s[i]));
    }
    if n < s.len() {
        assert(!CharClass::Whitespace.contains(s[n]));
        assert(s.skip(n)[0] == s[n]);
    }
}

/// No two neighbours among the tokens of a text are both whitespace: each
/// whitespace token holds a whole run.
pub proof fn theorem_no_whitespace_neighbours(s: Seq<char>, start: nat)
    requires
        lex_from(s, start) is Ok,
    ensures
        forall|i: int|
            0 <= i && i + 1 < lex_from(s, start).unwrap().len() && (#[trigger] lex_from(
                s,
                start,
            ).unwrap()[i]).kind == TokenKind::Whitespace ==> lex_from(s, start).unwrap()[i
                + 1].kind != TokenKind::Whitespace,
    decreases s.len(),
{
    let tokens = lex_from(s, start).unwrap();
    match scan(s) {
        Scan::Token { kind, len } => {
            let rest = s.skip(len as int);
            let more = lex_from(rest, start + len).unwrap();
            lemma_scan_len(s);
            theorem_no_whitespace_neighbours(rest, start + len);
            assert(tokens == seq![Token { kind, len: len as u32 }] + more);
            if kind == TokenKind::Whitespace {
                theorem_whitespace_is_one_token(s);
            }
            assert forall|i: int|
                0 <= i && i + 1 < tokens.len() && (#[trigger] tokens[i]).kind
                    == TokenKind::Whitespace implies tokens[i + 1].kind
                != TokenKind::Whitespace by {
                assert(tokens[i + 1] == more[i]);
                if i > 0 {
                    assert(tokens[i] == more[i - 1]);
                } else {
                    assert(more.len() > 0);
                    assert(scan(rest) is Token);
                    assert(more[0].kind == scan(rest)->Token_kind);
                }
            }
        },
        _ => {},
    }
}

/// The tokens that `tokenize` returns for an input of at most `u32::MAX`
/// bytes, the longest that it takes: they cover the input without gaps or
/// overlaps, in characters and in bytes, none of them is empty, and no two
/// neighbours are both whitespace.
pub proof fn theorem_tokenize_covers_input(input: &str, tokens: Vec<Token>)
    requires
        byte_len(input@) <= u32::MAX,
        call_ensures(crate::tokenize, (input,), Ok::<Vec<Token>, LexError>(tokens)),
    ensures
        pieces(input@, tokens@) == input@,
        pieces(encode_utf8(input@), tokens@) == encode_utf8(input@),
        total_len(tokens@) == byte_len(input@),
        forall|i: int| 0 <= i < tokens@.len() ==> (#[trigger] tokens@[i]).len >= 1,
        forall|i: int|
            0 <= i && i + 1 < tokens@.len() && (#[trigger] tokens@[i]).kind
                == TokenKind::Whitespace ==> tokens@[i + 1].kind != TokenKind::Whitespace,
{
    theorem_tokens_cover_input(input@, 0);
    theorem_no_whitespace_neighbours(input@, 0);
}

/// A `.` behind the integer part of a number is left for the next token
/// where a second `.` follows it (a range) or an identifier starts behind it
/// (a member access): the number is an integer that ends before the `.`.
pub proof fn theorem_dot_is_left_to_the_next_token(s: Seq<char>, base: Base)
    requires
        peek_at(s, 0) == '.',
        peek_at(s, 1) == '.' || spec_is_id_start(peek_at(s, 1)),
    ensures
        number_tail(s, base) == (LiteralKind::Int { base, empty_int: false }, 0nat),
{
    assert(s.skip(0) =~= s);
}

/// A `.` behind the integer part of a number belongs to the number where
/// neither a second `.` nor an identifier follows it, also where no digit
/// does: the number is a float.
pub proof fn theorem_dot_makes_a_float(s: Seq<char>, base: Base)
    requires
        peek_at(s, 0) == '.',
        peek_at(s, 1) != '.',
        !spec_is_id_start(peek_at(s, 1)),
    ensures
        number_tail(s, base).0 is Float,
        number_tail(s, base).1 >= 1,
        !is_decimal_digit(peek_at(s, 1)) ==> number_tail(s, base) == (
            LiteralKind::Float { base, empty_exponent: false },
            1nat,
        ),
{
    if !is_decimal_digit(peek_at(s, 1)) {
        if s.len() > 1 {
            assert(s.skip(1)[0] == s[1]);
        }
        assert(run_len(s.skip(1), CharClass::Decimal) == 0);
    }
}

/// An exponent marker behind the integer part of a number makes the number
/// a float, with or without a fraction before it; the float's flag is set
/// exactly when no digit follows the marker and its sign.
pub proof fn theorem_exponent_makes_a_float(s: Seq<char>, base: Base)
    requires
        is_exponent_marker(peek_at(s, 0)),
    ensures
        number_tail(s, base) == (
            LiteralKind::Float { base, empty_exponent: exponent(s.skip(1)).1 },
            1 + exponent(s.skip(1)).0,
        ),
{
    assert(s.skip(0) =~= s);
}

/// The tokens that a scan of `s` hands out before it ends or fails.
pub open spec fn tokens_before_error(s: Seq<char>) -> Seq<Token>
    decreases s.len(),
    via tokens_before_error_decreases
{
    match scan(s) {
        Scan::Token { kind, len } => seq![Token { kind, len: len as u32 }] + tokens_before_error(
            s.skip(len as int),
        ),
        _ => Seq::empty(),
    }
}

#[via_fn]
proof fn tokens_before_error_decreases(s: Seq<char>) {
    lemma_scan_len(s);
}

/// A failed scan names the character at which it failed and the place of
/// that character: the tokens handed out before cover the text up to it,
/// that text is as many bytes long as the error's offset says, and no token
/// starts with the character.
pub proof fn theorem_error_is_located(s: Seq<char>, start: nat)
    requires
        start + byte_len(s) <= u32::MAX,
        lex_from(s, start) is Err,
    ensures
        ({
            let error = lex_from(s, start)->Err_0;
            let before = tokens_before_error(s);
            let k = error.spec_offset() - start;
            &&& 0 <= k < s.len()
            &&& k == total_len(before)
            &&& pieces(s, before) == s.take(k)
            &&& byte_len(s.take(k)) == k
            &&& s[k] == error.spec_character()
            &&& scan(s.skip(k)) == (Scan::Unrecognized { character: s[k] })
        }),
    decreases s.len(),
{
    let before = tokens_before_error(s);
    match scan(s) {
        Scan::Token { kind, len } => {
            let n = len as int;
            let rest = s.skip(n);
            lemma_scan_len(s);
            lemma_scan_ascii(s);
            lemma_encoding_split(s, n);
            theorem_error_is_located(rest, start + len);
            let error = lex_from(s, start)->Err_0;
            let k = error.spec_offset() - start;
            let more = tokens_before_error(rest);
            assert(before.skip(1) =~= more);
            assert(s.take(n) + rest.take(k - n) =~= s.take(k));
            assert(rest.skip(k - n) =~= s.skip(k));
            lemma_encoding_split(s.take(k), n);
            assert(s.take(k).take(n) =~= s.take(n));
            assert(s.take(k).skip(n) =~= rest.take(k - n));
        },
        Scan::Unrecognized { character } => {
            assert(s.take(0) =~= Seq::<char>::empty());
            assert(s.skip(0) =~= s);
            assert(pieces(s, before) =~= s.take(0));
        },
        Scan::End => {},
    }
}

/// Two scans of one input give the same tokens, or the same error.
pub proof fn theorem_scans_agree(
    input: &str,
    first: Result<Vec<Token>, LexError>,
    second: Result<Vec<Token>, LexError>,
)
    requires
        call_ensures(crate::tokenize, (input,), first),
        call_ensures(crate::tokenize, (input,), second),
    ensures
        first is Ok <==> second is Ok,
        first is Ok ==> first.unwrap()@ == second.unwrap()@,
        first is Err ==> first->Err_0 == second->Err_0,
{
}

} // verus!
