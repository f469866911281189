//! The scanner: the steps that read one token from a cursor.

use vstd::prelude::*;
use crate::cursor::{peek_at, Cursor};
use crate::encoding::{byte_len, lemma_ascii_bytes, spec_char_width};
use crate::error::LexError;
use crate::grammar::{
    digit_class, exponent, fraction_len, has_digit, is_decimal_digit, lemma_exponent_len,
    lemma_fraction_len, lemma_number_tail_len, lemma_run_ascii, lemma_run_len,
    lemma_run_len_unique, lemma_scan_ascii, lemma_scan_len, lemma_skip_skip, number, number_tail, prefix_base,
    run_len, scan, starts_fraction, CharClass, Scan,
};
use crate::token::{Base, LiteralKind, Token, TokenKind};
use crate::{is_id_continue, is_id_start, is_whitespace};

verus! {

impl<'a> Cursor<'a> {
    /// Consumes the rest of a whitespace run.
    #[inline]
    pub fn whitespace(&mut self) -> (kind: TokenKind)
        requires
            old(self).wf(),
        ensures
            final(self).wf(),
            final(self).token_start() == old(self).token_start(),
            kind == TokenKind::Whitespace,
            final(self).remaining() == old(self).remaining().skip(
                run_len(old(self).remaining(), CharClass::Whitespace) as int,
            ),
            final(self).token_len() == old(self).token_len() + run_len(
                old(self).remaining(),
                CharClass::Whitespace,
            ),
    {
        self.next_while(is_whitespace);
        proof {
            let s = old(self).remaining();
            let n = choose|n: int|
                {
                    &&& 0 <= n <= s.len()
                    &&& #[trigger] s.skip(n) == self.remaining()
                    &&& self.token_len() == old(self).token_len() + byte_len(s.take(n))
                    &&& forall|i: int|
                        0 <= i < n ==> call_ensures(is_whitespace, (#[trigger] s[i],), true)
                    &&& n < s.len() ==> call_ensures(is_whitespace, (s[n],), false)
                };
            lemma_run_len_unique(s, CharClass::Whitespace, n);
            lemma_run_ascii(s, CharClass::Whitespace);
            lemma_ascii_bytes(s, n);
        }
        TokenKind::Whitespace
    }

    /// Consumes the decimal digits and returns if digits were consumed.
    pub fn eat_decimal_digits(&mut self) -> (has_digits: bool)
        requires
            old(self).wf(),
        ensures
            final(self).wf(),
            final(self).token_start() == old(self).token_start(),
            final(self).remaining() == old(self).remaining().skip(
                run_len(old(self).remaining(), CharClass::Decimal) as int,
            ),
            final(self).token_len() == old(self).token_len() + run_len(
                old(self).remaining(),
                CharClass::Decimal,
            ),
            has_digits == has_digit(
                old(self).remaining(),
                run_len(old(self).remaining(), CharClass::Decimal),
            ),
    {
        let mut has_digits = false;
        let ghost s = self.remaining();
        let ghost mut n: nat = 0;
        proof {
            assert(s.skip(0) =~= s);
        }
        loop
            invariant
                self.wf(),
                self.token_start() == old(self).token_start(),
                s == old(self).remaining(),
                n <= s.len(),
                self.remaining() == s.skip(n as int),
                run_len(s, CharClass::Decimal) == n + run_len(self.remaining(), CharClass::Decimal),
                self.token_len() == old(self).token_len() + n,
                has_digits == has_digit(s, n),
            ensures
                run_len(self.remaining(), CharClass::Decimal) == 0,
            decreases s.len() - n,
        {
            let c = self.peek_first();
            if c == '_' {
                self.next_char();
            } else if '0' <= c && c <= '9' {
                has_digits = true;
                self.next_char();
            } else {
                break;
            }
            proof {
                assert(s.skip(n as int).skip(1) =~= s.skip(n as int + 1));
                assert(s[n as int] == c);
                n = n + 1;
            }
        }
        has_digits
    }

    /// Consumes the hexadecimal digits and returns if digits were consumed.
    pub fn eat_hexadecimal_digits(&mut self) -> (has_digits: bool)
        requires
            old(self).wf(),
        ensures
            final(self).wf(),
            final(self).token_start() == old(self).token_start(),
            final(self).remaining() == old(self).remaining().skip(
                run_len(old(self).remaining(), CharClass::Hexadecimal) as int,
            ),
            final(self).token_len() == old(self).token_len() + run_len(
                old(self).remaining(),
                CharClass::Hexadecimal,
            ),
            has_digits == has_digit(
                old(self).remaining(),
                run_len(old(self).remaining(), CharClass::Hexadecimal),
            ),
    {
        let mut has_digits = false;
        let ghost s = self.remaining();
        let ghost mut n: nat = 0;
        proof {
            assert(s.skip(0) =~= s);
        }
        loop
            invariant
                self.wf(),
                self.token_start() == old(self).token_start(),
                s == old(self).remaining(),
                n <= s.len(),
                self.remaining() == s.skip(n as int),
                run_len(s, CharClass::Hexadecimal) == n + run_len(
                    self.remaining(),
                    CharClass::Hexadecimal,
                ),
                self.token_len() == old(self).token_len() + n,
                has_digits == has_digit(s, n),
            ensures
                run_len(self.remaining(), CharClass::Hexadecimal) == 0,
            decreases s.len() - n,
        {
            let c = self.peek_first();
            if c == '_' {
                self.next_char();
            } else if ('0' <= c && c <= '9') || ('A' <= c && c <= 'F') || ('a' <= c && c <= 'f') {
                has_digits = true;
                self.next_char();
            } else {
                break;
            }
            proof {
                assert(s.skip(n as int).skip(1) =~= s.skip(n as int + 1));
                assert(s[n as int] == c);
                n = n + 1;
            }
        }
        has_digits
    }
    /// Consumes the float exponent and returns if digits were consumed.
    pub fn eat_float_exponent(&mut self) -> (has_digits: bool)
        requires
            old(self).wf(),
        ensures
            final(self).wf(),
            final(self).token_start() == old(self).token_start(),
            final(self).remaining() == old(self).remaining().skip(
                exponent(old(self).remaining()).0 as int,
            ),
            final(self).token_len() == old(self).token_len() + exponent(old(self).remaining()).0,
            has_digits == !exponent(old(self).remaining()).1,
    {
        let ghost s = self.remaining();
        let ghost mut sign: int = 0;
        if self.peek_first() == '-' || self.peek_first() == '+' {
            self.next_char();
            proof {
                sign = 1;
            }
        }
        proof {
            assert(s.skip(0) =~= s);
            lemma_run_len(s.skip(sign), CharClass::Decimal);
            lemma_skip_skip(s, sign, run_len(s.skip(sign), CharClass::Decimal) as int);
        }
        self.eat_decimal_digits()
    }

    /// Consumes the fraction of a number, if one stands at the front, and
    /// returns whether it did.
    fn eat_fraction(&mut self) -> (found: bool)
        requires
            old(self).wf(),
        ensures
            final(self).wf(),
            final(self).token_start() == old(self).token_start(),
            found == starts_fraction(old(self).remaining()),
            final(self).remaining() == old(self).remaining().skip(
                fraction_len(old(self).remaining()) as int,
            ),
            final(self).token_len() == old(self).token_len() + fraction_len(old(self).remaining()),
    {
        let ghost s = self.remaining();
        // Maybe it is an integer range or a field/method access: (0..2) or '12.foo()'
        if self.peek_first() == '.' && self.peek_second() != '.' && !is_id_start(
            self.peek_second(),
        ) {
            self.next_char();
            // Anything that follows the '.' must be a number.
            self.eat_decimal_digits();
            proof {
                lemma_run_len(s.skip(1), CharClass::Decimal);
                lemma_skip_skip(s, 1, run_len(s.skip(1), CharClass::Decimal) as int);
            }
            true
        } else {
            proof {
                assert(s.skip(0) =~= s);
            }
            false
        }
    }

    /// Consumes what follows the integer part of a number and returns the
    /// kind of the whole literal.
    fn number_end(&mut self, base: Base) -> (kind: LiteralKind)
        requires
            old(self).wf(),
        ensures
            final(self).wf(),
            final(self).token_start() == old(self).token_start(),
            kind == number_tail(old(self).remaining(), base).0,
            final(self).remaining() == old(self).remaining().skip(
                number_tail(old(self).remaining(), base).1 as int,
            ),
            final(self).token_len() == old(self).token_len() + number_tail(
                old(self).remaining(),
                base,
            ).1,
    {
        let ghost s = self.remaining();
        let is_float = self.eat_fraction();
        let ghost rest = self.remaining();
        let c = self.peek_first();
        if c == 'e' || c == 'E' {
            self.next_char();
            let empty_exponent = !self.eat_float_exponent();
            proof {
                lemma_fraction_len(s);
                lemma_exponent_len(rest.skip(1));
                lemma_skip_skip(rest, 1, exponent(rest.skip(1)).0 as int);
                lemma_skip_skip(
                    s,
                    fraction_len(s) as int,
                    1 + exponent(rest.skip(1)).0 as int,
                );
            }
            LiteralKind::Float { base, empty_exponent }
        } else if is_float {
            LiteralKind::Float { base, empty_exponent: false }
        } else {
            LiteralKind::Int { base, empty_int: false }
        }
    }

    /// Consumes the digits behind a base prefix whose marker stands at the
    /// front, and what follows them, and returns the kind of the literal.
    fn prefixed_number(&mut self, base: Base) -> (kind: LiteralKind)
        requires
            old(self).wf(),
            prefix_base(peek_at(old(self).remaining(), 0)) == Some(base),
        ensures
            final(self).wf(),
            final(self).token_start() == old(self).token_start(),
            kind == number(seq!['0'] + old(self).remaining()).0,
            final(self).remaining() == old(self).remaining().skip(
                number(seq!['0'] + old(self).remaining()).1 - 1,
            ),
            final(self).token_len() == old(self).token_len() + number(
                seq!['0'] + old(self).remaining(),
            ).1 - 1,
    {
        let ghost s = self.remaining();
        let ghost whole = seq!['0'] + s;
        let ghost digits = run_len(s.skip(1), digit_class(base)) as int;
        proof {
            assert(whole.skip(2) =~= s.skip(1));
            assert(peek_at(whole, 1) == peek_at(s, 0));
            lemma_run_len(s.skip(1), digit_class(base));
            lemma_skip_skip(s, 1, digits);
            assert(whole.skip(2 + digits) =~= s.skip(1 + digits));
        }
        self.next_char();
        let has_digits = match base {
            Base::Hexadecimal => self.eat_hexadecimal_digits(),
            _ => self.eat_decimal_digits(),
        };
        if !has_digits {
            return LiteralKind::Int { base, empty_int: true };
        }
        proof {
            lemma_number_tail_len(s.skip(1 + digits), base);
            lemma_skip_skip(s, 1 + digits, number_tail(s.skip(1 + digits), base).1 as int);
        }
        self.number_end(base)
    }

    /// Consumes the rest of a numeric literal whose first digit has been
    /// consumed, and returns its kind.
    pub fn number(&mut self, first_digit: char) -> (kind: LiteralKind)
        requires
            old(self).wf(),
            is_decimal_digit(first_digit),
        ensures
            final(self).wf(),
            final(self).token_start() == old(self).token_start(),
            kind == number(seq![first_digit] + old(self).remaining()).0,
            final(self).remaining() == old(self).remaining().skip(
                number(seq![first_digit] + old(self).remaining()).1 - 1,
            ),
            final(self).token_len() == old(self).token_len() + number(
                seq![first_digit] + old(self).remaining(),
            ).1 - 1,
    {
        let ghost s = self.remaining();
        let ghost whole = seq![first_digit] + s;
        proof {
            assert(whole.skip(1) =~= s);
            assert(peek_at(whole, 1) == peek_at(s, 0));
        }
        // If first_digit is 0, then check for a base prefix.
        if first_digit == '0' {
            match self.peek_first() {
                'b' => {
                    return self.prefixed_number(Base::Binary);
                },
                'o' => {
                    return self.prefixed_number(Base::Octal);
                },
                'x' => {
                    return self.prefixed_number(Base::Hexadecimal);
                },
                _ => {},
            }
        }
        self.eat_decimal_digits();
        proof {
            let digits = run_len(s, CharClass::Decimal) as int;
            lemma_run_len(s, CharClass::Decimal);
            assert(whole.skip(1 + digits) =~= s.skip(digits));
            lemma_number_tail_len(s.skip(digits), Base::Decimal);
            lemma_skip_skip(s, digits, number_tail(s.skip(digits), Base::Decimal).1 as int);
        }
        self.number_end(Base::Decimal)
    }

    /// Consumes the `=` at the front, if there is one, and returns `yes`;
    /// returns `no` otherwise.
    fn if_equal_else(&mut self, yes: TokenKind, no: TokenKind) -> (kind: TokenKind)
        requires
            old(self).wf(),
        ensures
            final(self).wf(),
            final(self).token_start() == old(self).token_start(),
            peek_at(old(self).remaining(), 0) == '=' ==> kind == yes && final(self).remaining()
                == old(self).remaining().skip(1) && final(self).token_len() == old(
                self,
            ).token_len() + 1,
            peek_at(old(self).remaining(), 0) != '=' ==> kind == no && *final(self) == *old(self),
    {
        if self.peek_first() == '=' {
            self.next_char();
            yes
        } else {
            no
        }
    }

    /// Consumes the rest of an identifier whose first character has been
    /// consumed.
    fn identifier(&mut self) -> (kind: TokenKind)
        requires
            old(self).wf(),
        ensures
            final(self).wf(),
            final(self).token_start() == old(self).token_start(),
            kind == TokenKind::Ident,
            final(self).remaining() == old(self).remaining().skip(
                run_len(old(self).remaining(), CharClass::IdContinue) as int,
            ),
            final(self).token_len() == old(self).token_len() + run_len(
                old(self).remaining(),
                CharClass::IdContinue,
            ),
    {
        self.next_while(is_id_continue);
        proof {
            let s = old(self).remaining();
            let n = choose|n: int|
                {
                    &&& 0 <= n <= s.len()
                    &&& #[trigger] s.skip(n) == self.remaining()
                    &&& self.token_len() == old(self).token_len() + byte_len(s.take(n))
                    &&& forall|i: int|
                        0 <= i < n ==> call_ensures(is_id_continue, (#[trigger] s[i],), true)
                    &&& n < s.len() ==> call_ensures(is_id_continue, (s[n],), false)
                };
            lemma_run_len_unique(s, CharClass::IdContinue, n);
            lemma_run_ascii(s, CharClass::IdContinue);
            lemma_ascii_bytes(s, n);
        }
        TokenKind::Ident
    }

    /// Consumes what is left of the token that starts with `first_char`,
    /// which has been consumed, and returns the token's kind; `None` if no
    /// token starts with that character.
    fn token_kind(&mut self, first_char: char) -> (kind: Option<TokenKind>)
        requires
            old(self).wf(),
        ensures
            final(self).wf(),
            final(self).token_start() == old(self).token_start(),
            match scan(seq![first_char] + old(self).remaining()) {
                Scan::Token { kind: k, len } => {
                    &&& kind == Some(k)
                    &&& 1 <= len <= old(self).remaining().len() + 1
                    &&& spec_char_width(first_char) == 1
                    &&& final(self).remaining() == old(self).remaining().skip(len - 1)
                    &&& final(self).token_len() == old(self).token_len() + len - 1
                },
                _ => kind is None && *final(self) == *old(self),
            },
    {
        let ghost s = self.remaining();
        let ghost whole = seq![first_char] + s;
        proof {
            assert(whole.skip(1) =~= s);
            assert(peek_at(whole, 1) == peek_at(s, 0));
            assert(s.skip(0) =~= s);
            lemma_scan_len(whole);
        }
        if is_whitespace(first_char) {
            // Whitespace sequence.
            return Some(self.whitespace());
        }
        let kind = match first_char {
            // One-symbol tokens.
            ';' => TokenKind::SemiColon,
            ':' => TokenKind::Colon,
            '(' => TokenKind::OpenParen,
            ')' => TokenKind::CloseParen,
            '{' => TokenKind::OpenBrace,
            '}' => TokenKind::CloseBrace,
            ',' => TokenKind::Comma,
            '.' => TokenKind::Dot,
            '+' => TokenKind::Plus,
            '-' => TokenKind::Minus,
            '*' => TokenKind::Star,
            '/' => TokenKind::Slash,
            '&' => TokenKind::And,
            '|' => TokenKind::Or,
            // Tokens that an '=' behind them makes longer.
            '!' => self.if_equal_else(TokenKind::BangEqual, TokenKind::Bang),
            '=' => self.if_equal_else(TokenKind::EqualEqual, TokenKind::Equal),
            '>' => self.if_equal_else(TokenKind::GreaterEqual, TokenKind::Greater),
            '<' => self.if_equal_else(TokenKind::LessEqual, TokenKind::Less),
            c => {
                if '0' <= c && c <= '9' {
                    // Number literal.
                    TokenKind::Literal { kind: self.number(c) }
                } else if is_id_start(c) {
                    self.identifier()
                } else {
                    return None;
                }
            },
        };
        Some(kind)
    }

    /// Reads the token at the front of the input and resets the byte counter.
    ///
    /// At the end of the input the token is `EoF`, of length 0, and the
    /// cursor stays as it is. Where no token starts with the character at
    /// the front, that character is consumed, so that a caller may go on
    /// behind it, and the error gives its place.
    pub fn next_token(&mut self) -> (result: Result<Token, LexError>)
        requires
            old(self).wf(),
        ensures
            final(self).wf(),
            match scan(old(self).remaining()) {
                Scan::End => {
                    &&& result == Ok::<Token, LexError>(Token { kind: TokenKind::EoF, len: 0 })
                    &&& *final(self) == *old(self)
                },
                Scan::Token { kind, len } => {
                    &&& 1 <= len <= old(self).remaining().len()
                    &&& old(self).token_len() + len <= u32::MAX
                    &&& byte_len(old(self).remaining().take(len as int)) == len
                    &&& result == Ok::<Token, LexError>(
                        Token { kind, len: (old(self).token_len() + len) as u32 },
                    )
                    &&& final(self).remaining() == old(self).remaining().skip(len as int)
                    &&& final(self).token_len() == 0
                    &&& final(self).token_start() == old(self).token_start() + old(
                        self,
                    ).token_len() + len
                },
                Scan::Unrecognized { character } => {
                    &&& result == Err::<Token, LexError>(
                        LexError::UnrecognizedCharacter {
                            offset: (old(self).token_start() + old(self).token_len()) as usize,
                            character,
                        },
                    )
                    &&& final(self).remaining() == old(self).remaining().skip(1)
                    &&& final(self).token_len() == 0
                    &&& final(self).token_start() == old(self).token_start() + old(
                        self,
                    ).token_len() + spec_char_width(character)
                },
            },
    {
        let ghost s = self.remaining();
        proof {
            lemma_scan_len(s);
            lemma_scan_ascii(s);
        }
        let offset = self.offset();
        let first_char = match self.next_char() {
            Some(c) => c,
            None => {
                return Ok(Token::new(TokenKind::EoF, 0));
            },
        };
        proof {
            assert(seq![first_char] + s.skip(1) =~= s);
        }
        match self.token_kind(first_char) {
            Some(kind) => {
                proof {
                    lemma_skip_skip(s, 1, scan(s)->Token_len - 1);
                }
                let token = Token::new(kind, self.position_within_token());
                self.reset_position_within_token();
                Ok(token)
            },
            None => {
                self.reset_position_within_token();
                Err(LexError::UnrecognizedCharacter { offset, character: first_char })
            },
        }
    }
}

} // verus!
