use vibec_lexer::cursor::{Cursor, EOF_CHAR};
use vibec_lexer::encoding::char_width;
use vibec_lexer::{
    is_id_continue, is_id_start, is_ident, is_whitespace, Base, LexError, LiteralKind, Token,
    TokenKind,
};

#[test]
fn peeking_does_not_consume() {
    let cursor = Cursor::new("ab");
    assert_eq!(cursor.peek_first(), 'a');
    assert_eq!(cursor.peek_second(), 'b');
    assert_eq!(cursor.peek_first(), 'a');
    assert_eq!(cursor.as_str(), "ab");
    assert!(!cursor.is_eof());
}

#[test]
fn peeking_past_the_end_gives_the_sentinel() {
    let cursor = Cursor::new("a");
    assert_eq!(cursor.peek_second(), EOF_CHAR);
    let cursor = Cursor::new("");
    assert_eq!(cursor.peek_first(), EOF_CHAR);
    assert_eq!(cursor.peek_second(), EOF_CHAR);
    assert!(cursor.is_eof());
    assert_eq!(EOF_CHAR, '\0');
}

#[test]
fn next_char_counts_bytes() {
    let mut cursor = Cursor::new("a\u{e9}\u{20ac}\u{1f600}z");
    assert_eq!(cursor.position_within_token(), 0);
    assert_eq!(cursor.next_char(), Some('a'));
    assert_eq!(cursor.position_within_token(), 1);
    assert_eq!(cursor.next_char(), Some('\u{e9}'));
    assert_eq!(cursor.position_within_token(), 3);
    assert_eq!(cursor.next_char(), Some('\u{20ac}'));
    assert_eq!(cursor.position_within_token(), 6);
    cursor.reset_position_within_token();
    assert_eq!(cursor.position_within_token(), 0);
    assert_eq!(cursor.offset(), 6);
    assert_eq!(cursor.next_char(), Some('\u{1f600}'));
    assert_eq!(cursor.position_within_token(), 4);
    assert_eq!(cursor.as_str(), "z");
    assert_eq!(cursor.next_char(), Some('z'));
    assert_eq!(cursor.next_char(), None);
    assert_eq!(cursor.next_char(), None);
    assert_eq!(cursor.position_within_token(), 5);
    assert_eq!(cursor.offset(), 11);
    assert!(cursor.is_eof());
}

#[test]
fn next_while_stops_at_the_first_other_character() {
    let mut cursor = Cursor::new("aaab");
    cursor.next_while(|c| c == 'a');
    assert_eq!(cursor.as_str(), "b");
    assert_eq!(cursor.position_within_token(), 3);
    cursor.next_while(|c| c == 'a');
    assert_eq!(cursor.as_str(), "b");
    cursor.next_while(|c| c == 'b');
    assert!(cursor.is_eof());
    cursor.next_while(|_| true);
    assert_eq!(cursor.position_within_token(), 4);
}

#[test]
fn next_while_reads_a_sentinel_in_the_text() {
    let mut cursor = Cursor::new("\0\0x");
    cursor.next_while(|c| c == '\0');
    assert_eq!(cursor.as_str(), "x");
}

#[test]
fn digit_runs() {
    let mut cursor = Cursor::new("1_0__9a");
    assert!(cursor.eat_decimal_digits());
    assert_eq!(cursor.as_str(), "a");
    let mut cursor = Cursor::new("___x");
    assert!(!cursor.eat_decimal_digits());
    assert_eq!(cursor.as_str(), "x");
    let mut cursor = Cursor::new("fA_09g");
    assert!(cursor.eat_hexadecimal_digits());
    assert_eq!(cursor.as_str(), "g");
    let mut cursor = Cursor::new("g");
    assert!(!cursor.eat_hexadecimal_digits());
    assert_eq!(cursor.as_str(), "g");
}

#[test]
fn float_exponents() {
    let mut cursor = Cursor::new("-12x");
    assert!(cursor.eat_float_exponent());
    assert_eq!(cursor.as_str(), "x");
    let mut cursor = Cursor::new("+x");
    assert!(!cursor.eat_float_exponent());
    assert_eq!(cursor.as_str(), "x");
    let mut cursor = Cursor::new("7");
    assert!(cursor.eat_float_exponent());
    assert!(cursor.is_eof());
}

#[test]
fn whitespace_run_behind_its_first_character() {
    let mut cursor = Cursor::new(" \t\r\n.");
    cursor.next_char();
    assert_eq!(cursor.whitespace(), TokenKind::Whitespace);
    assert_eq!(cursor.as_str(), ".");
    assert_eq!(cursor.position_within_token(), 4);
}

#[test]
fn number_behind_its_first_digit() {
    let mut cursor = Cursor::new("x1F.5 ");
    assert_eq!(
        cursor.number('0'),
        LiteralKind::Float { base: Base::Hexadecimal, empty_exponent: false }
    );
    assert_eq!(cursor.as_str(), " ");
    let mut cursor = Cursor::new("..3");
    assert_eq!(cursor.number('7'), LiteralKind::Int { base: Base::Decimal, empty_int: false });
    assert_eq!(cursor.as_str(), "..3");
    let mut cursor = Cursor::new("b");
    assert_eq!(cursor.number('1'), LiteralKind::Int { base: Base::Decimal, empty_int: false });
    assert_eq!(cursor.as_str(), "b");
}

#[test]
fn next_token_by_token() {
    let mut cursor = Cursor::new("ab_1 <=#7");
    assert_eq!(cursor.next_token(), Ok(Token::new(TokenKind::Ident, 4)));
    assert_eq!(cursor.next_token(), Ok(Token::new(TokenKind::Whitespace, 1)));
    assert_eq!(cursor.next_token(), Ok(Token::new(TokenKind::LessEqual, 2)));
    assert_eq!(cursor.offset(), 7);
    assert_eq!(
        cursor.next_token(),
        Err(LexError::UnrecognizedCharacter { offset: 7, character: '#' })
    );
    assert_eq!(cursor.position_within_token(), 0);
    assert_eq!(
        cursor.next_token(),
        Ok(Token::new(
            TokenKind::Literal { kind: LiteralKind::Int { base: Base::Decimal, empty_int: false } },
            1
        ))
    );
    assert_eq!(cursor.next_token(), Ok(Token::new(TokenKind::EoF, 0)));
    assert_eq!(cursor.next_token(), Ok(Token::new(TokenKind::EoF, 0)));
}

#[test]
fn error_accessors() {
    let error = LexError::UnrecognizedCharacter { offset: 12, character: '@' };
    assert_eq!(error.offset(), 12);
    assert_eq!(error.character(), '@');
}

#[test]
fn character_classes() {
    for c in [' ', '\t', '\n', '\r'] {
        assert!(is_whitespace(c));
    }
    for c in ['a', '\0', '\u{b}', '\u{a0}', '_'] {
        assert!(!is_whitespace(c));
    }
    for c in ['_', 'a', 'z', 'A', 'Z', 'm'] {
        assert!(is_id_start(c));
        assert!(is_id_continue(c));
    }
    for c in ['0', '9'] {
        assert!(!is_id_start(c));
        assert!(is_id_continue(c));
    }
    for c in ['-', ' ', '\0', '\u{e9}', '@', '[', '`', '{', '/', ':'] {
        assert!(!is_id_start(c));
        assert!(!is_id_continue(c));
    }
}

#[test]
fn identifiers() {
    assert!(is_ident("foo"));
    assert!(is_ident("_"));
    assert!(is_ident("_x9"));
    assert!(is_ident("A1_b2"));
    assert!(!is_ident(""));
    assert!(!is_ident("9a"));
    assert!(!is_ident("a-b"));
    assert!(!is_ident("a b"));
    assert!(!is_ident("caf\u{e9}"));
    assert!(!is_ident("\u{e9}"));
}

#[test]
fn character_widths() {
    assert_eq!(char_width('\0'), 1);
    assert_eq!(char_width('\u{7f}'), 1);
    assert_eq!(char_width('\u{80}'), 2);
    assert_eq!(char_width('\u{7ff}'), 2);
    assert_eq!(char_width('\u{800}'), 3);
    assert_eq!(char_width('\u{ffff}'), 3);
    assert_eq!(char_width('\u{10000}'), 4);
    assert_eq!(char_width('\u{10ffff}'), 4);
    for c in ['a', '\u{e9}', '\u{20ac}', '\u{1f600}'] {
        assert_eq!(char_width(c), c.len_utf8());
    }
}

#[test]
fn radix_of_each_base() {
    assert_eq!(Base::Binary.radix(), 2);
    assert_eq!(Base::Octal.radix(), 8);
    assert_eq!(Base::Decimal.radix(), 10);
    assert_eq!(Base::Hexadecimal.radix(), 16);
}

#[test]
fn short_texts_fit() {
    assert!(vibec_lexer::encoding::fits_in_u32(""));
    assert!(vibec_lexer::encoding::fits_in_u32("let x = 1;"));
    assert!(vibec_lexer::encoding::fits_in_u32("\u{20ac}"));
}

#[test]
fn next_token_adds_what_was_read_before() {
    let mut cursor = Cursor::new("ab cd");
    assert_eq!(cursor.next_char(), Some('a'));
    assert_eq!(cursor.next_token(), Ok(Token::new(TokenKind::Ident, 2)));
    assert_eq!(cursor.position_within_token(), 0);
    assert_eq!(cursor.as_str(), " cd");
}
