use vibec_lexer::lex::{kind_of, Lexer, Token, TokenKind};
use vibec_lexer::{Base, LexError, LiteralKind};

#[test]
fn test_single_symbol_tokens() {
    let source = String::from("!:;(){},.-+*/=<>");
    let mut tokens = Lexer::from(&source);

    assert_eq!(tokens.next().unwrap().unwrap(), Token::from("!", TokenKind::Bang));
    assert_eq!(tokens.next().unwrap().unwrap(), Token::from(":", TokenKind::Colon));
    assert_eq!(tokens.next().unwrap().unwrap(), Token::from(";", TokenKind::SemiColon));
    assert_eq!(tokens.next().unwrap().unwrap(), Token::from("(", TokenKind::LeftParenthesis));
    assert_eq!(tokens.next().unwrap().unwrap(), Token::from(")", TokenKind::RightParenthesis));
    assert_eq!(tokens.next().unwrap().unwrap(), Token::from("{", TokenKind::LeftBrace));
    assert_eq!(tokens.next().unwrap().unwrap(), Token::from("}", TokenKind::RightBrace));
    assert_eq!(tokens.next().unwrap().unwrap(), Token::from(",", TokenKind::Comma));
    assert_eq!(tokens.next().unwrap().unwrap(), Token::from(".", TokenKind::Period));
    assert_eq!(tokens.next().unwrap().unwrap(), Token::from("-", TokenKind::Minus));
    assert_eq!(tokens.next().unwrap().unwrap(), Token::from("+", TokenKind::Plus));
    assert_eq!(tokens.next().unwrap().unwrap(), Token::from("*", TokenKind::Star));
    assert_eq!(tokens.next().unwrap().unwrap(), Token::from("/", TokenKind::Slash));
    assert_eq!(tokens.next().unwrap().unwrap(), Token::from("=", TokenKind::Equal));
    assert_eq!(tokens.next().unwrap().unwrap(), Token::from("<", TokenKind::Less));
    assert_eq!(tokens.next().unwrap().unwrap(), Token::from(">", TokenKind::Greater));
}

#[test]
fn test_multi_symbol_tokens() {
    let source = String::from("=>=<====!=");
    let mut tokens = Lexer::from(&source);

    assert_eq!(tokens.next().unwrap().unwrap(), Token::from("=", TokenKind::Equal));
    assert_eq!(tokens.next().unwrap().unwrap(), Token::from(">=", TokenKind::GreaterEqual));
    assert_eq!(tokens.next().unwrap().unwrap(), Token::from("<=", TokenKind::LessEqual));
    assert_eq!(tokens.next().unwrap().unwrap(), Token::from("==", TokenKind::EqualEqual));
    assert_eq!(tokens.next().unwrap().unwrap(), Token::from("=", TokenKind::Equal));
    assert_eq!(tokens.next().unwrap().unwrap(), Token::from("!=", TokenKind::BangEqual));
}

#[test]
fn session_ends_with_none() {
    let mut tokens = Lexer::from("<");
    assert_eq!(tokens.next(), Some(Ok(Token::from("<", TokenKind::Less))));
    assert_eq!(tokens.next(), None);
    assert_eq!(tokens.next(), None);
    assert_eq!(Lexer::from("").next(), None);
}

#[test]
fn session_hands_out_whitespace() {
    let mut tokens = Lexer::from(" \t\r\n");
    assert_eq!(tokens.next(), Some(Ok(Token::from(" \t\r\n", TokenKind::Whitespace))));
    assert_eq!(tokens.next(), None);

    let mut tokens = Lexer::from(" +");
    assert_eq!(tokens.next(), Some(Ok(Token::from(" ", TokenKind::Whitespace))));
    assert_eq!(tokens.next(), Some(Ok(Token::from("+", TokenKind::Plus))));
    assert_eq!(tokens.next(), None);

    let mut tokens = Lexer::from("  x1 \n= 0x1F+12.5e3 ;");
    assert_eq!(tokens.next(), Some(Ok(Token::from("  ", TokenKind::Whitespace))));
    assert_eq!(tokens.next(), Some(Ok(Token::from("x1", TokenKind::Ident))));
    assert_eq!(tokens.next(), Some(Ok(Token::from(" \n", TokenKind::Whitespace))));
    assert_eq!(tokens.next(), Some(Ok(Token::from("=", TokenKind::Equal))));
    assert_eq!(tokens.next(), Some(Ok(Token::from(" ", TokenKind::Whitespace))));
    assert_eq!(tokens.next(), Some(Ok(Token::from("0x1F", TokenKind::Number))));
    assert_eq!(tokens.next(), Some(Ok(Token::from("+", TokenKind::Plus))));
    assert_eq!(tokens.next(), Some(Ok(Token::from("12.5e3", TokenKind::Number))));
    assert_eq!(tokens.next(), Some(Ok(Token::from(" ", TokenKind::Whitespace))));
    assert_eq!(tokens.next(), Some(Ok(Token::from(";", TokenKind::SemiColon))));
    assert_eq!(tokens.next(), None);
}

#[test]
fn session_texts_are_the_source() {
    for source in ["a b", " +", "fn main() {\n\tx = 0b101 + 1.5e-3;\r\n}  ", "", "12.foo..5"] {
        let mut tokens = Lexer::from(source);
        let mut texts = String::new();
        while let Some(token) = tokens.next() {
            let token = token.unwrap();
            assert!(!token.text.is_empty());
            texts.push_str(token.text);
        }
        assert_eq!(texts, source);
    }
}

#[test]
fn session_keeps_member_access_apart() {
    let mut tokens = Lexer::from("12.foo");
    assert_eq!(tokens.next(), Some(Ok(Token::from("12", TokenKind::Number))));
    assert_eq!(tokens.next(), Some(Ok(Token::from(".", TokenKind::Period))));
    assert_eq!(tokens.next(), Some(Ok(Token::from("foo", TokenKind::Ident))));
    assert_eq!(tokens.next(), None);

    let mut tokens = Lexer::from("0..5");
    assert_eq!(tokens.next(), Some(Ok(Token::from("0", TokenKind::Number))));
    assert_eq!(tokens.next(), Some(Ok(Token::from(".", TokenKind::Period))));
    assert_eq!(tokens.next(), Some(Ok(Token::from(".", TokenKind::Period))));
    assert_eq!(tokens.next(), Some(Ok(Token::from("5", TokenKind::Number))));
    assert_eq!(tokens.next(), None);
}

#[test]
fn session_reports_the_offset_of_an_error() {
    let mut tokens = Lexer::from("1 + $ 2");
    assert_eq!(tokens.next(), Some(Ok(Token::from("1", TokenKind::Number))));
    assert_eq!(tokens.next(), Some(Ok(Token::from(" ", TokenKind::Whitespace))));
    assert_eq!(tokens.next(), Some(Ok(Token::from("+", TokenKind::Plus))));
    assert_eq!(tokens.next(), Some(Ok(Token::from(" ", TokenKind::Whitespace))));
    assert_eq!(
        tokens.next(),
        Some(Err(LexError::UnrecognizedCharacter { offset: 4, character: '$' }))
    );
    // A caller that chooses to go on finds the tokens behind the character.
    assert_eq!(tokens.next(), Some(Ok(Token::from(" ", TokenKind::Whitespace))));
    assert_eq!(tokens.next(), Some(Ok(Token::from("2", TokenKind::Number))));
    assert_eq!(tokens.next(), None);
}

#[test]
fn session_errs_only_at_a_character_that_starts_no_token() {
    let mut tokens = Lexer::from(" $");
    assert_eq!(tokens.next(), Some(Ok(Token::from(" ", TokenKind::Whitespace))));
    assert_eq!(
        tokens.next(),
        Some(Err(LexError::UnrecognizedCharacter { offset: 1, character: '$' }))
    );
    assert_eq!(tokens.next(), None);
}

#[test]
fn session_goes_on_behind_a_wide_character() {
    let mut tokens = Lexer::from("a \u{20ac}\u{e9}b");
    assert_eq!(tokens.next(), Some(Ok(Token::from("a", TokenKind::Ident))));
    assert_eq!(tokens.next(), Some(Ok(Token::from(" ", TokenKind::Whitespace))));
    assert_eq!(
        tokens.next(),
        Some(Err(LexError::UnrecognizedCharacter { offset: 2, character: '\u{20ac}' }))
    );
    assert_eq!(
        tokens.next(),
        Some(Err(LexError::UnrecognizedCharacter { offset: 5, character: '\u{e9}' }))
    );
    assert_eq!(tokens.next(), Some(Ok(Token::from("b", TokenKind::Ident))));
    assert_eq!(tokens.next(), None);
}

#[test]
fn two_sessions_agree() {
    let source = "while x <= 10. { x = x + 0b1; } #";
    let mut first = Lexer::from(source);
    let mut second = Lexer::from(source);
    loop {
        let a = first.next();
        let b = second.next();
        assert_eq!(a, b);
        if a.is_none() {
            break;
        }
    }
}

#[test]
fn some_ok_from_wraps_a_token() {
    assert_eq!(
        Token::some_ok_from("<=", TokenKind::LessEqual),
        Some(Ok(Token::from("<=", TokenKind::LessEqual)))
    );
    let token = Token::from("x", TokenKind::Ident);
    assert_eq!(token.text, "x");
    assert_eq!(token.token_kind, TokenKind::Ident);
}

#[test]
fn tokens_are_shown_by_name_or_text() {
    assert_eq!(Token::from(":", TokenKind::Colon).to_string(), "COLON");
    assert_eq!(Token::from(";", TokenKind::SemiColon).to_string(), "SEMICOLON");
    assert_eq!(Token::from("(", TokenKind::LeftParenthesis).to_string(), "L_PAREN");
    assert_eq!(Token::from(")", TokenKind::RightParenthesis).to_string(), "R_PAREN");
    assert_eq!(Token::from("{", TokenKind::LeftBrace).to_string(), "L_BRACE");
    assert_eq!(Token::from("}", TokenKind::RightBrace).to_string(), "R_BRACE");
    assert_eq!(Token::from(",", TokenKind::Comma).to_string(), "COMMA");
    assert_eq!(Token::from(".", TokenKind::Period).to_string(), "PERIOD");
    assert_eq!(Token::from("-", TokenKind::Minus).to_string(), "MINUS");
    assert_eq!(Token::from("+", TokenKind::Plus).to_string(), "PLUS");
    assert_eq!(Token::from("*", TokenKind::Star).to_string(), "STAR");
    assert_eq!(Token::from("/", TokenKind::Slash).to_string(), "SLASH");
    assert_eq!(Token::from("=", TokenKind::Equal).to_string(), "EQUAL");
    assert_eq!(Token::from(">", TokenKind::Greater).to_string(), "GREATER");
    assert_eq!(Token::from("<", TokenKind::Less).to_string(), "LESS");
    assert_eq!(Token::from("==", TokenKind::EqualEqual).to_string(), "EQUAL_EQUAL");
    assert_eq!(Token::from("<=", TokenKind::LessEqual).to_string(), "LESS_EQUAL");
    assert_eq!(Token::from(">=", TokenKind::GreaterEqual).to_string(), "GREATER_EQUAL");
    assert_eq!(Token::from("!=", TokenKind::BangEqual).to_string(), "BANG_EQUAL");
    assert_eq!(Token::from("!", TokenKind::Bang).to_string(), "BANG");
    assert_eq!(Token::from("&", TokenKind::And).to_string(), "AND");
    assert_eq!(Token::from("|", TokenKind::Or).to_string(), "OR");
    assert_eq!(Token::from("elif", TokenKind::Elif).to_string(), "ELSE_IF");
    assert_eq!(Token::from("fn", TokenKind::Function).to_string(), "FUNCTION");
    assert_eq!(Token::from("self", TokenKind::Self_).to_string(), "SELF");
    assert_eq!(Token::from("none", TokenKind::None_).to_string(), "NONE");
    assert_eq!(Token::from(" \t", TokenKind::Whitespace).to_string(), "WHITESPACE");
    assert_eq!(Token::from("foo", TokenKind::Ident).to_string(), "foo");
    assert_eq!(Token::from("0x1F", TokenKind::Number).to_string(), "0x1F");
    assert_eq!(TokenKind::Ident.name(), None);
    assert_eq!(TokenKind::Let.name(), Some("LET"));
}

#[test]
fn scanner_kinds_convert() {
    assert_eq!(kind_of(vibec_lexer::TokenKind::Whitespace), Some(TokenKind::Whitespace));
    assert_eq!(kind_of(vibec_lexer::TokenKind::EoF), None);
    assert_eq!(kind_of(vibec_lexer::TokenKind::Dot), Some(TokenKind::Period));
    assert_eq!(kind_of(vibec_lexer::TokenKind::OpenParen), Some(TokenKind::LeftParenthesis));
    assert_eq!(kind_of(vibec_lexer::TokenKind::CloseBrace), Some(TokenKind::RightBrace));
    assert_eq!(kind_of(vibec_lexer::TokenKind::And), Some(TokenKind::And));
    assert_eq!(
        kind_of(vibec_lexer::TokenKind::Literal {
            kind: LiteralKind::Float { base: Base::Decimal, empty_exponent: true }
        }),
        Some(TokenKind::Number)
    );
}
