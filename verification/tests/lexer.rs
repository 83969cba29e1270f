use avrs::parser::lexer::{Lexer, LexerError, TokenKind};
use avrs::parser::tagged::Span;

fn create(value: &str) -> Lexer {
    Lexer::new(value.as_bytes())
}

#[test]
fn test_simple_lex() {
    let cases = vec![
        (TokenKind::Comma, ","),
        (TokenKind::Dot, "."),
        (TokenKind::Colon, ":"),
        (TokenKind::Plus, "+"),
        (TokenKind::Minus, "-"),
        (TokenKind::Star, "*"),
        (TokenKind::Slash, "/"),
        (TokenKind::LParen, "("),
        (TokenKind::RParen, ")"),
        (TokenKind::LBracket, "["),
        (TokenKind::RBracket, "]"),
        (TokenKind::Newline, "\n"),
    ];

    for (expected, input) in cases {
        let mut lexer = create(input);
        let next = lexer.parse_token()
            .unwrap();
        assert_eq!(next.kind, expected);
    }
}

#[test]
fn test_skip_whitespace() {
    let cases = vec![
        (TokenKind::Comma, "  ,"),
        (TokenKind::Colon, ":   "),
        (TokenKind::Plus, "   +   "),
    ];

    for (expected, input) in cases {
        let mut lexer = create(input);
        let next = lexer.parse_token()
            .unwrap();
        assert_eq!(next.kind, expected);
        let next = lexer.parse_token()
            .unwrap();
        assert_eq!(next.kind, TokenKind::Eof);
    }
}

#[test]
fn test_numerical() {
    let mut lexer = create("42");
    let token = lexer.parse_token()
        .unwrap();
    assert_eq!(TokenKind::DecimalLiteral("42".to_string()), token.kind);

    let mut lexer = create("  123456  ");
    let token = lexer.parse_token()
        .unwrap();
    assert_eq!(TokenKind::DecimalLiteral("123456".to_string()), token.kind);

    let mut lexer = create("  42b  ");
    let token = lexer.parse_token();
    assert!(matches!(token, Err(LexerError::InvalidNumerical { byte: b'b', span: _ })));
}

#[test]
fn test_register() {
    let mut lexer = create("r1");
    let token = lexer.parse_token()
        .unwrap();
    assert_eq!(TokenKind::Register("r1".to_string()), token.kind);

    let mut lexer = create(" r321  ");
    let token = lexer.parse_token()
        .unwrap();
    assert_eq!(TokenKind::Register("r321".to_string()), token.kind);

    let mut lexer = create(" r2w  ");
    let token = lexer.parse_token()
        .unwrap();
    assert!(matches!(token.kind, TokenKind::Identifier(_)));
}

#[test]
fn test_identifier() {
    let mut lexer = create("something");
    let token = lexer.parse_token()
        .unwrap();
    assert_eq!(TokenKind::Identifier("something".to_string()), token.kind);

    let mut lexer = create("   secretlabel332: ");
    let token = lexer.parse_token()
        .unwrap();
    assert_eq!(TokenKind::Identifier("secretlabel332".to_string()), token.kind);
}

#[test]
fn lexer_test_line() {
    let mut lexer = create("mov r1, r2");
    let token = lexer.parse_token()
        .unwrap();
    assert_eq!(TokenKind::Identifier("mov".to_string()), token.kind);
    let token = lexer.parse_token()
        .unwrap();
    assert_eq!(TokenKind::Register("r1".to_string()), token.kind);
    let token = lexer.parse_token()
        .unwrap();
    assert_eq!(TokenKind::Comma, token.kind);
    let token = lexer.parse_token()
        .unwrap();
    assert_eq!(TokenKind::Register("r2".to_string()), token.kind);
}

#[test]
fn test_multiline() {
    let mut lexer = create("label1:\n   ldi r2, 42\n    add r1, r2");
    let expected_tokens = vec![
        TokenKind::Identifier("label1".to_string()),
        TokenKind::Colon,
        TokenKind::Newline,
        TokenKind::Identifier("ldi".to_string()),
        TokenKind::Register("r2".to_string()),
        TokenKind::Comma,
        TokenKind::DecimalLiteral("42".to_string()),
        TokenKind::Newline,
        TokenKind::Identifier("add".to_string()),
        TokenKind::Register("r1".to_string()),
        TokenKind::Comma,
        TokenKind::Register("r2".to_string()),
        TokenKind::Eof,
    ];

    for expected in expected_tokens {
        let token = lexer.parse_token().unwrap();
        assert_eq!(token.kind, expected);
    }
}

#[test]
fn token_spans() {
    let mut lexer = create("  ldi r20, 7");
    let token = lexer.parse_token().unwrap();
    assert_eq!(Span { offset: 2, len: 3 }, token.span);
    let token = lexer.parse_token().unwrap();
    assert_eq!(Span { offset: 6, len: 3 }, token.span);
    let token = lexer.parse_token().unwrap();
    assert_eq!(Span { offset: 9, len: 1 }, token.span);
    let token = lexer.parse_token().unwrap();
    assert_eq!(Span { offset: 11, len: 1 }, token.span);
    let token = lexer.parse_token().unwrap();
    assert_eq!(TokenKind::Eof, token.kind);
    assert_eq!(Span { offset: 12, len: 0 }, token.span);
}

#[test]
fn unexpected_byte_is_not_consumed() {
    let mut lexer = create(" $");
    let expected = LexerError::UnexpectedByte { byte: b'$', span: Span { offset: 0, len: 1 } };
    assert!(matches!(lexer.parse_token(), Err(e) if e == expected));
    assert!(matches!(lexer.parse_token(), Err(e) if e == expected));
}

#[test]
fn invalid_identifier_byte() {
    let mut lexer = create("ab\x01");
    assert!(matches!(lexer.parse_token(), Err(LexerError::InvalidIdentifier { byte: 1, span: Span { offset: 0, len: 3 } })));
}

#[test]
fn register_too_large_for_usize_is_identifier() {
    let mut lexer = create("r99999999999999999999999");
    assert!(matches!(lexer.parse_token().unwrap().kind, TokenKind::Identifier(_)));
    let mut lexer = create("r");
    assert!(matches!(lexer.parse_token().unwrap().kind, TokenKind::Identifier(_)));
}

#[test]
fn number_ends_at_punctuation() {
    let mut lexer = create("12+3");
    assert_eq!(TokenKind::DecimalLiteral("12".to_string()), lexer.parse_token().unwrap().kind);
    assert_eq!(TokenKind::Plus, lexer.parse_token().unwrap().kind);
    assert_eq!(TokenKind::DecimalLiteral("3".to_string()), lexer.parse_token().unwrap().kind);
}
