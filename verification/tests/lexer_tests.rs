use tsc_core::lexer::{Lexer, TokenKind};

#[test]
fn test_basic_tokens() {
    let input = "let x = 42;";
    let mut lexer = Lexer::new(input.to_string());

    assert_eq!(lexer.next_token().kind, TokenKind::Let);
    assert_eq!(
        lexer.next_token().kind,
        TokenKind::Identifier("x".to_string())
    );
    assert_eq!(lexer.next_token().kind, TokenKind::Assign);
    assert_eq!(lexer.next_token().kind, TokenKind::Number(42));
    assert_eq!(lexer.next_token().kind, TokenKind::Semicolon);
    assert_eq!(lexer.next_token().kind, TokenKind::EOF);
}

#[test]
fn keywords_and_punctuation() {
    let input = "const function if return ( ) { } , : . + - \"hi\"";
    let mut lexer = Lexer::new(input.to_string());
    assert_eq!(lexer.next_token().kind, TokenKind::Const);
    assert_eq!(lexer.next_token().kind, TokenKind::Function);
    assert_eq!(lexer.next_token().kind, TokenKind::If);
    assert_eq!(lexer.next_token().kind, TokenKind::Return);
    assert_eq!(lexer.next_token().kind, TokenKind::LParen);
    assert_eq!(lexer.next_token().kind, TokenKind::RParen);
    assert_eq!(lexer.next_token().kind, TokenKind::LBrace);
    assert_eq!(lexer.next_token().kind, TokenKind::RBrace);
    assert_eq!(lexer.next_token().kind, TokenKind::Comma);
    assert_eq!(lexer.next_token().kind, TokenKind::Colon);
    assert_eq!(lexer.next_token().kind, TokenKind::Dot);
    assert_eq!(lexer.next_token().kind, TokenKind::Plus);
    assert_eq!(lexer.next_token().kind, TokenKind::Minus);
    assert_eq!(lexer.next_token().kind, TokenKind::String("hi".to_string()));
    assert_eq!(lexer.next_token().kind, TokenKind::EOF);
}

#[test]
fn invalid_character_scans_as_invalid() {
    let mut lexer = Lexer::new("@".to_string());
    assert_eq!(lexer.next_token().kind, TokenKind::Invalid);
    assert_eq!(lexer.next_token().kind, TokenKind::EOF);
}

#[test]
fn number_too_large_for_u64_is_invalid() {
    let mut lexer = Lexer::new("99999999999999999999999".to_string());
    assert_eq!(lexer.next_token().kind, TokenKind::Invalid);
    let mut lexer2 = Lexer::new("18446744073709551615".to_string());
    assert_eq!(lexer2.next_token().kind, TokenKind::Number(u64::MAX));
}

#[test]
fn spans_cover_tokens() {
    let mut lexer = Lexer::new("  let x".to_string());
    let t = lexer.next_token();
    assert_eq!(t.span.start, 2);
    assert_eq!(t.span.end, 5);
    let t2 = lexer.next_token();
    assert_eq!(t2.span.start, 6);
    assert_eq!(t2.span.end, 7);
}
