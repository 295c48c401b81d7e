use lexer_frontend::token::{Token, TokenType};

#[test]
fn test_token_creation() {
    let token = Token::new(TokenType::Int, "5".to_string());
    assert_eq!(token.token_type, TokenType::Int);
    assert_eq!(Some(token.literal.as_str()), Some("5"));
}

#[test]
fn test_token_display() {
    let token = Token::new(TokenType::Int, "42".to_string());
    let display = token.to_string();
    assert!(display.contains("Int"));
    assert!(display.contains("42"));
}

#[test]
fn display_of_a_token_with_captured_text() {
    assert_eq!(Token::new(TokenType::Int, "42".to_string()).to_string(), "Token(Int, '42')");
    assert_eq!(Token::new(TokenType::Ident, "five".to_string()).to_string(), "Token(Ident, 'five')");
    assert_eq!(Token::new(TokenType::Illegal, "@".to_string()).to_string(), "Token(Illegal, '@')");
    assert_eq!(Token::new(TokenType::Ident, String::new()).to_string(), "Token(Ident, '')");
}

#[test]
fn display_of_a_token_with_fixed_text() {
    assert_eq!(Token::new(TokenType::Plus, "+".to_string()).to_string(), "Token(Plus, '+')");
    assert_eq!(Token::new(TokenType::LBrace, "{".to_string()).to_string(), "Token(LBrace, '{')");
    assert_eq!(Token::new(TokenType::Let, "LET".to_string()).to_string(), "Token(Let, 'LET')");
    assert_eq!(
        Token::new(TokenType::Function, "FUNCTION".to_string()).to_string(),
        "Token(Function, 'FUNCTION')"
    );
}

#[test]
fn display_takes_fixed_text_from_the_kind() {
    // The text of the kind is shown, whatever the token was given.
    assert_eq!(Token::new(TokenType::Comma, "?".to_string()).to_string(), "Token(Comma, ',')");
    assert_eq!(Token::new(TokenType::Eof, String::new()).to_string(), "Token(Eof, 'EndOfFile')");
}

#[test]
fn new_keeps_kind_and_text() {
    let token = Token::new(TokenType::Illegal, "\u{e9}".to_string());
    assert_eq!(token.token_type, TokenType::Illegal);
    assert_eq!(token.literal, "\u{e9}");
}

#[test]
fn tokens_are_equal_when_kind_and_text_are() {
    let a = Token::new(TokenType::Ident, "x".to_string());
    let b = Token::new(TokenType::Ident, "x".to_string());
    let other_text = Token::new(TokenType::Ident, "y".to_string());
    let other_kind = Token::new(TokenType::Illegal, "x".to_string());
    assert_eq!(a, b);
    assert_ne!(a, other_text);
    assert_ne!(a, other_kind);
}

#[test]
fn clone_is_equal_to_the_token() {
    let token = Token::new(TokenType::Ident, "answer".to_string());
    let copy = token.clone();
    assert_eq!(copy, token);
    assert_eq!(copy.token_type, TokenType::Ident);
    assert_eq!(copy.literal, "answer");
}
