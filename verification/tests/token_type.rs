use lexer_frontend::token::TokenType;

#[test]
fn test_token_type_as_str() {
    assert_eq!(TokenType::Plus.as_str(), "+");
    assert_eq!(TokenType::Comma.as_str(), ",");
}

#[test]
fn test_token_type_equality() {
    assert_eq!(TokenType::Int, TokenType::Int);
    assert_eq!(TokenType::Illegal, TokenType::Illegal);
}

#[test]
fn as_str_of_every_kind() {
    assert_eq!(TokenType::Illegal.as_str(), "ILLEGAL");
    assert_eq!(TokenType::Eof.as_str(), "EndOfFile");
    assert_eq!(TokenType::Ident.as_str(), "IDENT");
    assert_eq!(TokenType::Int.as_str(), "INT");
    assert_eq!(TokenType::Assign.as_str(), "=");
    assert_eq!(TokenType::Plus.as_str(), "+");
    assert_eq!(TokenType::Comma.as_str(), ",");
    assert_eq!(TokenType::Semicolon.as_str(), ";");
    assert_eq!(TokenType::LParen.as_str(), "(");
    assert_eq!(TokenType::RParen.as_str(), ")");
    assert_eq!(TokenType::LBrace.as_str(), "{");
    assert_eq!(TokenType::RBrace.as_str(), "}");
    assert_eq!(TokenType::Function.as_str(), "FUNCTION");
    assert_eq!(TokenType::Let.as_str(), "LET");
}

#[test]
fn name_of_every_kind() {
    assert_eq!(TokenType::Illegal.name(), "Illegal");
    assert_eq!(TokenType::Eof.name(), "Eof");
    assert_eq!(TokenType::Ident.name(), "Ident");
    assert_eq!(TokenType::Int.name(), "Int");
    assert_eq!(TokenType::Assign.name(), "Assign");
    assert_eq!(TokenType::Plus.name(), "Plus");
    assert_eq!(TokenType::Comma.name(), "Comma");
    assert_eq!(TokenType::Semicolon.name(), "Semicolon");
    assert_eq!(TokenType::LParen.name(), "LParen");
    assert_eq!(TokenType::RParen.name(), "RParen");
    assert_eq!(TokenType::LBrace.name(), "LBrace");
    assert_eq!(TokenType::RBrace.name(), "RBrace");
    assert_eq!(TokenType::Function.name(), "Function");
    assert_eq!(TokenType::Let.name(), "Let");
}

#[test]
fn name_agrees_with_debug() {
    let kinds = vec![
        TokenType::Illegal,
        TokenType::Eof,
        TokenType::Ident,
        TokenType::Int,
        TokenType::Assign,
        TokenType::Plus,
        TokenType::Comma,
        TokenType::Semicolon,
        TokenType::LParen,
        TokenType::RParen,
        TokenType::LBrace,
        TokenType::RBrace,
        TokenType::Function,
        TokenType::Let,
    ];
    for kind in kinds {
        assert_eq!(kind.name(), format!("{:?}", kind));
    }
}

#[test]
fn kinds_differ_from_one_another() {
    assert_ne!(TokenType::Int, TokenType::Ident);
    assert_ne!(TokenType::LParen, TokenType::RParen);
    assert_ne!(TokenType::Eof, TokenType::Illegal);
}
