use lexer_frontend::lexer::Lexer;
use lexer_frontend::token::TokenType;

#[test]
fn test_lexer_creation() {
    let lexer = Lexer::new("let x = 5;".to_string());
    assert_eq!(lexer.ch(), b'l');
}

#[test]
fn test_read_char() {
    let mut lexer = Lexer::new("abc".to_string());
    assert_eq!(lexer.ch(), b'a');

    lexer.read_char();
    assert_eq!(lexer.ch(), b'b');

    lexer.read_char();
    assert_eq!(lexer.ch(), b'c');

    lexer.read_char();
    assert_eq!(lexer.ch(), 0);
}

#[test]
fn test_next_token() {
    let input = r#"x , y"#;
    println!("{}", input);
    let mut lexer = Lexer::new(input.to_string());

    let tokens: Vec<TokenType> = lexer.tokens().into_iter().map(|t| t.token_type).collect();
    println!("{:#?}", tokens);

    assert_eq!(tokens, vec![TokenType::Ident, TokenType::Comma, TokenType::Ident]);
}
