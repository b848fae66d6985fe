use monkey::repl::line_tokens;
use monkey::token::Token;

#[test]
fn line_tokens_stop_at_the_end_of_the_line() {
    assert_eq!(
        line_tokens("let x = 5;\n".to_string()),
        vec![
            Token::LET,
            Token::IDENT("x".into()),
            Token::ASSIGN,
            Token::INT("5".into()),
            Token::SEMICOLON
        ]
    );
    assert_eq!(line_tokens(String::new()), vec![]);
    assert_eq!(line_tokens("  \n".to_string()), vec![]);
}

#[test]
fn line_tokens_stop_before_the_first_illegal_token() {
    assert_eq!(
        line_tokens("a + @ b\n".to_string()),
        vec![Token::IDENT("a".into()), Token::PLUS]
    );
    assert_eq!(line_tokens("#".to_string()), vec![]);
}
