use monkey::lexer::Lexer;
use monkey::token::Token;

#[test]
fn test_next_token() {
    let input = "
let five = 5;
let ten = 10;
   let add = fn(x, y) {
     x + y;
};
let result = add(five, ten);
!-/*5;
5 < 10 > 5;
if (5 < 10) {
    return true;
} else {
    return false;
}
10 == 10; 10 != 9;"
        .to_string();
    let expected_tokens = vec![
        Token::LET,
        Token::IDENT("five".into()),
        Token::ASSIGN,
        Token::INT("5".into()),
        Token::SEMICOLON,
        Token::LET,
        Token::IDENT("ten".into()),
        Token::ASSIGN,
        Token::INT("10".into()),
        Token::SEMICOLON,
        Token::LET,
        Token::IDENT("add".into()),
        Token::ASSIGN,
        Token::FUNCTION,
        Token::LPAREN,
        Token::IDENT("x".into()),
        Token::COMMA,
        Token::IDENT("y".into()),
        Token::RPAREN,
        Token::LBRACE,
        Token::IDENT("x".into()),
        Token::PLUS,
        Token::IDENT("y".into()),
        Token::SEMICOLON,
        Token::RBRACE,
        Token::SEMICOLON,
        Token::LET,
        Token::IDENT("result".into()),
        Token::ASSIGN,
        Token::IDENT("add".into()),
        Token::LPAREN,
        Token::IDENT("five".into()),
        Token::COMMA,
        Token::IDENT("ten".into()),
        Token::RPAREN,
        Token::SEMICOLON,
        Token::BANG,
        Token::MINUS,
        Token::SLASH,
        Token::ASTERISK,
        Token::INT("5".into()),
        Token::SEMICOLON,
        Token::INT("5".into()),
        Token::LT,
        Token::INT("10".into()),
        Token::GT,
        Token::INT("5".into()),
        Token::SEMICOLON,
        Token::IF,
        Token::LPAREN,
        Token::INT("5".into()),
        Token::LT,
        Token::INT("10".into()),
        Token::RPAREN,
        Token::LBRACE,
        Token::RETURN,
        Token::TRUE,
        Token::SEMICOLON,
        Token::RBRACE,
        Token::ELSE,
        Token::LBRACE,
        Token::RETURN,
        Token::FALSE,
        Token::SEMICOLON,
        Token::RBRACE,
        Token::INT("10".into()),
        Token::EQ,
        Token::INT("10".into()),
        Token::SEMICOLON,
        Token::INT("10".into()),
        Token::NotEq,
        Token::INT("9".into()),
        Token::SEMICOLON,
    ];

    let mut lexer = Lexer::new(input);
    for expected in expected_tokens {
        let token = lexer.next_token();
        println!("Expected: {} - Got {}", expected.to_string(), token.to_string());
        assert_eq!(expected, token);
    }
}

fn tokens(input: &str) -> Vec<Token> {
    let mut lexer = Lexer::new(input.to_string());
    let mut out = Vec::new();
    loop {
        let token = lexer.next_token();
        if token == Token::EOF {
            return out;
        }
        out.push(token);
    }
}

#[test]
fn single_character_tokens() {
    let cases = [
        ("=", Token::ASSIGN),
        ("+", Token::PLUS),
        ("-", Token::MINUS),
        ("!", Token::BANG),
        ("*", Token::ASTERISK),
        ("/", Token::SLASH),
        ("<", Token::LT),
        (">", Token::GT),
        (",", Token::COMMA),
        (";", Token::SEMICOLON),
        ("(", Token::LPAREN),
        (")", Token::RPAREN),
        ("{", Token::LBRACE),
        ("}", Token::RBRACE),
    ];
    for (input, expected) in cases {
        let mut lexer = Lexer::new(input.to_string());
        assert_eq!(lexer.position(), 0);
        assert_eq!(lexer.next_token(), expected, "{}", input);
        assert_eq!(lexer.position(), 1);
        assert_eq!(lexer.next_token(), Token::EOF, "{}", input);
        assert_eq!(lexer.position(), 1);
    }
}

#[test]
fn cursor_stands_behind_the_token_produced() {
    let mut lexer = Lexer::new("  let  x1 == ".to_string());
    let expected = [
        (Token::LET, 5),
        (Token::IDENT("x".into()), 8),
        (Token::INT("1".into()), 9),
        (Token::EQ, 12),
        (Token::EOF, 13),
        (Token::EOF, 13),
    ];
    for (token, position) in expected {
        assert_eq!(lexer.next_token(), token);
        assert_eq!(lexer.position(), position);
    }
}

#[test]
fn two_character_operators_are_greedy() {
    assert_eq!(tokens("=="), vec![Token::EQ]);
    assert_eq!(tokens("!="), vec![Token::NotEq]);
    assert_eq!(tokens("==="), vec![Token::EQ, Token::ASSIGN]);
    assert_eq!(tokens("!=="), vec![Token::NotEq, Token::ASSIGN]);
    assert_eq!(tokens("= ="), vec![Token::ASSIGN, Token::ASSIGN]);
    assert_eq!(tokens("!!="), vec![Token::BANG, Token::NotEq]);
    assert_eq!(tokens("=!"), vec![Token::ASSIGN, Token::BANG]);
}

#[test]
fn keywords_and_identifiers() {
    assert_eq!(tokens("let"), vec![Token::LET]);
    assert_eq!(tokens("fn"), vec![Token::FUNCTION]);
    assert_eq!(tokens("true"), vec![Token::TRUE]);
    assert_eq!(tokens("false"), vec![Token::FALSE]);
    assert_eq!(tokens("if"), vec![Token::IF]);
    assert_eq!(tokens("else"), vec![Token::ELSE]);
    assert_eq!(tokens("return"), vec![Token::RETURN]);
    assert_eq!(tokens("foobar"), vec![Token::IDENT("foobar".into())]);
    assert_eq!(tokens("Let"), vec![Token::IDENT("Let".into())]);
    assert_eq!(tokens("lets"), vec![Token::IDENT("lets".into())]);
    assert_eq!(tokens("_under_score"), vec![Token::IDENT("_under_score".into())]);
}

#[test]
fn identifiers_hold_no_digits() {
    assert_eq!(tokens("x1"), vec![Token::IDENT("x".into()), Token::INT("1".into())]);
    assert_eq!(tokens("1x"), vec![Token::INT("1".into()), Token::IDENT("x".into())]);
}

#[test]
fn integer_literals_carry_their_digits() {
    assert_eq!(tokens("12345"), vec![Token::INT("12345".into())]);
    assert_eq!(tokens("007"), vec![Token::INT("007".into())]);
    assert_eq!(tokens("-5"), vec![Token::MINUS, Token::INT("5".into())]);
    assert_eq!(
        monkey::parser::parse_integer(&Token::INT("12345".into()).text()),
        Some(12345)
    );
}

#[test]
fn end_of_input_is_permanent() {
    let mut lexer = Lexer::new("x ".to_string());
    assert_eq!(lexer.next_token(), Token::IDENT("x".into()));
    for _ in 0..10 {
        assert_eq!(lexer.next_token(), Token::EOF);
    }
    let mut lexer = Lexer::new(String::new());
    for _ in 0..10 {
        assert_eq!(lexer.next_token(), Token::EOF);
    }
}

#[test]
fn whitespace_is_space_tab_line_feed_and_carriage_return() {
    assert_eq!(tokens(" \t\r\n a \t\r\n "), vec![Token::IDENT("a".into())]);
    assert_eq!(tokens("a\u{c}b"), vec![
        Token::IDENT("a".into()),
        Token::ILLEGAL,
        Token::IDENT("b".into())
    ]);
}

#[test]
fn unknown_bytes_are_illegal() {
    assert_eq!(tokens("@"), vec![Token::ILLEGAL]);
    assert_eq!(tokens("a # b"), vec![
        Token::IDENT("a".into()),
        Token::ILLEGAL,
        Token::IDENT("b".into())
    ]);
    // every byte of a character outside ASCII is illegal by itself
    assert_eq!(tokens("é"), vec![Token::ILLEGAL, Token::ILLEGAL]);
    // a zero byte inside the text is a byte like any other
    assert_eq!(tokens("a\0b"), vec![
        Token::IDENT("a".into()),
        Token::ILLEGAL,
        Token::IDENT("b".into())
    ]);
}

#[test]
fn whole_program() {
    let input = "let five = 5;
let ten = 10;
let add = fn(x, y) { x + y; };
let result = add(five, ten);
!-/*5;
5 < 10 > 5;
";
    let expected = vec![
        Token::LET,
        Token::IDENT("five".into()),
        Token::ASSIGN,
        Token::INT("5".into()),
        Token::SEMICOLON,
        Token::LET,
        Token::IDENT("ten".into()),
        Token::ASSIGN,
        Token::INT("10".into()),
        Token::SEMICOLON,
        Token::LET,
        Token::IDENT("add".into()),
        Token::ASSIGN,
        Token::FUNCTION,
        Token::LPAREN,
        Token::IDENT("x".into()),
        Token::COMMA,
        Token::IDENT("y".into()),
        Token::RPAREN,
        Token::LBRACE,
        Token::IDENT("x".into()),
        Token::PLUS,
        Token::IDENT("y".into()),
        Token::SEMICOLON,
        Token::RBRACE,
        Token::SEMICOLON,
        Token::LET,
        Token::IDENT("result".into()),
        Token::ASSIGN,
        Token::IDENT("add".into()),
        Token::LPAREN,
        Token::IDENT("five".into()),
        Token::COMMA,
        Token::IDENT("ten".into()),
        Token::RPAREN,
        Token::SEMICOLON,
        Token::BANG,
        Token::MINUS,
        Token::SLASH,
        Token::ASTERISK,
        Token::INT("5".into()),
        Token::SEMICOLON,
        Token::INT("5".into()),
        Token::LT,
        Token::INT("10".into()),
        Token::GT,
        Token::INT("5".into()),
        Token::SEMICOLON,
    ];
    let mut lexer = Lexer::new(input.to_string());
    for token in expected {
        assert_eq!(lexer.next_token(), token);
    }
    assert_eq!(lexer.next_token(), Token::EOF);
    assert_eq!(lexer.next_token(), Token::EOF);
}
