use monkey::token::{lookup_identifier, Token, TokenKind};

#[test]
fn lookup_identifier_resolves_keywords() {
    assert_eq!(lookup_identifier("let".to_string()), Token::LET);
    assert_eq!(lookup_identifier("fn".to_string()), Token::FUNCTION);
    assert_eq!(lookup_identifier("true".to_string()), Token::TRUE);
    assert_eq!(lookup_identifier("false".to_string()), Token::FALSE);
    assert_eq!(lookup_identifier("if".to_string()), Token::IF);
    assert_eq!(lookup_identifier("else".to_string()), Token::ELSE);
    assert_eq!(lookup_identifier("return".to_string()), Token::RETURN);
}

#[test]
fn lookup_identifier_keeps_other_names() {
    assert_eq!(lookup_identifier("foobar".to_string()), Token::IDENT("foobar".into()));
    assert_eq!(lookup_identifier("lett".to_string()), Token::IDENT("lett".into()));
    assert_eq!(lookup_identifier("le".to_string()), Token::IDENT("le".into()));
    assert_eq!(lookup_identifier("LET".to_string()), Token::IDENT("LET".into()));
    assert_eq!(lookup_identifier("".to_string()), Token::IDENT("".into()));
    assert_eq!(lookup_identifier("été".to_string()), Token::IDENT("été".into()));
}

#[test]
fn tokens_compare_by_kind_and_text() {
    assert_eq!(Token::IDENT("a".into()), Token::IDENT("a".into()));
    assert_ne!(Token::IDENT("a".into()), Token::IDENT("b".into()));
    assert_ne!(Token::IDENT("1".into()), Token::INT("1".into()));
    assert_ne!(Token::ASSIGN, Token::EQ);
    assert_eq!(Token::EOF, Token::EOF);
    let token = Token::INT("42".into());
    assert_eq!(token.clone(), token);
    assert_eq!(Token::RBRACE.clone(), Token::RBRACE);
}

#[test]
fn token_literals() {
    let cases = [
        (Token::ILLEGAL, "ILLEGAL"),
        (Token::EOF, "\0"),
        (Token::IDENT("foo".into()), "foo"),
        (Token::INT("12".into()), "12"),
        (Token::ASSIGN, "="),
        (Token::PLUS, "+"),
        (Token::MINUS, "-"),
        (Token::BANG, "!"),
        (Token::ASTERISK, "*"),
        (Token::SLASH, "/"),
        (Token::LT, "<"),
        (Token::GT, ">"),
        (Token::EQ, "=="),
        (Token::NotEq, "!="),
        (Token::COMMA, ","),
        (Token::SEMICOLON, ";"),
        (Token::LPAREN, "("),
        (Token::RPAREN, ")"),
        (Token::LBRACE, "{"),
        (Token::RBRACE, "}"),
        (Token::FUNCTION, "fn"),
        (Token::LET, "let"),
        (Token::TRUE, "true"),
        (Token::FALSE, "false"),
        (Token::IF, "if"),
        (Token::ELSE, "else"),
        (Token::RETURN, "return"),
    ];
    for (token, literal) in cases {
        assert_eq!(token.to_string(), literal);
    }
}

#[test]
fn token_kinds_and_their_names() {
    let cases = [
        (Token::ILLEGAL, TokenKind::Illegal, "Illegal"),
        (Token::EOF, TokenKind::EndOfInput, "EndOfInput"),
        (Token::IDENT("foo".into()), TokenKind::Identifier, "Identifier"),
        (Token::INT("12".into()), TokenKind::IntegerLiteral, "IntegerLiteral"),
        (Token::ASSIGN, TokenKind::Assign, "Assign"),
        (Token::PLUS, TokenKind::Plus, "Plus"),
        (Token::MINUS, TokenKind::Minus, "Minus"),
        (Token::BANG, TokenKind::Bang, "Bang"),
        (Token::ASTERISK, TokenKind::Asterisk, "Asterisk"),
        (Token::SLASH, TokenKind::Slash, "Slash"),
        (Token::LT, TokenKind::LessThan, "LessThan"),
        (Token::GT, TokenKind::GreaterThan, "GreaterThan"),
        (Token::EQ, TokenKind::Equal, "Equal"),
        (Token::NotEq, TokenKind::NotEqual, "NotEqual"),
        (Token::COMMA, TokenKind::Comma, "Comma"),
        (Token::SEMICOLON, TokenKind::Semicolon, "Semicolon"),
        (Token::LPAREN, TokenKind::LParen, "LParen"),
        (Token::RPAREN, TokenKind::RParen, "RParen"),
        (Token::LBRACE, TokenKind::LBrace, "LBrace"),
        (Token::RBRACE, TokenKind::RBrace, "RBrace"),
        (Token::FUNCTION, TokenKind::Function, "Function"),
        (Token::LET, TokenKind::Let, "Let"),
        (Token::TRUE, TokenKind::True, "True"),
        (Token::FALSE, TokenKind::False, "False"),
        (Token::IF, TokenKind::If, "If"),
        (Token::ELSE, TokenKind::Else, "Else"),
        (Token::RETURN, TokenKind::Return, "Return"),
    ];
    for (token, kind, name) in cases {
        assert_eq!(token.kind(), kind);
        assert_eq!(kind.name(), name);
        if kind != TokenKind::Identifier && kind != TokenKind::IntegerLiteral {
            assert_eq!(Token::bare(kind), token);
        }
        assert_eq!(Token::bare(kind).kind(), kind);
    }
    assert_eq!(Token::IDENT("foo".into()).text(), "foo");
    assert_eq!(Token::INT("12".into()).text(), "12");
    assert_eq!(Token::LET.text(), "");
}
