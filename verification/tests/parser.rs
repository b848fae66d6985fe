use monkey::ast::{Expressions, InfixOperator, LetStatement, Node, PrefixOperator, Statements};
use monkey::diagnostics::ParserError;
use monkey::grammar::Precedence;
use monkey::lexer::Lexer;
use monkey::parser::{parse_integer, Parser};
use monkey::token::{Token, TokenKind};

fn test_let_statement(statement: &LetStatement, name: String) -> bool {
    if statement.token_literal() != Token::LET.to_string() {
        return false;
    }

    if statement.name.value != name {
        return false;
    }

    if statement.name.token_literal() != name {
        return false;
    }

    true
}

fn parse(input: &str) -> (Vec<Statements>, Vec<ParserError>) {
    let lexer = Lexer::new(input.into());
    let mut parser = Parser::new(lexer);
    let program = parser.parse_program().expect("a program");
    (program.statements, parser.errors().clone())
}

fn render(expression: &Expressions) -> String {
    match expression {
        Expressions::Identifier(identifier) => identifier.value.clone(),
        Expressions::IntegerLiteral(literal) => format!("{}", literal.value),
        Expressions::Prefix(prefix) => {
            let operator = match prefix.operator {
                PrefixOperator::Minus => "-",
                PrefixOperator::Bang => "!",
            };
            format!("({}{})", operator, render(&prefix.operand))
        }
        Expressions::Infix(infix) => {
            let operator = match infix.operator {
                InfixOperator::Plus => "+",
                InfixOperator::Minus => "-",
                InfixOperator::Asterisk => "*",
                InfixOperator::Slash => "/",
                InfixOperator::LessThan => "<",
                InfixOperator::GreaterThan => ">",
                InfixOperator::Equal => "==",
                InfixOperator::NotEqual => "!=",
            };
            format!("({} {} {})", render(&infix.left), operator, render(&infix.right))
        }
    }
}

fn render_program(statements: &Vec<Statements>) -> String {
    let mut out = String::new();
    for statement in statements {
        match statement {
            Statements::Let(s) => {
                out.push_str(&format!("let {} = {};", s.name.value, render(&s.value)))
            }
            Statements::Return(s) => out.push_str(&format!("return {};", render(&s.value))),
            Statements::Expression(s) => out.push_str(&render(&s.value)),
        }
    }
    out
}

#[test]
fn test_parse_let_statements() {
    let input = "
let x = 5;
let y = 10;
let foobar = 838383;";

    let expected = vec!["x".to_string(), "y".to_string(), "foobar".to_string()];

    let lexer = Lexer::new(input.into());
    let mut parser = Parser::new(lexer);

    let parsed_program = parser.parse_program();

    if let Some(program) = parsed_program {
        assert_eq!(program.statements.len(), 3);
        for (i, name) in expected.into_iter().enumerate() {
            match &program.statements[i] {
                Statements::Let(statement) => assert!(test_let_statement(statement, name)),
                other => panic!("not a let statement: {:?}", other),
            }
        }
    } else {
        panic!("Failed to parse program, got None as a result");
    }
}

#[test]
fn let_statements_carry_their_values_and_no_diagnostics() {
    let (statements, errors) = parse("let x = 5;\nlet y = 10;\nlet foobar = 838383;");
    assert!(errors.is_empty());
    assert_eq!(statements.len(), 3);
    let expected = [("x", 5i64), ("y", 10), ("foobar", 838383)];
    for (statement, (name, value)) in statements.iter().zip(expected) {
        match statement {
            Statements::Let(statement) => {
                assert_eq!(statement.token, Token::LET);
                assert_eq!(statement.name.value, name);
                assert_eq!(statement.name.token, Token::IDENT(name.to_string()));
                match &statement.value {
                    Expressions::IntegerLiteral(literal) => {
                        assert_eq!(literal.value, value);
                        assert_eq!(literal.token, Token::INT(value.to_string()));
                    }
                    other => panic!("not an integer literal: {:?}", other),
                }
            }
            other => panic!("not a let statement: {:?}", other),
        }
    }
}

#[test]
fn missing_assign_is_reported_and_parsing_resumes_after_the_semicolon() {
    let (statements, errors) = parse("let x 5;");
    assert_eq!(
        errors,
        vec![ParserError::UnexpectedToken {
            expected: TokenKind::Assign,
            actual: TokenKind::IntegerLiteral
        }]
    );
    let message = errors[0].message();
    assert_eq!(message, "Expected Token: Assign -- Got: IntegerLiteral");
    assert!(message.contains("Assign"));
    assert!(message.contains("IntegerLiteral"));
    assert!(statements.is_empty());

    let (statements, errors) = parse("let x 5; let y = 7;");
    assert_eq!(errors.len(), 1);
    assert_eq!(render_program(&statements), "let y = 7;");
}

#[test]
fn missing_identifier_is_reported() {
    let (statements, errors) = parse("let = 5;");
    assert_eq!(
        errors,
        vec![ParserError::UnexpectedToken {
            expected: TokenKind::Identifier,
            actual: TokenKind::Assign
        }]
    );
    assert_eq!(errors[0].message(), "Expected Token: Identifier -- Got: Assign");
    assert!(statements.is_empty());
}

#[test]
fn bare_expression_statement() {
    let (statements, errors) = parse("foobar;");
    assert!(errors.is_empty());
    assert_eq!(statements.len(), 1);
    match &statements[0] {
        Statements::Expression(statement) => {
            assert_eq!(statement.token, Token::IDENT("foobar".into()));
            match &statement.value {
                Expressions::Identifier(identifier) => {
                    assert_eq!(identifier.value, "foobar");
                    assert_eq!(identifier.token, Token::IDENT("foobar".into()));
                    assert_eq!(identifier.token_literal(), "foobar");
                }
                other => panic!("not an identifier: {:?}", other),
            }
        }
        other => panic!("not an expression statement: {:?}", other),
    }
}

#[test]
fn semicolon_after_an_expression_is_optional() {
    let (statements, errors) = parse("foobar");
    assert!(errors.is_empty());
    assert_eq!(render_program(&statements), "foobar");
}

#[test]
fn diagnostics_come_in_source_order_and_are_not_deduplicated() {
    let (statements, errors) = parse("let x 5; let = 1; let y 6; ) ; let z 7;");
    assert!(statements.is_empty());
    assert_eq!(
        errors,
        vec![
            ParserError::UnexpectedToken {
                expected: TokenKind::Assign,
                actual: TokenKind::IntegerLiteral
            },
            ParserError::UnexpectedToken {
                expected: TokenKind::Identifier,
                actual: TokenKind::Assign
            },
            ParserError::UnexpectedToken {
                expected: TokenKind::Assign,
                actual: TokenKind::IntegerLiteral
            },
            ParserError::NoPrefixParseFunction { kind: TokenKind::RParen },
            ParserError::UnexpectedToken {
                expected: TokenKind::Assign,
                actual: TokenKind::IntegerLiteral
            },
        ]
    );
}

#[test]
fn no_prefix_parse_function_message() {
    let (statements, errors) = parse("*;");
    assert!(statements.is_empty());
    assert_eq!(errors, vec![ParserError::NoPrefixParseFunction { kind: TokenKind::Asterisk }]);
    assert_eq!(errors[0].message(), "no prefix parse function for token kind Asterisk");
}

#[test]
fn operator_precedence() {
    let cases = [
        ("-a * b", "((-a) * b)"),
        ("!-a", "(!(-a))"),
        ("a + b + c", "((a + b) + c)"),
        ("a + b - c", "((a + b) - c)"),
        ("a * b * c", "((a * b) * c)"),
        ("a * b / c", "((a * b) / c)"),
        ("a + b / c", "(a + (b / c))"),
        ("a + b * c + d / e - f", "(((a + (b * c)) + (d / e)) - f)"),
        ("5 > 4 == 3 < 4", "((5 > 4) == (3 < 4))"),
        ("5 < 4 != 3 > 4", "((5 < 4) != (3 > 4))"),
        ("3 + 4 * 5 == 3 * 1 + 4 * 5", "((3 + (4 * 5)) == ((3 * 1) + (4 * 5)))"),
        ("1 + (2 + 3) + 4", "((1 + (2 + 3)) + 4)"),
        ("(5 + 5) * 2", "((5 + 5) * 2)"),
        ("2 / (5 + 5)", "(2 / (5 + 5))"),
        ("-(5 + 5)", "(-(5 + 5))"),
        ("((a))", "a"),
    ];
    for (input, expected) in cases {
        let (statements, errors) = parse(input);
        assert!(errors.is_empty(), "{}: {:?}", input, errors);
        assert_eq!(render_program(&statements), expected, "{}", input);
    }
}

#[test]
fn infix_expression_keeps_the_operator_token() {
    let (statements, errors) = parse("5 != 6;");
    assert!(errors.is_empty());
    match &statements[0] {
        Statements::Expression(statement) => {
            assert_eq!(statement.token, Token::INT("5".into()));
            assert_eq!(statement.token_literal(), "5");
            match &statement.value {
                Expressions::Infix(infix) => {
                    assert_eq!(infix.token, Token::NotEq);
                    assert_eq!(infix.operator, InfixOperator::NotEqual);
                    assert_eq!(infix.token_literal(), "!=");
                    assert_eq!(statement.value.token_literal(), "!=");
                }
                other => panic!("not an infix expression: {:?}", other),
            }
        }
        other => panic!("not an expression statement: {:?}", other),
    }
}

#[test]
fn return_statements() {
    let (statements, errors) = parse("return 5; return x + y; return -1");
    assert!(errors.is_empty());
    assert_eq!(render_program(&statements), "return 5;return (x + y);return (-1);");
    match &statements[0] {
        Statements::Return(statement) => {
            assert_eq!(statement.token, Token::RETURN);
            assert_eq!(statement.token_literal(), "return");
        }
        other => panic!("not a return statement: {:?}", other),
    }
    assert_eq!(statements[1].token_literal(), "return");
}

#[test]
fn return_without_a_value_is_reported() {
    let (statements, errors) = parse("return; 5;");
    assert_eq!(errors, vec![ParserError::NoPrefixParseFunction { kind: TokenKind::Semicolon }]);
    assert_eq!(render_program(&statements), "5");
}

#[test]
fn let_and_return_pass_over_what_stands_before_the_semicolon() {
    let (statements, errors) = parse("let x = 1 2 3; return 4 5; 6");
    assert!(errors.is_empty());
    assert_eq!(render_program(&statements), "let x = 1;return 4;6");
}

#[test]
fn expression_statements_follow_one_another_without_semicolons() {
    let (statements, errors) = parse("5 5;");
    assert!(errors.is_empty());
    assert_eq!(statements.len(), 2);
    assert_eq!(render_program(&statements), "55");
}

#[test]
fn unclosed_parenthesis_is_reported() {
    let (statements, errors) = parse("(1 + 2; 3;");
    assert_eq!(
        errors,
        vec![ParserError::UnexpectedToken {
            expected: TokenKind::RParen,
            actual: TokenKind::Semicolon
        }]
    );
    assert_eq!(errors[0].message(), "Expected Token: RParen -- Got: Semicolon");
    assert_eq!(render_program(&statements), "3");
}

#[test]
fn failing_operand_fails_the_expression() {
    let (statements, errors) = parse("let x = 1 + ; let y = 2;");
    assert_eq!(errors, vec![ParserError::NoPrefixParseFunction { kind: TokenKind::Semicolon }]);
    assert_eq!(render_program(&statements), "let y = 2;");

    let (statements, errors) = parse("- ;");
    assert_eq!(errors, vec![ParserError::NoPrefixParseFunction { kind: TokenKind::Semicolon }]);
    assert!(statements.is_empty());
}

#[test]
fn a_call_is_no_infix_expression() {
    let (statements, errors) = parse("add(five, ten);");
    assert_eq!(
        errors,
        vec![ParserError::UnexpectedToken {
            expected: TokenKind::RParen,
            actual: TokenKind::Comma
        }]
    );
    assert_eq!(render_program(&statements), "add");
}

#[test]
fn empty_input_is_an_empty_program() {
    let (statements, errors) = parse("");
    assert!(statements.is_empty());
    assert!(errors.is_empty());
    let (statements, errors) = parse(" \n\t ");
    assert!(statements.is_empty());
    assert!(errors.is_empty());
}

#[test]
fn program_token_literal_is_that_of_the_first_statement() {
    let lexer = Lexer::new("let x = 5; y;".into());
    let mut parser = Parser::new(lexer);
    let program = parser.parse_program().unwrap();
    assert_eq!(program.token_literal(), "let");

    let lexer = Lexer::new("".into());
    let mut parser = Parser::new(lexer);
    let program = parser.parse_program().unwrap();
    assert_eq!(program.token_literal(), "");
}

#[test]
fn parser_advances_one_token_at_a_time() {
    let lexer = Lexer::new("let x".into());
    let mut parser = Parser::new(lexer);
    parser.next_token();
    let program = parser.parse_program().unwrap();
    assert_eq!(render_program(&program.statements), "x");
    parser.next_token();
    parser.next_token();
    assert!(parser.errors().is_empty());
    let program = parser.parse_program().unwrap();
    assert!(program.statements.is_empty());
}

#[test]
fn integer_literal_limits() {
    assert_eq!(parse_integer("0"), Some(0));
    assert_eq!(parse_integer("12345"), Some(12345));
    assert_eq!(parse_integer("007"), Some(7));
    assert_eq!(parse_integer("9223372036854775807"), Some(i64::MAX));
    assert_eq!(parse_integer("9223372036854775808"), None);
    assert_eq!(parse_integer("00000000000000000000000000000000000001"), Some(1));
    assert_eq!(parse_integer("99999999999999999999999999"), None);
    assert_eq!(parse_integer(""), None);
    assert_eq!(parse_integer("12a"), None);
    assert_eq!(parse_integer("-1"), None);
    assert_eq!(parse_integer("１２"), None);
}

#[test]
fn integer_literal_out_of_range_is_reported() {
    let (statements, errors) = parse("let x = 9223372036854775808; 9223372036854775807");
    assert_eq!(errors, vec![ParserError::InvalidInteger]);
    assert_eq!(errors[0].message(), "could not parse integer literal");
    assert_eq!(render_program(&statements), "9223372036854775807");
}

#[test]
fn illegal_characters_are_reported_by_the_parser() {
    let (statements, errors) = parse("let x = @; 1");
    assert_eq!(errors, vec![ParserError::NoPrefixParseFunction { kind: TokenKind::Illegal }]);
    assert_eq!(render_program(&statements), "1");
}

#[test]
fn expression_stops_at_an_operator_that_binds_no_tighter() {
    let mut parser = Parser::new(Lexer::new("a + b * c - d".into()));
    let expression = parser.parse_expression(Precedence::Sum).unwrap();
    assert_eq!(render(&expression), "a");
    assert!(parser.expect_peek(TokenKind::Plus));

    let mut parser = Parser::new(Lexer::new("a * b + c".into()));
    let expression = parser.parse_expression(Precedence::Sum).unwrap();
    assert_eq!(render(&expression), "(a * b)");
    assert!(parser.expect_peek(TokenKind::Plus));
    assert!(parser.expect_peek(TokenKind::Identifier));
    let expression = parser.parse_expression(Precedence::Lowest).unwrap();
    assert_eq!(render(&expression), "c");
    assert!(parser.errors().is_empty());
}

#[test]
fn expect_peek_advances_only_on_a_match() {
    let mut parser = Parser::new(Lexer::new("let x = 5;".into()));
    assert!(!parser.expect_peek(TokenKind::Assign));
    assert!(!parser.expect_peek(TokenKind::Let));
    assert!(parser.expect_peek(TokenKind::Identifier));
    assert!(!parser.expect_peek(TokenKind::Identifier));
    assert!(parser.expect_peek(TokenKind::Assign));
    assert!(parser.expect_peek(TokenKind::IntegerLiteral));
    assert!(parser.expect_peek(TokenKind::Semicolon));
    assert!(parser.expect_peek(TokenKind::EndOfInput));
    assert!(parser.expect_peek(TokenKind::EndOfInput));
    assert!(parser.errors().is_empty());
}

#[test]
fn statements_one_at_a_time() {
    let mut parser = Parser::new(Lexer::new("let a = 1; let 2; return b;".into()));
    let first = parser.parse_statement().unwrap();
    assert_eq!(render_program(&vec![first]), "let a = 1;");
    parser.next_token();
    assert_eq!(parser.parse_statement(), None);
    assert_eq!(
        parser.errors(),
        &vec![ParserError::UnexpectedToken {
            expected: TokenKind::Identifier,
            actual: TokenKind::IntegerLiteral
        }]
    );
    parser.next_token();
    let third = parser.parse_statement().unwrap();
    assert_eq!(
        third,
        Statements::Return(monkey::ast::ReturnStatement {
            token: Token::RETURN,
            value: Expressions::Identifier(monkey::ast::Identifier {
                token: Token::IDENT("b".into()),
                value: "b".into()
            })
        })
    );
}

#[test]
fn prefix_expression_keeps_the_operator_token() {
    let (statements, errors) = parse("!x; -5");
    assert!(errors.is_empty());
    assert_eq!(statements.len(), 2);
    assert_eq!(
        statements[0],
        Statements::Expression(monkey::ast::ExpressionStatement {
            token: Token::BANG,
            value: Expressions::Prefix(monkey::ast::PrefixExpression {
                token: Token::BANG,
                operator: PrefixOperator::Bang,
                operand: Box::new(Expressions::Identifier(monkey::ast::Identifier {
                    token: Token::IDENT("x".into()),
                    value: "x".into()
                }))
            })
        })
    );
    assert_eq!(
        statements[1],
        Statements::Expression(monkey::ast::ExpressionStatement {
            token: Token::MINUS,
            value: Expressions::Prefix(monkey::ast::PrefixExpression {
                token: Token::MINUS,
                operator: PrefixOperator::Minus,
                operand: Box::new(Expressions::IntegerLiteral(monkey::ast::IntegerLiteral {
                    token: Token::INT("5".into()),
                    value: 5
                }))
            })
        })
    );
    assert_eq!(statements[1].token_literal(), "-");
}

#[test]
fn operators_map_from_token_kinds() {
    assert_eq!(InfixOperator::of(TokenKind::Plus), Some(InfixOperator::Plus));
    assert_eq!(InfixOperator::of(TokenKind::Minus), Some(InfixOperator::Minus));
    assert_eq!(InfixOperator::of(TokenKind::Asterisk), Some(InfixOperator::Asterisk));
    assert_eq!(InfixOperator::of(TokenKind::Slash), Some(InfixOperator::Slash));
    assert_eq!(InfixOperator::of(TokenKind::LessThan), Some(InfixOperator::LessThan));
    assert_eq!(InfixOperator::of(TokenKind::GreaterThan), Some(InfixOperator::GreaterThan));
    assert_eq!(InfixOperator::of(TokenKind::Equal), Some(InfixOperator::Equal));
    assert_eq!(InfixOperator::of(TokenKind::NotEqual), Some(InfixOperator::NotEqual));
    assert_eq!(InfixOperator::of(TokenKind::Bang), None);
    assert_eq!(InfixOperator::of(TokenKind::LParen), None);
    assert_eq!(InfixOperator::of(TokenKind::Assign), None);
}

#[test]
fn precedence_ladder() {
    let ladder = [
        Precedence::Lowest,
        Precedence::Equals,
        Precedence::LessGreater,
        Precedence::Sum,
        Precedence::Product,
        Precedence::Prefix,
        Precedence::Call,
    ];
    for (level, precedence) in ladder.iter().enumerate() {
        assert_eq!(precedence.level() as usize, level);
    }
    assert_eq!(Precedence::of(TokenKind::Equal), Precedence::Equals);
    assert_eq!(Precedence::of(TokenKind::NotEqual), Precedence::Equals);
    assert_eq!(Precedence::of(TokenKind::LessThan), Precedence::LessGreater);
    assert_eq!(Precedence::of(TokenKind::GreaterThan), Precedence::LessGreater);
    assert_eq!(Precedence::of(TokenKind::Plus), Precedence::Sum);
    assert_eq!(Precedence::of(TokenKind::Minus), Precedence::Sum);
    assert_eq!(Precedence::of(TokenKind::Asterisk), Precedence::Product);
    assert_eq!(Precedence::of(TokenKind::Slash), Precedence::Product);
    assert_eq!(Precedence::of(TokenKind::LParen), Precedence::Call);
    assert_eq!(Precedence::of(TokenKind::Semicolon), Precedence::Lowest);
    assert_eq!(Precedence::of(TokenKind::Identifier), Precedence::Lowest);
}

#[test]
fn parser_holds_the_current_token_and_the_one_after_it() {
    let mut parser = Parser::new(Lexer::new("let x".into()));
    assert_eq!(parser.current_token(), &Token::LET);
    assert_eq!(parser.peek_token(), &Token::IDENT("x".into()));
    parser.next_token();
    assert_eq!(parser.current_token(), &Token::IDENT("x".into()));
    assert_eq!(parser.peek_token(), &Token::EOF);
    parser.next_token();
    assert_eq!(parser.current_token(), &Token::EOF);
    assert_eq!(parser.peek_token(), &Token::EOF);
    parser.next_token();
    assert_eq!(parser.current_token(), &Token::EOF);
    assert_eq!(parser.peek_token(), &Token::EOF);
}

#[test]
fn statement_cut_short_by_the_end_of_the_input() {
    let (statements, errors) = parse("let");
    assert!(statements.is_empty());
    assert_eq!(
        errors,
        vec![ParserError::UnexpectedToken {
            expected: TokenKind::Identifier,
            actual: TokenKind::EndOfInput
        }]
    );
    assert_eq!(errors[0].message(), "Expected Token: Identifier -- Got: EndOfInput");

    let (statements, errors) = parse("let x =");
    assert!(statements.is_empty());
    assert_eq!(errors, vec![ParserError::NoPrefixParseFunction { kind: TokenKind::EndOfInput }]);

    let (statements, errors) = parse("let x = 5");
    assert!(errors.is_empty());
    assert_eq!(render_program(&statements), "let x = 5;");
}

#[test]
fn long_program() {
    let mut input = String::new();
    let mut expected = String::new();
    for i in 0..2000 {
        input.push_str(&format!("let name = {} + {} * 2;\n", i, i));
        expected.push_str(&format!("let name = ({} + ({} * 2));", i, i));
    }
    let (statements, errors) = parse(&input);
    assert!(errors.is_empty());
    assert_eq!(statements.len(), 2000);
    assert_eq!(render_program(&statements), expected);
}

#[test]
fn text_outside_ascii_is_illegal_but_does_not_stop_the_parser() {
    let (statements, errors) = parse("let é = 1; let x = 2;");
    assert_eq!(
        errors,
        vec![ParserError::UnexpectedToken {
            expected: TokenKind::Identifier,
            actual: TokenKind::Illegal
        }]
    );
    assert_eq!(render_program(&statements), "let x = 2;");
}

#[test]
fn every_node_gives_the_literal_of_its_token() {
    let (statements, errors) = parse("let x = -12;");
    assert!(errors.is_empty());
    match &statements[0] {
        Statements::Let(statement) => {
            assert_eq!(statement.token_literal(), "let");
            assert_eq!(statement.name.token_literal(), "x");
            assert_eq!(statement.value.token_literal(), "-");
            match &statement.value {
                Expressions::Prefix(prefix) => {
                    assert_eq!(prefix.token_literal(), "-");
                    assert_eq!(prefix.operand.token_literal(), "12");
                    match &*prefix.operand {
                        Expressions::IntegerLiteral(literal) => {
                            assert_eq!(literal.token_literal(), "12");
                            assert_eq!(literal.value, 12);
                        }
                        other => panic!("not an integer literal: {:?}", other),
                    }
                }
                other => panic!("not a prefix expression: {:?}", other),
            }
        }
        other => panic!("not a let statement: {:?}", other),
    }
    assert_eq!(statements[0].token_literal(), "let");
}
