//! The parser: a Pratt parser over the lexer's tokens, with one token of
//! lookahead, that records diagnostics instead of stopping at an error.

use vstd::prelude::*;
use vstd::string::StringSliceAdditionalSpecFns;

use crate::ast::{
    infix_operator_of, prefix_operator_of, ExprView, ExpressionStatement, Expressions, Identifier,
    IdentifierView, InfixExpression, InfixOperator, IntegerLiteral, LetStatement,
    PrefixExpression, PrefixOperator, Program, ReturnStatement, Statements, StmtView,
};
use crate::diagnostics::ParserError;
use crate::grammar::{
    advance, decimal_value, expression, expression_statement, infix_chain, infix_expression,
    integer_value, is_digits, lemma_decimal_value_grows, lemma_diagnostics_in_source_order,
    lemma_statement_end_shift, let_statement, lookahead, prefix, program, return_statement,
    statement, statement_by_kind, statement_end, ExprResult, Precedence,
};
use crate::lexer::Lexer;
use crate::token::{Token, TokenKind, TokenView};

verus! {

/// The value of the integer literal that the text spells, if it spells one
/// that fits in 64 bits.
pub fn parse_integer(text: &str) -> (value: Option<i64>)
    ensures
        match value {
            Some(number) => integer_value(text@) == Some(number as int),
            None => integer_value(text@) is None,
        },
{
    broadcast use vstd::string::is_ascii_spec_bytes;

    if !text.is_ascii() {
        assert(!is_digits(text@));
        return None;
    }
    let bytes = text.as_bytes();
    if bytes.len() == 0 {
        return None;
    }
    let mut number: i64 = 0;
    let mut i: usize = 0;
    while i < bytes.len()
        invariant
            i <= bytes.len(),
            bytes@ == text.spec_bytes(),
            bytes@.len() == text@.len(),
            forall|j: int| 0 <= j < text@.len() ==> bytes@[j] == #[trigger] text@[j] as u8,
            vstd::string::is_ascii(text),
            is_digits(text@.take(i as int)),
            0 <= number,
            number == decimal_value(text@.take(i as int)),
        decreases bytes.len() - i,
    {
        let byte: u8 = bytes[i];
        if !('0' as u8 <= byte && byte <= '9' as u8) {
            assert(!('0' <= text@[i as int] <= '9'));
            return None;
        }
        let digit: i64 = (byte - '0' as u8) as i64;
        proof {
            let longer = text@.take(i + 1);
            assert(longer.drop_last() =~= text@.take(i as int));
            assert(longer.last() == text@[i as int]);
            assert(decimal_value(longer) == number * 10 + digit);
            assert(is_digits(longer));
            if number * 10 + digit > i64::MAX {
                if is_digits(text@) {
                    lemma_decimal_value_grows(text@, i + 1);
                }
            }
        }
        number = match number.checked_mul(10) {
            Some(tens) => match tens.checked_add(digit) {
                Some(sum) => sum,
                None => {
                    return None;
                },
            },
            None => {
                return None;
            },
        };
        i = i + 1;
    }
    proof {
        assert(text@.take(i as int) =~= text@);
    }
    Some(number)
}

/// The state of a parser as a mathematical value.
pub struct ParserView {
    /// The tokens from the current one on, without the end of the input.
    pub tokens: Seq<TokenView>,
    /// The diagnostics recorded so far, oldest first.
    pub errors: Seq<ParserError>,
}

/// What a step of the parser does to its state: it passes over `advanced`
/// tokens and appends `errors` to the diagnostics.
pub open spec fn steps(
    before: ParserView,
    after: ParserView,
    advanced: nat,
    errors: Seq<ParserError>,
) -> bool {
    &&& advanced <= before.tokens.len()
    &&& after.tokens == before.tokens.skip(advanced as int)
    &&& after.errors == before.errors + errors
}

/// The value of an expression that may be missing.
pub open spec fn expr_view(expr: Option<Expressions>) -> Option<ExprView> {
    match expr {
        Some(expr) => Some(expr@),
        None => None,
    }
}

/// The value of a statement that may be missing.
pub open spec fn stmt_view(stmt: Option<Statements>) -> Option<StmtView> {
    match stmt {
        Some(stmt) => Some(stmt@),
        None => None,
    }
}

/// A parser over the tokens of one source text.
pub struct Parser {
    lexer: Lexer,
    current_token: Token,
    peek_token: Token,
    errors: Vec<ParserError>,
}

impl View for Parser {
    type V = ParserView;

    open spec fn view(&self) -> ParserView {
        ParserView { tokens: self.tokens(), errors: self.diagnostics() }
    }
}

impl Parser {
    /// The tokens from the current one on, without the end of the input.
    pub closed spec fn tokens(&self) -> Seq<TokenView> {
        if self.current_token@.kind == TokenKind::EndOfInput {
            Seq::empty()
        } else if self.peek_token@.kind == TokenKind::EndOfInput {
            seq![self.current_token@]
        } else {
            seq![self.current_token@, self.peek_token@] + self.lexer.remaining()
        }
    }

    /// The diagnostics recorded so far, oldest first.
    pub closed spec fn diagnostics(&self) -> Seq<ParserError> {
        self.errors@
    }

    /// The lexer is well-formed, and once the end of the input has been
    /// reached nothing comes after it.
    pub closed spec fn wf(&self) -> bool {
        &&& self.lexer.wf()
        &&& self.current_token@.kind == TokenKind::EndOfInput ==> self.peek_token@
            == TokenView::end()
        &&& self.current_token@.kind == TokenKind::EndOfInput ==> self.current_token@
            == TokenView::end()
        &&& self.peek_token@.kind == TokenKind::EndOfInput ==> self.lexer.remaining().len() == 0
        &&& self.peek_token@.kind == TokenKind::EndOfInput ==> self.peek_token@ == TokenView::end()
    }

    /// The current token and the one after it are the first two of the tokens
    /// that remain.
    proof fn lemma_lookahead(&self)
        requires
            self.wf(),
        ensures
            self.current_token@ == lookahead(self.tokens(), 0),
            self.peek_token@ == lookahead(self.tokens(), 1),
    {
    }

    /// A parser over the tokens that the lexer has still to produce, with no
    /// diagnostics.
    pub fn new(lexer: Lexer) -> (parser: Parser)
        requires
            lexer.wf(),
        ensures
            parser.wf(),
            parser.tokens() == lexer.remaining(),
            parser.diagnostics() == Seq::<ParserError>::empty(),
    {
        let mut lexer = lexer;
        let ghost all = lexer.remaining();
        let current_token = lexer.next_token();
        let peek_token = lexer.next_token();
        let parser = Parser { lexer, current_token, peek_token, errors: Vec::new() };
        assert(parser.tokens() =~= all);
        parser
    }

    /// The diagnostics recorded so far, oldest first.
    pub fn errors(&self) -> (errors: &Vec<ParserError>)
        ensures
            errors@ == self.diagnostics(),
    {
        &self.errors
    }

    /// The token that the parser stands on; `EOF` at the end of the input.
    pub fn current_token(&self) -> (token: &Token)
        requires
            self.wf(),
        ensures
            token@ == lookahead(self.tokens(), 0),
    {
        proof {
            self.lemma_lookahead();
        }
        &self.current_token
    }

    /// The token after the one that the parser stands on; `EOF` where there is
    /// none.
    pub fn peek_token(&self) -> (token: &Token)
        requires
            self.wf(),
        ensures
            token@ == lookahead(self.tokens(), 1),
    {
        proof {
            self.lemma_lookahead();
        }
        &self.peek_token
    }

    /// Advances by one token: the token after the current one becomes the
    /// current one, and the lexer supplies the one after it.
    pub fn next_token(&mut self)
        requires
            old(self).wf(),
        ensures
            final(self).wf(),
            final(self).tokens() == advance(old(self).tokens()),
            final(self).diagnostics() == old(self).diagnostics(),
    {
        let mut next = self.lexer.next_token();
        std::mem::swap(&mut self.peek_token, &mut next);
        self.current_token = next;
        assert(self.tokens() =~= advance(old(self).tokens()));
    }
}

impl Parser {
    /// Records a diagnostic.
    fn report(&mut self, error: ParserError)
        requires
            old(self).wf(),
        ensures
            final(self).wf(),
            final(self).tokens() == old(self).tokens(),
            final(self).diagnostics() == old(self).diagnostics().push(error),
    {
        self.errors.push(error);
    }

    /// Advances if the token after the current one is of the given kind, and
    /// says whether it was. Recording the mismatch is left to the caller.
    pub fn expect_peek(&mut self, kind: TokenKind) -> (matched: bool)
        requires
            old(self).wf(),
        ensures
            final(self).wf(),
            matched == (lookahead(old(self).tokens(), 1).kind == kind),
            final(self).tokens() == if matched {
                advance(old(self).tokens())
            } else {
                old(self).tokens()
            },
            final(self).diagnostics() == old(self).diagnostics(),
    {
        proof {
            self.lemma_lookahead();
        }
        if self.peek_token.kind() == kind {
            self.next_token();
            true
        } else {
            false
        }
    }

    /// Parses the expression that begins at the current token and reaches as
    /// far as the operators that follow bind more tightly than `precedence`.
    pub fn parse_expression(&mut self, precedence: Precedence) -> (result: Option<Expressions>)
        requires
            old(self).wf(),
        ensures
            final(self).wf(),
            expr_view(result) == expression(old(self).tokens(), precedence).expr,
            steps(
                old(self)@,
                final(self)@,
                expression(old(self).tokens(), precedence).advanced,
                expression(old(self).tokens(), precedence).errors,
            ),
        decreases old(self).tokens().len(), 3int,
    {
        let ghost start = self@;
        let mut left = match self.parse_prefix() {
            Some(expr) => expr,
            None => {
                return None;
            },
        };
        let ghost mut at: nat = prefix(start.tokens).advanced;
        let ghost mut errors = prefix(start.tokens).errors;
        loop
            invariant_except_break
                self.wf(),
                steps(start, self@, at, errors),
                expression(start.tokens, precedence) == infix_chain(
                    start.tokens,
                    precedence,
                    left@,
                    at,
                    errors,
                ),
            invariant
                start == old(self)@,
            ensures
                self.wf(),
                steps(start, self@, at, errors),
                expression(start.tokens, precedence) == (ExprResult {
                    expr: Some(left@),
                    advanced: at,
                    errors,
                }),
            decreases self.tokens().len(),
        {
            proof {
                self.lemma_lookahead();
            }
            let kind = self.peek_token.kind();
            if precedence.level() >= Precedence::of(kind).level() {
                break ;
            }
            let operator = match InfixOperator::of(kind) {
                Some(operator) => operator,
                None => {
                    break ;
                },
            };
            let ghost right = expression(
                start.tokens.skip(at as int + 2),
                Precedence::of_kind(kind),
            );
            self.next_token();
            proof {
                assert(self.tokens() =~= start.tokens.skip(at as int + 1));
                assert(self.tokens().skip(1) =~= start.tokens.skip(at as int + 2));
            }
            match self.parse_infix_expression(left, operator) {
                Some(expr) => {
                    left = expr;
                    proof {
                        assert(self.tokens() =~= start.tokens.skip(at as int + 2 + right.advanced));
                        assert(self.diagnostics() =~= start.errors + (errors + right.errors));
                        at = at + 2 + right.advanced;
                        errors = errors + right.errors;
                    }
                },
                None => {
                    proof {
                        assert(self.tokens() =~= start.tokens.skip(at as int + 2 + right.advanced));
                        assert(self.diagnostics() =~= start.errors + (errors + right.errors));
                    }
                    return None;
                },
            }
        }
        Some(left)
    }

    /// Parses the expression that the current token introduces by itself.
    fn parse_prefix(&mut self) -> (result: Option<Expressions>)
        requires
            old(self).wf(),
        ensures
            final(self).wf(),
            expr_view(result) == prefix(old(self).tokens()).expr,
            steps(
                old(self)@,
                final(self)@,
                prefix(old(self).tokens()).advanced,
                prefix(old(self).tokens()).errors,
            ),
        decreases old(self).tokens().len(), 2int,
    {
        proof {
            self.lemma_lookahead();
        }
        let kind = self.current_token.kind();
        match kind {
            TokenKind::Identifier => {
                proof {
                    assert(self.tokens().skip(0) =~= self.tokens());
                    assert(self.diagnostics() + Seq::<ParserError>::empty() =~= self.diagnostics());
                }
                Some(Expressions::Identifier(self.parse_identifier()))
            },
            TokenKind::IntegerLiteral => self.parse_integer_literal(),
            TokenKind::Bang => self.parse_prefix_expression(PrefixOperator::Bang),
            TokenKind::Minus => self.parse_prefix_expression(PrefixOperator::Minus),
            TokenKind::LParen => self.parse_grouped_expression(),
            _ => {
                self.report(ParserError::NoPrefixParseFunction { kind });
                proof {
                    assert(self.tokens().skip(0) =~= self.tokens());
                    assert(self.diagnostics() =~= old(self).diagnostics()
                        + seq![ParserError::NoPrefixParseFunction { kind }]);
                }
                None
            },
        }
    }

    /// The current token as an identifier. Nothing is consumed.
    fn parse_identifier(&self) -> (identifier: Identifier)
        requires
            self.wf(),
        ensures
            identifier@ == (IdentifierView {
                token: lookahead(self.tokens(), 0),
                value: lookahead(self.tokens(), 0).text,
            }),
    {
        proof {
            self.lemma_lookahead();
        }
        Identifier { token: self.current_token.clone(), value: self.current_token.text() }
    }

    /// Parses the current token, an integer literal. Nothing is consumed.
    fn parse_integer_literal(&mut self) -> (result: Option<Expressions>)
        requires
            old(self).wf(),
            lookahead(old(self).tokens(), 0).kind == TokenKind::IntegerLiteral,
        ensures
            final(self).wf(),
            expr_view(result) == prefix(old(self).tokens()).expr,
            steps(
                old(self)@,
                final(self)@,
                prefix(old(self).tokens()).advanced,
                prefix(old(self).tokens()).errors,
            ),
    {
        proof {
            self.lemma_lookahead();
            assert(self.tokens().skip(0) =~= self.tokens());
        }
        let text = self.current_token.text();
        match parse_integer(text.as_str()) {
            Some(value) => {
                proof {
                    assert(self.diagnostics() + Seq::<ParserError>::empty() =~= self.diagnostics());
                }
                Some(
                    Expressions::IntegerLiteral(
                        IntegerLiteral { token: self.current_token.clone(), value },
                    ),
                )
            },
            None => {
                self.report(ParserError::InvalidInteger);
                proof {
                    assert(self.diagnostics() =~= old(self).diagnostics()
                        + seq![ParserError::InvalidInteger]);
                }
                None
            },
        }
    }

    /// Parses a prefix operator, the current token, and its operand.
    fn parse_prefix_expression(&mut self, operator: PrefixOperator) -> (result: Option<
        Expressions,
    >)
        requires
            old(self).wf(),
            prefix_operator_of(lookahead(old(self).tokens(), 0).kind) == Some(operator),
        ensures
            final(self).wf(),
            expr_view(result) == prefix(old(self).tokens()).expr,
            steps(
                old(self)@,
                final(self)@,
                prefix(old(self).tokens()).advanced,
                prefix(old(self).tokens()).errors,
            ),
        decreases old(self).tokens().len(), 1int,
    {
        proof {
            self.lemma_lookahead();
        }
        let token = self.current_token.clone();
        let ghost inner = expression(self.tokens().skip(1), Precedence::Prefix);
        self.next_token();
        let operand = self.parse_expression(Precedence::Prefix);
        proof {
            assert(self.tokens() =~= old(self).tokens().skip(1 + inner.advanced as int));
        }
        match operand {
            Some(operand) => Some(
                Expressions::Prefix(
                    PrefixExpression { token, operator, operand: Box::new(operand) },
                ),
            ),
            None => None,
        }
    }

    /// Parses an expression in parentheses; the current token is the opening
    /// one. The expression stands for itself: the tree keeps no parentheses.
    fn parse_grouped_expression(&mut self) -> (result: Option<Expressions>)
        requires
            old(self).wf(),
            lookahead(old(self).tokens(), 0).kind == TokenKind::LParen,
        ensures
            final(self).wf(),
            expr_view(result) == prefix(old(self).tokens()).expr,
            steps(
                old(self)@,
                final(self)@,
                prefix(old(self).tokens()).advanced,
                prefix(old(self).tokens()).errors,
            ),
        decreases old(self).tokens().len(), 1int,
    {
        let ghost inner = expression(self.tokens().skip(1), Precedence::Lowest);
        self.next_token();
        let expr = match self.parse_expression(Precedence::Lowest) {
            Some(expr) => expr,
            None => {
                proof {
                    assert(self.tokens() =~= old(self).tokens().skip(1 + inner.advanced as int));
                }
                return None;
            },
        };
        proof {
            assert(self.tokens() =~= old(self).tokens().skip(1 + inner.advanced as int));
            self.lemma_lookahead();
        }
        if self.expect_peek(TokenKind::RParen) {
            proof {
                assert(self.tokens() =~= old(self).tokens().skip(2 + inner.advanced as int));
            }
            Some(expr)
        } else {
            let actual = self.peek_token.kind();
            self.report(ParserError::UnexpectedToken { expected: TokenKind::RParen, actual });
            None
        }
    }

    /// Parses an infix operator, the current token, and its right operand,
    /// and joins them with `left`.
    fn parse_infix_expression(&mut self, left: Expressions, operator: InfixOperator) -> (result:
        Option<Expressions>)
        requires
            old(self).wf(),
            infix_operator_of(lookahead(old(self).tokens(), 0).kind) == Some(operator),
        ensures
            final(self).wf(),
            ({
                let token = lookahead(old(self).tokens(), 0);
                let right = expression(old(self).tokens().skip(1), Precedence::of_kind(token.kind));
                &&& steps(old(self)@, final(self)@, 1 + right.advanced, right.errors)
                &&& expr_view(result) == match right.expr {
                    Some(operand) => Some(infix_expression(token, left@, operand)),
                    None => None,
                }
            }),
        decreases old(self).tokens().len(), 1int,
    {
        proof {
            self.lemma_lookahead();
        }
        let token = self.current_token.clone();
        let precedence = Precedence::of(token.kind());
        let ghost right = expression(self.tokens().skip(1), precedence);
        self.next_token();
        let operand = self.parse_expression(precedence);
        proof {
            assert(self.tokens() =~= old(self).tokens().skip(1 + right.advanced as int));
        }
        match operand {
            Some(operand) => Some(
                Expressions::Infix(
                    InfixExpression {
                        token,
                        operator,
                        left: Box::new(left),
                        right: Box::new(operand),
                    },
                ),
            ),
            None => None,
        }
    }
}

impl Parser {
    /// Advances to the next semicolon, or to the end of the input where there
    /// is none.
    fn skip_to_semicolon(&mut self)
        requires
            old(self).wf(),
        ensures
            final(self).wf(),
            steps(
                old(self)@,
                final(self)@,
                statement_end(old(self).tokens(), 0),
                Seq::<ParserError>::empty(),
            ),
    {
        let ghost start = self@;
        let ghost mut at: nat = 0;
        proof {
            assert(self.tokens().skip(0) =~= self.tokens());
            assert(self.diagnostics() + Seq::<ParserError>::empty() =~= self.diagnostics());
        }
        loop
            invariant_except_break
                self.wf(),
                steps(start, self@, at, Seq::<ParserError>::empty()),
                statement_end(start.tokens, 0) == statement_end(start.tokens, at),
            ensures
                self.wf(),
                steps(start, self@, statement_end(start.tokens, 0), Seq::<ParserError>::empty()),
            decreases self.tokens().len(),
        {
            proof {
                self.lemma_lookahead();
            }
            let kind = self.current_token.kind();
            if kind == TokenKind::Semicolon || kind == TokenKind::EndOfInput {
                break ;
            }
            self.next_token();
            proof {
                assert(self.tokens() =~= start.tokens.skip(at as int + 1));
                at = at + 1;
            }
        }
    }

    /// Parses a `let` statement; the current token is `let`.
    fn parse_let_statement(&mut self) -> (result: Option<Statements>)
        requires
            old(self).wf(),
        ensures
            final(self).wf(),
            stmt_view(result) == let_statement(old(self).tokens()).stmt,
            steps(
                old(self)@,
                final(self)@,
                let_statement(old(self).tokens()).advanced,
                let_statement(old(self).tokens()).errors,
            ),
    {
        proof {
            self.lemma_lookahead();
            assert(self.tokens().skip(0) =~= self.tokens());
        }
        let token = self.current_token.clone();
        if !self.expect_peek(TokenKind::Identifier) {
            let actual = self.peek_token.kind();
            self.report(ParserError::UnexpectedToken { expected: TokenKind::Identifier, actual });
            proof {
                assert(self.diagnostics() =~= old(self).diagnostics() + let_statement(
                    old(self).tokens(),
                ).errors);
            }
            return None;
        }
        proof {
            self.lemma_lookahead();
        }
        let name = self.parse_identifier();
        if !self.expect_peek(TokenKind::Assign) {
            let actual = self.peek_token.kind();
            self.report(ParserError::UnexpectedToken { expected: TokenKind::Assign, actual });
            proof {
                assert(self.diagnostics() =~= old(self).diagnostics() + let_statement(
                    old(self).tokens(),
                ).errors);
            }
            return None;
        }
        self.next_token();
        let ghost value = expression(old(self).tokens().skip(3), Precedence::Lowest);
        proof {
            assert(self.tokens() =~= old(self).tokens().skip(3));
        }
        let expr = match self.parse_expression(Precedence::Lowest) {
            Some(expr) => expr,
            None => {
                proof {
                    assert(self.tokens() =~= old(self).tokens().skip(3 + value.advanced as int));
                }
                return None;
            },
        };
        proof {
            assert(self.tokens() =~= old(self).tokens().skip(3 + value.advanced as int));
            lemma_statement_end_shift(old(self).tokens(), 3 + value.advanced, 0);
        }
        self.skip_to_semicolon();
        proof {
            let end = statement_end(old(self).tokens(), 3 + value.advanced);
            assert(self.tokens() =~= old(self).tokens().skip(end as int));
            assert(self.diagnostics() =~= old(self).diagnostics() + value.errors);
        }
        Some(Statements::Let(LetStatement { token, name, value: expr }))
    }

    /// Parses a `return` statement; the current token is `return`.
    fn parse_return_statement(&mut self) -> (result: Option<Statements>)
        requires
            old(self).wf(),
            lookahead(old(self).tokens(), 0).kind == TokenKind::Return,
        ensures
            final(self).wf(),
            stmt_view(result) == return_statement(old(self).tokens()).stmt,
            steps(
                old(self)@,
                final(self)@,
                return_statement(old(self).tokens()).advanced,
                return_statement(old(self).tokens()).errors,
            ),
    {
        proof {
            self.lemma_lookahead();
        }
        let token = self.current_token.clone();
        self.next_token();
        let ghost value = expression(old(self).tokens().skip(1), Precedence::Lowest);
        let expr = match self.parse_expression(Precedence::Lowest) {
            Some(expr) => expr,
            None => {
                proof {
                    assert(self.tokens() =~= old(self).tokens().skip(1 + value.advanced as int));
                }
                return None;
            },
        };
        proof {
            assert(self.tokens() =~= old(self).tokens().skip(1 + value.advanced as int));
            lemma_statement_end_shift(old(self).tokens(), 1 + value.advanced, 0);
        }
        self.skip_to_semicolon();
        proof {
            let end = statement_end(old(self).tokens(), 1 + value.advanced);
            assert(self.tokens() =~= old(self).tokens().skip(end as int));
            assert(self.diagnostics() =~= old(self).diagnostics() + value.errors);
        }
        Some(Statements::Return(ReturnStatement { token, value: expr }))
    }

    /// Parses an expression statement, which begins at the current token.
    fn parse_expression_statement(&mut self) -> (result: Option<Statements>)
        requires
            old(self).wf(),
        ensures
            final(self).wf(),
            stmt_view(result) == expression_statement(old(self).tokens()).stmt,
            steps(
                old(self)@,
                final(self)@,
                expression_statement(old(self).tokens()).advanced,
                expression_statement(old(self).tokens()).errors,
            ),
    {
        proof {
            self.lemma_lookahead();
        }
        let token = self.current_token.clone();
        let ghost value = expression(old(self).tokens(), Precedence::Lowest);
        let expr = match self.parse_expression(Precedence::Lowest) {
            Some(expr) => expr,
            None => {
                return None;
            },
        };
        proof {
            self.lemma_lookahead();
        }
        if self.expect_peek(TokenKind::Semicolon) {
            proof {
                assert(self.tokens() =~= old(self).tokens().skip(value.advanced as int + 1));
            }
        }
        Some(Statements::Expression(ExpressionStatement { token, value: expr }))
    }

    /// Parses the statement that begins at the current token. Where it fails,
    /// the parser goes on to the next semicolon or the end of the input.
    pub fn parse_statement(&mut self) -> (result: Option<Statements>)
        requires
            old(self).wf(),
        ensures
            final(self).wf(),
            stmt_view(result) == statement(old(self).tokens()).stmt,
            steps(
                old(self)@,
                final(self)@,
                statement(old(self).tokens()).advanced,
                statement(old(self).tokens()).errors,
            ),
    {
        proof {
            self.lemma_lookahead();
        }
        let result = match self.current_token.kind() {
            TokenKind::Let => self.parse_let_statement(),
            TokenKind::Return => self.parse_return_statement(),
            _ => self.parse_expression_statement(),
        };
        if result.is_none() {
            let ghost failed = statement_by_kind(old(self).tokens());
            proof {
                lemma_statement_end_shift(old(self).tokens(), failed.advanced, 0);
            }
            self.skip_to_semicolon();
            proof {
                let end = statement_end(old(self).tokens(), failed.advanced);
                assert(self.tokens() =~= old(self).tokens().skip(end as int));
                assert(self.diagnostics() =~= old(self).diagnostics() + failed.errors);
            }
        }
        result
    }

    /// Parses the whole program: statement after statement up to the end of
    /// the input. Always returns a program; what did not parse is left out of
    /// it and reported in the diagnostics.
    pub fn parse_program(&mut self) -> (result: Option<Program>)
        requires
            old(self).wf(),
        ensures
            final(self).wf(),
            result matches Some(parsed) && parsed@ == program(old(self).tokens()).statements,
            final(self).tokens().len() == 0,
            final(self).diagnostics() == old(self).diagnostics() + program(
                old(self).tokens(),
            ).errors,
    {
        let mut statements: Vec<Statements> = Vec::new();
        let ghost all = program(old(self).tokens());
        let ghost mut done: Seq<StmtView> = Seq::empty();
        let ghost mut errors: Seq<ParserError> = Seq::empty();
        proof {
            assert(done + all.statements =~= all.statements);
            assert(errors + all.errors =~= all.errors);
            assert(self.diagnostics() + errors =~= self.diagnostics());
        }
        loop
            invariant_except_break
                self.wf(),
                statements@.len() == done.len(),
                forall|i: int| 0 <= i < done.len() ==> (#[trigger] statements@[i])@ == done[i],
                all.statements == done + program(self.tokens()).statements,
                all.errors == errors + program(self.tokens()).errors,
                self.diagnostics() == old(self).diagnostics() + errors,
            ensures
                self.wf(),
                self.tokens().len() == 0,
                statements@.len() == all.statements.len(),
                forall|i: int|
                    0 <= i < all.statements.len() ==> (#[trigger] statements@[i])@
                        == all.statements[i],
                self.diagnostics() == old(self).diagnostics() + all.errors,
            decreases self.tokens().len(),
        {
            proof {
                self.lemma_lookahead();
            }
            if self.current_token.kind() == TokenKind::EndOfInput {
                proof {
                    assert(done + Seq::<StmtView>::empty() =~= done);
                    assert(errors + Seq::<ParserError>::empty() =~= errors);
                }
                break ;
            }
            let ghost before = self@;
            let ghost first = statement(before.tokens);
            let ghost rest = program(advance(before.tokens.skip(first.advanced as int)));
            let parsed = self.parse_statement();
            proof {
                lemma_diagnostics_in_source_order(before.tokens);
            }
            match parsed {
                Some(stmt) => {
                    statements.push(stmt);
                    proof {
                        assert(done + (seq![first.stmt.unwrap()] + rest.statements) =~= done.push(
                            first.stmt.unwrap(),
                        ) + rest.statements);
                        done = done.push(first.stmt.unwrap());
                    }
                },
                None => {},
            }
            self.next_token();
            proof {
                assert(errors + (first.errors + rest.errors) =~= (errors + first.errors)
                    + rest.errors);
                assert(self.diagnostics() =~= old(self).diagnostics() + (errors + first.errors));
                errors = errors + first.errors;
            }
        }
        let parsed = Program { statements };
        proof {
            assert(parsed@ =~= all.statements);
        }
        Some(parsed)
    }
}

} // verus!
