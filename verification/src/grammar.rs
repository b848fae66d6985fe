//! The grammar: what a sequence of tokens parses to, as mathematical functions
//! from the tokens to a syntax tree, the number of tokens passed over and the
//! diagnostics. The parser is proved to compute exactly these functions.

use vstd::prelude::*;

use crate::ast::{
    infix_operator_of, prefix_operator_of, ExprView, IdentifierView, StmtView,
};
use crate::diagnostics::ParserError;
use crate::token::{TokenKind, TokenView};

verus! {

/// How tightly an operator binds, from the loosest to the tightest.
#[derive(Clone, Copy, Debug, PartialEq, Eq, Hash, Structural)]
pub enum Precedence {
    Lowest,
    /// `==` and `!=`
    Equals,
    /// `<` and `>`
    LessGreater,
    /// `+` and `-`
    Sum,
    /// `*` and `/`
    Product,
    /// A prefix `-` or `!`
    Prefix,
    /// A call, `f(..)`
    Call,
}

impl Precedence {
    /// The place of the precedence on the ladder, counted from the loosest.
    pub open spec fn rank(self) -> nat {
        match self {
            Precedence::Lowest => 0,
            Precedence::Equals => 1,
            Precedence::LessGreater => 2,
            Precedence::Sum => 3,
            Precedence::Product => 4,
            Precedence::Prefix => 5,
            Precedence::Call => 6,
        }
    }

    /// The precedence that a token of the given kind has where it follows an
    /// expression.
    pub open spec fn of_kind(kind: TokenKind) -> Precedence {
        match kind {
            TokenKind::Equal => Precedence::Equals,
            TokenKind::NotEqual => Precedence::Equals,
            TokenKind::LessThan => Precedence::LessGreater,
            TokenKind::GreaterThan => Precedence::LessGreater,
            TokenKind::Plus => Precedence::Sum,
            TokenKind::Minus => Precedence::Sum,
            TokenKind::Asterisk => Precedence::Product,
            TokenKind::Slash => Precedence::Product,
            TokenKind::LParen => Precedence::Call,
            _ => Precedence::Lowest,
        }
    }

    /// The place of the precedence on the ladder, counted from the loosest.
    pub fn level(self) -> (level: u8)
        ensures
            level == self.rank(),
    {
        match self {
            Precedence::Lowest => 0,
            Precedence::Equals => 1,
            Precedence::LessGreater => 2,
            Precedence::Sum => 3,
            Precedence::Product => 4,
            Precedence::Prefix => 5,
            Precedence::Call => 6,
        }
    }

    /// The precedence that a token of the given kind has where it follows an
    /// expression.
    pub fn of(kind: TokenKind) -> (precedence: Precedence)
        ensures
            precedence == Precedence::of_kind(kind),
    {
        match kind {
            TokenKind::Equal => Precedence::Equals,
            TokenKind::NotEqual => Precedence::Equals,
            TokenKind::LessThan => Precedence::LessGreater,
            TokenKind::GreaterThan => Precedence::LessGreater,
            TokenKind::Plus => Precedence::Sum,
            TokenKind::Minus => Precedence::Sum,
            TokenKind::Asterisk => Precedence::Product,
            TokenKind::Slash => Precedence::Product,
            TokenKind::LParen => Precedence::Call,
            _ => Precedence::Lowest,
        }
    }
}

/// Whether every character is a decimal digit.
pub open spec fn is_digits(text: Seq<char>) -> bool {
    forall|i: int| 0 <= i < text.len() ==> '0' <= #[trigger] text[i] <= '9'
}

/// The number that a sequence of decimal digits denotes.
pub open spec fn decimal_value(text: Seq<char>) -> nat
    decreases text.len(),
{
    if text.len() == 0 {
        0
    } else {
        (decimal_value(text.drop_last()) * 10 + (text.last() as int - '0' as int)) as nat
    }
}

/// The value of a prefix of digits never exceeds the value of the whole.
pub proof fn lemma_decimal_value_grows(text: Seq<char>, shorter: int)
    requires
        is_digits(text),
        0 <= shorter <= text.len(),
    ensures
        decimal_value(text.take(shorter)) <= decimal_value(text),
    decreases text.len(),
{
    if shorter < text.len() {
        assert(text.drop_last().take(shorter) =~= text.take(shorter));
        lemma_decimal_value_grows(text.drop_last(), shorter);
    } else {
        assert(text.take(shorter) =~= text);
    }
}

/// The value of an integer literal: the number that its digits denote, where
/// the text is a non-empty sequence of digits and the number fits in a signed
/// 64-bit integer.
pub open spec fn integer_value(text: Seq<char>) -> Option<int> {
    if text.len() > 0 && is_digits(text) && decimal_value(text) <= i64::MAX {
        Some(decimal_value(text) as int)
    } else {
        None
    }
}

/// The token `ahead` places after the current one, which is the first of
/// `tokens`. Behind the last token lies the end of the input.
pub open spec fn lookahead(tokens: Seq<TokenView>, ahead: int) -> TokenView {
    if 0 <= ahead < tokens.len() {
        tokens[ahead]
    } else {
        TokenView::end()
    }
}

/// The tokens that remain once the parser has advanced once: all but the
/// first. At the end of the input nothing changes.
pub open spec fn advance(tokens: Seq<TokenView>) -> Seq<TokenView> {
    if tokens.len() > 0 {
        tokens.skip(1)
    } else {
        tokens
    }
}

/// The outcome of parsing an expression.
pub struct ExprResult {
    /// The expression, if there is one.
    pub expr: Option<ExprView>,
    /// How many times the parser advanced.
    pub advanced: nat,
    /// The diagnostics, in the order in which they arose.
    pub errors: Seq<ParserError>,
}

/// The outcome of parsing a statement.
pub struct StmtResult {
    /// The statement, if there is one.
    pub stmt: Option<StmtView>,
    /// How many times the parser advanced.
    pub advanced: nat,
    /// The diagnostics, in the order in which they arose.
    pub errors: Seq<ParserError>,
}

/// The outcome of parsing a program.
pub struct ProgramResult {
    /// The statements that parsed, in source order.
    pub statements: Seq<StmtView>,
    /// The diagnostics, in source order.
    pub errors: Seq<ParserError>,
}

/// The expression that a single token is by itself: an identifier, or an
/// integer literal with its value.
pub open spec fn atom(token: TokenView) -> Option<ExprView> {
    match token.kind {
        TokenKind::Identifier => Some(
            ExprView::Identifier(IdentifierView { token, value: token.text }),
        ),
        TokenKind::IntegerLiteral => match integer_value(token.text) {
            Some(value) => Some(ExprView::IntegerLiteral { token, value }),
            None => None,
        },
        _ => None,
    }
}

/// The expression that a prefix operator and its operand make.
pub open spec fn prefix_expression(operator: TokenView, operand: ExprView) -> ExprView {
    ExprView::Prefix {
        token: operator,
        operator: prefix_operator_of(operator.kind).unwrap(),
        operand: Box::new(operand),
    }
}

/// The expression that an infix operator and its two operands make.
pub open spec fn infix_expression(
    operator: TokenView,
    left: ExprView,
    right: ExprView,
) -> ExprView {
    ExprView::Infix {
        token: operator,
        operator: infix_operator_of(operator.kind).unwrap(),
        left: Box::new(left),
        right: Box::new(right),
    }
}

/// The expression that begins at the first token and reaches as far as the
/// operators that follow bind more tightly than `precedence`. On success the
/// parser stands on the last token of the expression.
pub open spec fn expression(tokens: Seq<TokenView>, precedence: Precedence) -> ExprResult
    decreases tokens.len(), tokens.len() + 2,
{
    let head = prefix(tokens);
    match head.expr {
        None => head,
        Some(left) => infix_chain(tokens, precedence, left, head.advanced, head.errors),
    }
}

/// The expression that the first token introduces by itself: an identifier,
/// an integer literal, a prefix operator with its operand, or an expression
/// in parentheses.
pub open spec fn prefix(tokens: Seq<TokenView>) -> ExprResult
    decreases tokens.len(), tokens.len() + 1,
{
    let first = lookahead(tokens, 0);
    match first.kind {
        TokenKind::Identifier => ExprResult {
            expr: atom(first),
            advanced: 0,
            errors: Seq::empty(),
        },
        TokenKind::IntegerLiteral => ExprResult {
            expr: atom(first),
            advanced: 0,
            errors: if atom(first) is Some {
                Seq::empty()
            } else {
                seq![ParserError::InvalidInteger]
            },
        },
        TokenKind::Bang | TokenKind::Minus => {
            let inner = expression(tokens.skip(1), Precedence::Prefix);
            ExprResult {
                expr: match inner.expr {
                    Some(operand) => Some(prefix_expression(first, operand)),
                    None => None,
                },
                advanced: 1 + inner.advanced,
                errors: inner.errors,
            }
        },
        TokenKind::LParen => {
            let inner = expression(tokens.skip(1), Precedence::Lowest);
            let closing = lookahead(tokens, 2 + inner.advanced as int);
            if inner.expr is None {
                ExprResult { expr: None, advanced: 1 + inner.advanced, errors: inner.errors }
            } else if closing.kind == TokenKind::RParen {
                ExprResult { expr: inner.expr, advanced: 2 + inner.advanced, errors: inner.errors }
            } else {
                ExprResult {
                    expr: None,
                    advanced: 1 + inner.advanced,
                    errors: inner.errors.push(
                        ParserError::UnexpectedToken {
                            expected: TokenKind::RParen,
                            actual: closing.kind,
                        },
                    ),
                }
            }
        },
        kind => ExprResult {
            expr: None,
            advanced: 0,
            errors: seq![ParserError::NoPrefixParseFunction { kind }],
        },
    }
}

/// Whether a token of the given kind, where it follows an expression, carries
/// the expression on: it is an infix operator and binds more tightly than
/// `precedence`.
pub open spec fn extends(kind: TokenKind, precedence: Precedence) -> bool {
    precedence.rank() < Precedence::of_kind(kind).rank() && infix_operator_of(kind) is Some
}

/// The expression that `left` grows into. The parser stands on the last token
/// of `left`, `at` places into `tokens`. While the next token is an infix
/// operator that binds more tightly than `precedence`, the operator takes
/// `left` and the expression after it, parsed at the operator's own
/// precedence, as its operands, and the result takes the place of `left`.
pub open spec fn infix_chain(
    tokens: Seq<TokenView>,
    precedence: Precedence,
    left: ExprView,
    at: nat,
    errors: Seq<ParserError>,
) -> ExprResult
    decreases tokens.len(),
        (if at < tokens.len() {
            tokens.len() - at
        } else {
            0
        }),
{
    let operator = lookahead(tokens, at as int + 1);
    if extends(operator.kind, precedence) {
        let right = expression(tokens.skip(at as int + 2), Precedence::of_kind(operator.kind));
        match right.expr {
            None => ExprResult {
                expr: None,
                advanced: at + 2 + right.advanced,
                errors: errors + right.errors,
            },
            Some(operand) => infix_chain(
                tokens,
                precedence,
                infix_expression(operator, left, operand),
                at + 2 + right.advanced,
                errors + right.errors,
            ),
        }
    } else {
        ExprResult { expr: Some(left), advanced: at, errors }
    }
}

/// The place of the first semicolon from `from` on, or of the end of the input
/// where there is none.
pub open spec fn statement_end(tokens: Seq<TokenView>, from: nat) -> nat
    decreases tokens.len() - from,
{
    if from < tokens.len() && tokens[from as int].kind != TokenKind::Semicolon
        && tokens[from as int].kind != TokenKind::EndOfInput {
        statement_end(tokens, from + 1)
    } else {
        from
    }
}

/// A `let` statement: `let`, an identifier, `=`, an expression, and then
/// whatever stands before the next semicolon, which is passed over.
pub open spec fn let_statement(tokens: Seq<TokenView>) -> StmtResult {
    let name = lookahead(tokens, 1);
    let assign = lookahead(tokens, 2);
    if name.kind != TokenKind::Identifier {
        StmtResult {
            stmt: None,
            advanced: 0,
            errors: seq![
                ParserError::UnexpectedToken {
                    expected: TokenKind::Identifier,
                    actual: name.kind,
                },
            ],
        }
    } else if assign.kind != TokenKind::Assign {
        StmtResult {
            stmt: None,
            advanced: 1,
            errors: seq![
                ParserError::UnexpectedToken {
                    expected: TokenKind::Assign,
                    actual: assign.kind,
                },
            ],
        }
    } else {
        let value = expression(tokens.skip(3), Precedence::Lowest);
        match value.expr {
            None => StmtResult { stmt: None, advanced: 3 + value.advanced, errors: value.errors },
            Some(expr) => StmtResult {
                stmt: Some(
                    StmtView::Let {
                        token: lookahead(tokens, 0),
                        name: IdentifierView { token: name, value: name.text },
                        value: expr,
                    },
                ),
                advanced: statement_end(tokens, 3 + value.advanced),
                errors: value.errors,
            },
        }
    }
}

/// A `return` statement: `return`, an expression, and then whatever stands
/// before the next semicolon, which is passed over.
pub open spec fn return_statement(tokens: Seq<TokenView>) -> StmtResult {
    let value = expression(tokens.skip(1), Precedence::Lowest);
    match value.expr {
        None => StmtResult { stmt: None, advanced: 1 + value.advanced, errors: value.errors },
        Some(expr) => StmtResult {
            stmt: Some(StmtView::Return { token: lookahead(tokens, 0), value: expr }),
            advanced: statement_end(tokens, 1 + value.advanced),
            errors: value.errors,
        },
    }
}

/// An expression statement: an expression, and the semicolon after it if
/// there is one.
pub open spec fn expression_statement(tokens: Seq<TokenView>) -> StmtResult {
    let value = expression(tokens, Precedence::Lowest);
    match value.expr {
        None => StmtResult { stmt: None, advanced: value.advanced, errors: value.errors },
        Some(expr) => StmtResult {
            stmt: Some(StmtView::Expression { token: lookahead(tokens, 0), value: expr }),
            advanced: if lookahead(tokens, value.advanced as int + 1).kind == TokenKind::Semicolon {
                value.advanced + 1
            } else {
                value.advanced
            },
            errors: value.errors,
        },
    }
}

/// The statement that begins at the first token, chosen by the kind of that
/// token.
pub open spec fn statement_by_kind(tokens: Seq<TokenView>) -> StmtResult {
    match lookahead(tokens, 0).kind {
        TokenKind::Let => let_statement(tokens),
        TokenKind::Return => return_statement(tokens),
        _ => expression_statement(tokens),
    }
}

/// The statement that begins at the first token. Where it fails, the parser
/// goes on to the next semicolon, or to the end of the input, so that the
/// statement after it is parsed afresh.
pub open spec fn statement(tokens: Seq<TokenView>) -> StmtResult {
    let result = statement_by_kind(tokens);
    if result.stmt is Some {
        result
    } else {
        StmtResult {
            stmt: None,
            advanced: statement_end(tokens, result.advanced),
            errors: result.errors,
        }
    }
}

/// The end of a statement is found the same whether the tokens before it are
/// counted or left off, and it lies within the tokens.
pub proof fn lemma_statement_end_shift(tokens: Seq<TokenView>, offset: nat, from: nat)
    requires
        offset + from <= tokens.len(),
    ensures
        statement_end(tokens, offset + from) == offset + statement_end(
            tokens.skip(offset as int),
            from,
        ),
        offset + from <= statement_end(tokens, offset + from) <= tokens.len(),
    decreases tokens.len() - offset - from,
{
    let rest = tokens.skip(offset as int);
    if from < rest.len() {
        assert(rest[from as int] == tokens[offset as int + from as int]);
        if rest[from as int].kind != TokenKind::Semicolon && rest[from as int].kind
            != TokenKind::EndOfInput {
            lemma_statement_end_shift(tokens, offset, from + 1);
        }
    }
}

/// An expression either parses without a diagnostic, and then its last token
/// is one of the tokens, or fails with exactly one diagnostic, and then the
/// parser has not gone past the end of the input.
pub proof fn lemma_expression_outcome(tokens: Seq<TokenView>, precedence: Precedence)
    ensures
        match expression(tokens, precedence).expr {
            Some(_) => expression(tokens, precedence).errors.len() == 0 && expression(
                tokens,
                precedence,
            ).advanced < tokens.len(),
            None => expression(tokens, precedence).errors.len() == 1 && expression(
                tokens,
                precedence,
            ).advanced <= tokens.len(),
        },
    decreases tokens.len(), tokens.len() + 2,
{
    lemma_prefix_outcome(tokens);
    let head = prefix(tokens);
    match head.expr {
        Some(left) => {
            lemma_infix_chain_outcome(tokens, precedence, left, head.advanced, head.errors);
        },
        None => {},
    }
}

/// What `lemma_expression_outcome` says, of the expression that the first
/// token introduces by itself.
pub proof fn lemma_prefix_outcome(tokens: Seq<TokenView>)
    ensures
        match prefix(tokens).expr {
            Some(_) => prefix(tokens).errors.len() == 0 && prefix(tokens).advanced < tokens.len(),
            None => prefix(tokens).errors.len() == 1 && prefix(tokens).advanced <= tokens.len(),
        },
    decreases tokens.len(), tokens.len() + 1,
{
    let first = lookahead(tokens, 0);
    match first.kind {
        TokenKind::Bang | TokenKind::Minus => {
            lemma_expression_outcome(tokens.skip(1), Precedence::Prefix);
        },
        TokenKind::LParen => {
            lemma_expression_outcome(tokens.skip(1), Precedence::Lowest);
        },
        _ => {},
    }
}

/// What `lemma_expression_outcome` says, of an expression that grows from a
/// left operand which parsed without a diagnostic.
pub proof fn lemma_infix_chain_outcome(
    tokens: Seq<TokenView>,
    precedence: Precedence,
    left: ExprView,
    at: nat,
    errors: Seq<ParserError>,
)
    requires
        at < tokens.len(),
        errors.len() == 0,
    ensures
        match infix_chain(tokens, precedence, left, at, errors).expr {
            Some(_) => infix_chain(tokens, precedence, left, at, errors).errors.len() == 0
                && infix_chain(tokens, precedence, left, at, errors).advanced < tokens.len(),
            None => infix_chain(tokens, precedence, left, at, errors).errors.len() == 1
                && infix_chain(tokens, precedence, left, at, errors).advanced <= tokens.len(),
        },
    decreases tokens.len(), tokens.len() - at,
{
    let operator = lookahead(tokens, at as int + 1);
    if extends(operator.kind, precedence) {
        let right = expression(tokens.skip(at as int + 2), Precedence::of_kind(operator.kind));
        lemma_expression_outcome(tokens.skip(at as int + 2), Precedence::of_kind(operator.kind));
        match right.expr {
            Some(operand) => {
                lemma_infix_chain_outcome(
                    tokens,
                    precedence,
                    infix_expression(operator, left, operand),
                    at + 2 + right.advanced,
                    errors + right.errors,
                );
            },
            None => {},
        }
    }
}

/// A statement either parses without a diagnostic or fails with exactly one,
/// and either way the parser has not gone past the end of the input.
pub proof fn lemma_statement_outcome(tokens: Seq<TokenView>)
    ensures
        statement(tokens).advanced <= tokens.len(),
        statement(tokens).errors.len() == if statement(tokens).stmt is Some {
            0nat
        } else {
            1nat
        },
{
    let first = lookahead(tokens, 0);
    match first.kind {
        TokenKind::Let => {
            if lookahead(tokens, 1).kind == TokenKind::Identifier && lookahead(tokens, 2).kind
                == TokenKind::Assign {
                let value = expression(tokens.skip(3), Precedence::Lowest);
                lemma_expression_outcome(tokens.skip(3), Precedence::Lowest);
                lemma_statement_end_shift(tokens, 3 + value.advanced, 0);
            } else if lookahead(tokens, 1).kind == TokenKind::Identifier {
                lemma_statement_end_shift(tokens, 1, 0);
            } else {
                lemma_statement_end_shift(tokens, 0, 0);
            }
        },
        TokenKind::Return => {
            let value = expression(tokens.skip(1), Precedence::Lowest);
            lemma_expression_outcome(tokens.skip(1), Precedence::Lowest);
            lemma_statement_end_shift(tokens, 1 + value.advanced, 0);
        },
        _ => {
            let value = expression(tokens, Precedence::Lowest);
            lemma_expression_outcome(tokens, Precedence::Lowest);
            lemma_statement_end_shift(tokens, value.advanced, 0);
        },
    }
}

/// The program that the tokens spell: statement after statement up to the end
/// of the input, each beginning behind the last token of the one before. The
/// statements that fail are left out, and the diagnostics of all statements
/// follow one another in source order.
pub open spec fn program(tokens: Seq<TokenView>) -> ProgramResult
    decreases tokens.len(),
{
    if lookahead(tokens, 0).kind == TokenKind::EndOfInput {
        ProgramResult { statements: Seq::empty(), errors: Seq::empty() }
    } else {
        let first = statement(tokens);
        proof {
            lemma_statement_outcome(tokens);
        }
        let rest = program(advance(tokens.skip(first.advanced as int)));
        ProgramResult {
            statements: match first.stmt {
                Some(stmt) => seq![stmt] + rest.statements,
                None => rest.statements,
            },
            errors: first.errors + rest.errors,
        }
    }
}

/// The statements that fail, counted.
pub open spec fn failures(tokens: Seq<TokenView>) -> nat
    decreases tokens.len(),
{
    if lookahead(tokens, 0).kind == TokenKind::EndOfInput {
        0
    } else {
        let first = statement(tokens);
        proof {
            lemma_statement_outcome(tokens);
        }
        let rest = failures(advance(tokens.skip(first.advanced as int)));
        if first.stmt is Some {
            rest
        } else {
            rest + 1
        }
    }
}

/// A program has one diagnostic for each statement that failed, so it has
/// none exactly where every statement parsed.
pub proof fn lemma_one_diagnostic_for_each_failure(tokens: Seq<TokenView>)
    ensures
        program(tokens).errors.len() == failures(tokens),
    decreases tokens.len(),
{
    if lookahead(tokens, 0).kind != TokenKind::EndOfInput {
        lemma_statement_outcome(tokens);
        lemma_one_diagnostic_for_each_failure(
            advance(tokens.skip(statement(tokens).advanced as int)),
        );
    }
}

/// The diagnostics of a program are those of its first statement, followed by
/// those of the program behind that statement: they stand in source order, and
/// none is dropped or merged with another.
pub proof fn lemma_diagnostics_in_source_order(tokens: Seq<TokenView>)
    requires
        lookahead(tokens, 0).kind != TokenKind::EndOfInput,
    ensures
        program(tokens).errors == statement(tokens).errors + program(
            advance(tokens.skip(statement(tokens).advanced as int)),
        ).errors,
        program(tokens).statements == (match statement(tokens).stmt {
            Some(stmt) => seq![stmt],
            None => Seq::empty(),
        }) + program(advance(tokens.skip(statement(tokens).advanced as int))).statements,
{
    let rest = program(advance(tokens.skip(statement(tokens).advanced as int)));
    assert(Seq::<StmtView>::empty() + rest.statements =~= rest.statements);
}

} // verus!
