//! The syntax tree: programs, statements and expressions, each with the
//! mathematical value that contracts speak of.

use vstd::prelude::*;

use crate::token::{Token, TokenKind, TokenView};

verus! {

/// The operators that stand before their operand.
#[derive(Clone, Copy, Debug, PartialEq, Eq, Hash, Structural)]
pub enum PrefixOperator {
    /// Arithmetic negation, written `-`.
    Minus,
    /// Logical negation, written `!`.
    Bang,
}

/// The operators that stand between their two operands.
#[derive(Clone, Copy, Debug, PartialEq, Eq, Hash, Structural)]
pub enum InfixOperator {
    Plus,
    Minus,
    Asterisk,
    Slash,
    LessThan,
    GreaterThan,
    Equal,
    NotEqual,
}

/// The prefix operator that a token of the given kind denotes, if any.
pub open spec fn prefix_operator_of(kind: TokenKind) -> Option<PrefixOperator> {
    match kind {
        TokenKind::Minus => Some(PrefixOperator::Minus),
        TokenKind::Bang => Some(PrefixOperator::Bang),
        _ => None,
    }
}

/// The infix operator that a token of the given kind denotes, if any.
pub open spec fn infix_operator_of(kind: TokenKind) -> Option<InfixOperator> {
    match kind {
        TokenKind::Plus => Some(InfixOperator::Plus),
        TokenKind::Minus => Some(InfixOperator::Minus),
        TokenKind::Asterisk => Some(InfixOperator::Asterisk),
        TokenKind::Slash => Some(InfixOperator::Slash),
        TokenKind::LessThan => Some(InfixOperator::LessThan),
        TokenKind::GreaterThan => Some(InfixOperator::GreaterThan),
        TokenKind::Equal => Some(InfixOperator::Equal),
        TokenKind::NotEqual => Some(InfixOperator::NotEqual),
        _ => None,
    }
}

impl InfixOperator {
    /// The infix operator that a token of the given kind denotes, if any.
    pub fn of(kind: TokenKind) -> (operator: Option<InfixOperator>)
        ensures
            operator == infix_operator_of(kind),
    {
        match kind {
            TokenKind::Plus => Some(InfixOperator::Plus),
            TokenKind::Minus => Some(InfixOperator::Minus),
            TokenKind::Asterisk => Some(InfixOperator::Asterisk),
            TokenKind::Slash => Some(InfixOperator::Slash),
            TokenKind::LessThan => Some(InfixOperator::LessThan),
            TokenKind::GreaterThan => Some(InfixOperator::GreaterThan),
            TokenKind::Equal => Some(InfixOperator::Equal),
            TokenKind::NotEqual => Some(InfixOperator::NotEqual),
            _ => None,
        }
    }
}

/// An identifier as a mathematical value.
pub struct IdentifierView {
    pub token: TokenView,
    pub value: Seq<char>,
}

/// An expression as a mathematical value.
#[allow(inconsistent_fields)]
pub enum ExprView {
    Identifier(IdentifierView),
    IntegerLiteral { token: TokenView, value: int },
    Prefix { token: TokenView, operator: PrefixOperator, operand: Box<ExprView> },
    Infix { token: TokenView, operator: InfixOperator, left: Box<ExprView>, right: Box<ExprView> },
}

/// A statement as a mathematical value.
pub enum StmtView {
    Let { token: TokenView, name: IdentifierView, value: ExprView },
    Return { token: TokenView, value: ExprView },
    Expression { token: TokenView, value: ExprView },
}

impl ExprView {
    /// The token that the expression begins with or, for an infix expression,
    /// the token of its operator.
    pub open spec fn token(self) -> TokenView {
        match self {
            ExprView::Identifier(identifier) => identifier.token,
            ExprView::IntegerLiteral { token, .. } => token,
            ExprView::Prefix { token, .. } => token,
            ExprView::Infix { token, .. } => token,
        }
    }
}

impl StmtView {
    /// The token that the statement begins with.
    pub open spec fn token(self) -> TokenView {
        match self {
            StmtView::Let { token, .. } => token,
            StmtView::Return { token, .. } => token,
            StmtView::Expression { token, .. } => token,
        }
    }
}

/// What every node of the tree offers: the text of the token it came from.
pub trait Node {
    /// The text of the token that the node came from.
    spec fn token_text(&self) -> Seq<char>;

    /// The text of the token that the node came from.
    fn token_literal(&self) -> (literal: String)
        ensures
            literal@ == self.token_text(),
    ;
}

/// A name.
#[derive(Debug, PartialEq, Eq)]
pub struct Identifier {
    pub token: Token,
    pub value: String,
}

/// An integer literal with its value.
#[derive(Debug, PartialEq, Eq)]
pub struct IntegerLiteral {
    pub token: Token,
    pub value: i64,
}

/// An operator applied to the expression after it.
#[derive(Debug, PartialEq, Eq)]
pub struct PrefixExpression {
    pub token: Token,
    pub operator: PrefixOperator,
    pub operand: Box<Expressions>,
}

/// An operator applied to the expressions on its two sides.
#[derive(Debug, PartialEq, Eq)]
pub struct InfixExpression {
    pub token: Token,
    pub operator: InfixOperator,
    pub left: Box<Expressions>,
    pub right: Box<Expressions>,
}

/// An expression.
#[derive(Debug, PartialEq, Eq)]
pub enum Expressions {
    Identifier(Identifier),
    IntegerLiteral(IntegerLiteral),
    Prefix(PrefixExpression),
    Infix(InfixExpression),
}

/// `let <name> = <value>;`
#[derive(Debug, PartialEq, Eq)]
pub struct LetStatement {
    pub token: Token,
    pub name: Identifier,
    pub value: Expressions,
}

/// `return <value>;`
#[derive(Debug, PartialEq, Eq)]
pub struct ReturnStatement {
    pub token: Token,
    pub value: Expressions,
}

/// An expression that stands as a statement.
#[derive(Debug, PartialEq, Eq)]
pub struct ExpressionStatement {
    pub token: Token,
    pub value: Expressions,
}

/// A statement.
#[derive(Debug, PartialEq, Eq)]
pub enum Statements {
    Let(LetStatement),
    Return(ReturnStatement),
    Expression(ExpressionStatement),
}

/// A program: its statements in source order.
#[derive(Debug, PartialEq, Eq)]
pub struct Program {
    pub statements: Vec<Statements>,
}

impl View for Identifier {
    type V = IdentifierView;

    open spec fn view(&self) -> IdentifierView {
        IdentifierView { token: self.token@, value: self.value@ }
    }
}

impl View for Expressions {
    type V = ExprView;

    open spec fn view(&self) -> ExprView
        decreases self,
    {
        match self {
            Expressions::Identifier(identifier) => ExprView::Identifier(identifier@),
            Expressions::IntegerLiteral(literal) => ExprView::IntegerLiteral {
                token: literal.token@,
                value: literal.value as int,
            },
            Expressions::Prefix(prefix) => ExprView::Prefix {
                token: prefix.token@,
                operator: prefix.operator,
                operand: Box::new((*prefix.operand).view()),
            },
            Expressions::Infix(infix) => ExprView::Infix {
                token: infix.token@,
                operator: infix.operator,
                left: Box::new((*infix.left).view()),
                right: Box::new((*infix.right).view()),
            },
        }
    }
}

impl View for Statements {
    type V = StmtView;

    open spec fn view(&self) -> StmtView {
        match self {
            Statements::Let(statement) => StmtView::Let {
                token: statement.token@,
                name: statement.name@,
                value: statement.value@,
            },
            Statements::Return(statement) => StmtView::Return {
                token: statement.token@,
                value: statement.value@,
            },
            Statements::Expression(statement) => StmtView::Expression {
                token: statement.token@,
                value: statement.value@,
            },
        }
    }
}

impl View for Program {
    type V = Seq<StmtView>;

    open spec fn view(&self) -> Seq<StmtView> {
        Seq::new(self.statements@.len(), |i: int| self.statements@[i]@)
    }
}

impl Node for Identifier {
    open spec fn token_text(&self) -> Seq<char> {
        self.token@.literal()
    }

    fn token_literal(&self) -> (literal: String) {
        self.token.to_string()
    }
}

impl Node for IntegerLiteral {
    open spec fn token_text(&self) -> Seq<char> {
        self.token@.literal()
    }

    fn token_literal(&self) -> (literal: String) {
        self.token.to_string()
    }
}

impl Node for PrefixExpression {
    open spec fn token_text(&self) -> Seq<char> {
        self.token@.literal()
    }

    fn token_literal(&self) -> (literal: String) {
        self.token.to_string()
    }
}

impl Node for InfixExpression {
    open spec fn token_text(&self) -> Seq<char> {
        self.token@.literal()
    }

    fn token_literal(&self) -> (literal: String) {
        self.token.to_string()
    }
}

impl Node for Expressions {
    open spec fn token_text(&self) -> Seq<char> {
        self@.token().literal()
    }

    fn token_literal(&self) -> (literal: String) {
        match self {
            Expressions::Identifier(identifier) => identifier.token_literal(),
            Expressions::IntegerLiteral(literal) => literal.token_literal(),
            Expressions::Prefix(prefix) => prefix.token_literal(),
            Expressions::Infix(infix) => infix.token_literal(),
        }
    }
}

impl Node for LetStatement {
    open spec fn token_text(&self) -> Seq<char> {
        self.token@.literal()
    }

    fn token_literal(&self) -> (literal: String) {
        self.token.to_string()
    }
}

impl Node for ReturnStatement {
    open spec fn token_text(&self) -> Seq<char> {
        self.token@.literal()
    }

    fn token_literal(&self) -> (literal: String) {
        self.token.to_string()
    }
}

impl Node for ExpressionStatement {
    open spec fn token_text(&self) -> Seq<char> {
        self.token@.literal()
    }

    fn token_literal(&self) -> (literal: String) {
        self.token.to_string()
    }
}

impl Node for Statements {
    open spec fn token_text(&self) -> Seq<char> {
        self@.token().literal()
    }

    fn token_literal(&self) -> (literal: String) {
        match self {
            Statements::Let(statement) => statement.token_literal(),
            Statements::Return(statement) => statement.token_literal(),
            Statements::Expression(statement) => statement.token_literal(),
        }
    }
}

impl Node for Program {
    /// The text of the first statement's token; empty for an empty program.
    open spec fn token_text(&self) -> Seq<char> {
        if self@.len() > 0 {
            self@[0].token().literal()
        } else {
            Seq::empty()
        }
    }

    fn token_literal(&self) -> (literal: String) {
        if self.statements.len() > 0 {
            self.statements[0].token_literal()
        } else {
            String::new()
        }
    }
}

} // verus!
