//! The token model: the closed set of lexical categories and the keyword table.

use vstd::prelude::*;

use crate::text::same_text;

verus! {

/// The lexical category of a token, ignoring any text it carries.
#[derive(Clone, Copy, Debug, PartialEq, Eq, Hash, Structural)]
pub enum TokenKind {
    Illegal,
    EndOfInput,
    Identifier,
    IntegerLiteral,
    Assign,
    Plus,
    Minus,
    Bang,
    Asterisk,
    Slash,
    LessThan,
    GreaterThan,
    Equal,
    NotEqual,
    Comma,
    Semicolon,
    LParen,
    RParen,
    LBrace,
    RBrace,
    Function,
    Let,
    True,
    False,
    If,
    Else,
    Return,
}

impl TokenKind {
    /// The name of the kind as it appears in diagnostics.
    pub open spec fn name_text(self) -> Seq<char> {
        match self {
            TokenKind::Illegal => "Illegal"@,
            TokenKind::EndOfInput => "EndOfInput"@,
            TokenKind::Identifier => "Identifier"@,
            TokenKind::IntegerLiteral => "IntegerLiteral"@,
            TokenKind::Assign => "Assign"@,
            TokenKind::Plus => "Plus"@,
            TokenKind::Minus => "Minus"@,
            TokenKind::Bang => "Bang"@,
            TokenKind::Asterisk => "Asterisk"@,
            TokenKind::Slash => "Slash"@,
            TokenKind::LessThan => "LessThan"@,
            TokenKind::GreaterThan => "GreaterThan"@,
            TokenKind::Equal => "Equal"@,
            TokenKind::NotEqual => "NotEqual"@,
            TokenKind::Comma => "Comma"@,
            TokenKind::Semicolon => "Semicolon"@,
            TokenKind::LParen => "LParen"@,
            TokenKind::RParen => "RParen"@,
            TokenKind::LBrace => "LBrace"@,
            TokenKind::RBrace => "RBrace"@,
            TokenKind::Function => "Function"@,
            TokenKind::Let => "Let"@,
            TokenKind::True => "True"@,
            TokenKind::False => "False"@,
            TokenKind::If => "If"@,
            TokenKind::Else => "Else"@,
            TokenKind::Return => "Return"@,
        }
    }

    /// The name of the kind as it appears in diagnostics.
    pub fn name(self) -> (text: &'static str)
        ensures
            text@ == self.name_text(),
    {
        match self {
            TokenKind::Illegal => "Illegal",
            TokenKind::EndOfInput => "EndOfInput",
            TokenKind::Identifier => "Identifier",
            TokenKind::IntegerLiteral => "IntegerLiteral",
            TokenKind::Assign => "Assign",
            TokenKind::Plus => "Plus",
            TokenKind::Minus => "Minus",
            TokenKind::Bang => "Bang",
            TokenKind::Asterisk => "Asterisk",
            TokenKind::Slash => "Slash",
            TokenKind::LessThan => "LessThan",
            TokenKind::GreaterThan => "GreaterThan",
            TokenKind::Equal => "Equal",
            TokenKind::NotEqual => "NotEqual",
            TokenKind::Comma => "Comma",
            TokenKind::Semicolon => "Semicolon",
            TokenKind::LParen => "LParen",
            TokenKind::RParen => "RParen",
            TokenKind::LBrace => "LBrace",
            TokenKind::RBrace => "RBrace",
            TokenKind::Function => "Function",
            TokenKind::Let => "Let",
            TokenKind::True => "True",
            TokenKind::False => "False",
            TokenKind::If => "If",
            TokenKind::Else => "Else",
            TokenKind::Return => "Return",
        }
    }
}

/// What a token is, as a mathematical value: its kind and the text it carries.
/// Only identifiers and integer literals carry text; for every other kind the
/// text is empty.
pub struct TokenView {
    pub kind: TokenKind,
    pub text: Seq<char>,
}

impl TokenView {
    /// The token of the given kind that carries no text.
    pub open spec fn bare(kind: TokenKind) -> TokenView {
        TokenView { kind, text: Seq::empty() }
    }

    /// The token that stands for the end of the input.
    pub open spec fn end() -> TokenView {
        TokenView::bare(TokenKind::EndOfInput)
    }

    /// The source text that the token stands for.
    pub open spec fn literal(self) -> Seq<char> {
        match self.kind {
            TokenKind::Illegal => "ILLEGAL"@,
            TokenKind::EndOfInput => "\0"@,
            TokenKind::Identifier => self.text,
            TokenKind::IntegerLiteral => self.text,
            TokenKind::Assign => "="@,
            TokenKind::Plus => "+"@,
            TokenKind::Minus => "-"@,
            TokenKind::Bang => "!"@,
            TokenKind::Asterisk => "*"@,
            TokenKind::Slash => "/"@,
            TokenKind::LessThan => "<"@,
            TokenKind::GreaterThan => ">"@,
            TokenKind::Equal => "=="@,
            TokenKind::NotEqual => "!="@,
            TokenKind::Comma => ","@,
            TokenKind::Semicolon => ";"@,
            TokenKind::LParen => "("@,
            TokenKind::RParen => ")"@,
            TokenKind::LBrace => "{"@,
            TokenKind::RBrace => "}"@,
            TokenKind::Function => "fn"@,
            TokenKind::Let => "let"@,
            TokenKind::True => "true"@,
            TokenKind::False => "false"@,
            TokenKind::If => "if"@,
            TokenKind::Else => "else"@,
            TokenKind::Return => "return"@,
        }
    }
}

/// The keyword that the given text spells, if it spells one.
pub open spec fn keyword_kind(text: Seq<char>) -> Option<TokenKind> {
    if text == "let"@ {
        Some(TokenKind::Let)
    } else if text == "fn"@ {
        Some(TokenKind::Function)
    } else if text == "true"@ {
        Some(TokenKind::True)
    } else if text == "false"@ {
        Some(TokenKind::False)
    } else if text == "if"@ {
        Some(TokenKind::If)
    } else if text == "else"@ {
        Some(TokenKind::Else)
    } else if text == "return"@ {
        Some(TokenKind::Return)
    } else {
        None
    }
}

/// The token that a run of letters stands for: the keyword it spells, or else
/// an identifier carrying the run.
pub open spec fn resolve_identifier(text: Seq<char>) -> TokenView {
    match keyword_kind(text) {
        Some(kind) => TokenView::bare(kind),
        None => TokenView { kind: TokenKind::Identifier, text },
    }
}

/// Each keyword resolves to its own token, and every other text to an
/// identifier that carries the text.
pub proof fn lemma_keyword_table()
    ensures
        resolve_identifier("let"@) == TokenView::bare(TokenKind::Let),
        resolve_identifier("fn"@) == TokenView::bare(TokenKind::Function),
        resolve_identifier("true"@) == TokenView::bare(TokenKind::True),
        resolve_identifier("false"@) == TokenView::bare(TokenKind::False),
        resolve_identifier("if"@) == TokenView::bare(TokenKind::If),
        resolve_identifier("else"@) == TokenView::bare(TokenKind::Else),
        resolve_identifier("return"@) == TokenView::bare(TokenKind::Return),
        forall|text: Seq<char>|
            text != "let"@ && text != "fn"@ && text != "true"@ && text != "false"@ && text != "if"@
                && text != "else"@ && text != "return"@ ==> #[trigger] resolve_identifier(text) == (
            TokenView { kind: TokenKind::Identifier, text }),
{
    reveal_strlit("let");
    reveal_strlit("fn");
    reveal_strlit("true");
    reveal_strlit("false");
    reveal_strlit("if");
    reveal_strlit("else");
    reveal_strlit("return");
    assert("let"@.len() == 3 && "fn"@.len() == 2 && "true"@.len() == 4 && "false"@.len() == 5);
    assert("if"@.len() == 2 && "else"@.len() == 4 && "return"@.len() == 6);
    assert("fn"@[0] == 'f' && "if"@[0] == 'i');
    assert("true"@[0] == 't' && "else"@[0] == 'e');
}

/// A lexical unit of the source text.
#[allow(non_camel_case_types)]
#[derive(Debug, Hash)]
pub enum Token {
    ILLEGAL,
    EOF,
    // Identifiers and literals
    IDENT(String),
    INT(String),
    // Operators
    ASSIGN,
    PLUS,
    MINUS,
    BANG,
    ASTERISK,
    SLASH,
    LT,
    GT,
    EQ,
    NotEq,
    // Delimiters
    COMMA,
    SEMICOLON,
    LPAREN,
    RPAREN,
    LBRACE,
    RBRACE,
    // Keywords
    FUNCTION,
    LET,
    TRUE,
    FALSE,
    IF,
    ELSE,
    RETURN,
}

impl View for Token {
    type V = TokenView;

    open spec fn view(&self) -> TokenView {
        match self {
            Token::ILLEGAL => TokenView::bare(TokenKind::Illegal),
            Token::EOF => TokenView::bare(TokenKind::EndOfInput),
            Token::IDENT(text) => TokenView { kind: TokenKind::Identifier, text: text@ },
            Token::INT(text) => TokenView { kind: TokenKind::IntegerLiteral, text: text@ },
            Token::ASSIGN => TokenView::bare(TokenKind::Assign),
            Token::PLUS => TokenView::bare(TokenKind::Plus),
            Token::MINUS => TokenView::bare(TokenKind::Minus),
            Token::BANG => TokenView::bare(TokenKind::Bang),
            Token::ASTERISK => TokenView::bare(TokenKind::Asterisk),
            Token::SLASH => TokenView::bare(TokenKind::Slash),
            Token::LT => TokenView::bare(TokenKind::LessThan),
            Token::GT => TokenView::bare(TokenKind::GreaterThan),
            Token::EQ => TokenView::bare(TokenKind::Equal),
            Token::NotEq => TokenView::bare(TokenKind::NotEqual),
            Token::COMMA => TokenView::bare(TokenKind::Comma),
            Token::SEMICOLON => TokenView::bare(TokenKind::Semicolon),
            Token::LPAREN => TokenView::bare(TokenKind::LParen),
            Token::RPAREN => TokenView::bare(TokenKind::RParen),
            Token::LBRACE => TokenView::bare(TokenKind::LBrace),
            Token::RBRACE => TokenView::bare(TokenKind::RBrace),
            Token::FUNCTION => TokenView::bare(TokenKind::Function),
            Token::LET => TokenView::bare(TokenKind::Let),
            Token::TRUE => TokenView::bare(TokenKind::True),
            Token::FALSE => TokenView::bare(TokenKind::False),
            Token::IF => TokenView::bare(TokenKind::If),
            Token::ELSE => TokenView::bare(TokenKind::Else),
            Token::RETURN => TokenView::bare(TokenKind::Return),
        }
    }
}

impl Token {
    /// The kind of the token.
    pub fn kind(&self) -> (kind: TokenKind)
        ensures
            kind == self@.kind,
    {
        match self {
            Token::ILLEGAL => TokenKind::Illegal,
            Token::EOF => TokenKind::EndOfInput,
            Token::IDENT(_) => TokenKind::Identifier,
            Token::INT(_) => TokenKind::IntegerLiteral,
            Token::ASSIGN => TokenKind::Assign,
            Token::PLUS => TokenKind::Plus,
            Token::MINUS => TokenKind::Minus,
            Token::BANG => TokenKind::Bang,
            Token::ASTERISK => TokenKind::Asterisk,
            Token::SLASH => TokenKind::Slash,
            Token::LT => TokenKind::LessThan,
            Token::GT => TokenKind::GreaterThan,
            Token::EQ => TokenKind::Equal,
            Token::NotEq => TokenKind::NotEqual,
            Token::COMMA => TokenKind::Comma,
            Token::SEMICOLON => TokenKind::Semicolon,
            Token::LPAREN => TokenKind::LParen,
            Token::RPAREN => TokenKind::RParen,
            Token::LBRACE => TokenKind::LBrace,
            Token::RBRACE => TokenKind::RBrace,
            Token::FUNCTION => TokenKind::Function,
            Token::LET => TokenKind::Let,
            Token::TRUE => TokenKind::True,
            Token::FALSE => TokenKind::False,
            Token::IF => TokenKind::If,
            Token::ELSE => TokenKind::Else,
            Token::RETURN => TokenKind::Return,
        }
    }

    /// The token of the given kind without text. For the two kinds that carry
    /// text, the text is empty.
    pub fn bare(kind: TokenKind) -> (token: Token)
        ensures
            token@ == TokenView::bare(kind),
    {
        match kind {
            TokenKind::Illegal => Token::ILLEGAL,
            TokenKind::EndOfInput => Token::EOF,
            TokenKind::Identifier => Token::IDENT(String::new()),
            TokenKind::IntegerLiteral => Token::INT(String::new()),
            TokenKind::Assign => Token::ASSIGN,
            TokenKind::Plus => Token::PLUS,
            TokenKind::Minus => Token::MINUS,
            TokenKind::Bang => Token::BANG,
            TokenKind::Asterisk => Token::ASTERISK,
            TokenKind::Slash => Token::SLASH,
            TokenKind::LessThan => Token::LT,
            TokenKind::GreaterThan => Token::GT,
            TokenKind::Equal => Token::EQ,
            TokenKind::NotEqual => Token::NotEq,
            TokenKind::Comma => Token::COMMA,
            TokenKind::Semicolon => Token::SEMICOLON,
            TokenKind::LParen => Token::LPAREN,
            TokenKind::RParen => Token::RPAREN,
            TokenKind::LBrace => Token::LBRACE,
            TokenKind::RBrace => Token::RBRACE,
            TokenKind::Function => Token::FUNCTION,
            TokenKind::Let => Token::LET,
            TokenKind::True => Token::TRUE,
            TokenKind::False => Token::FALSE,
            TokenKind::If => Token::IF,
            TokenKind::Else => Token::ELSE,
            TokenKind::Return => Token::RETURN,
        }
    }

    /// The text that the token carries: the name of an identifier, the digits
    /// of an integer literal, and nothing for any other token.
    pub fn text(&self) -> (text: String)
        ensures
            text@ == self@.text,
    {
        match self {
            Token::IDENT(text) => text.clone(),
            Token::INT(text) => text.clone(),
            _ => String::new(),
        }
    }

    /// The source text that the token stands for.
    pub fn to_string(&self) -> (text: String)
        ensures
            text@ == self@.literal(),
    {
        match self {
            Token::ILLEGAL => String::from_str("ILLEGAL"),
            Token::EOF => String::from_str("\0"),
            Token::IDENT(text) => text.clone(),
            Token::INT(text) => text.clone(),
            Token::ASSIGN => String::from_str("="),
            Token::PLUS => String::from_str("+"),
            Token::MINUS => String::from_str("-"),
            Token::BANG => String::from_str("!"),
            Token::ASTERISK => String::from_str("*"),
            Token::SLASH => String::from_str("/"),
            Token::LT => String::from_str("<"),
            Token::GT => String::from_str(">"),
            Token::EQ => String::from_str("=="),
            Token::NotEq => String::from_str("!="),
            Token::COMMA => String::from_str(","),
            Token::SEMICOLON => String::from_str(";"),
            Token::LPAREN => String::from_str("("),
            Token::RPAREN => String::from_str(")"),
            Token::LBRACE => String::from_str("{"),
            Token::RBRACE => String::from_str("}"),
            Token::FUNCTION => String::from_str("fn"),
            Token::LET => String::from_str("let"),
            Token::TRUE => String::from_str("true"),
            Token::FALSE => String::from_str("false"),
            Token::IF => String::from_str("if"),
            Token::ELSE => String::from_str("else"),
            Token::RETURN => String::from_str("return"),
        }
    }
}

impl Clone for Token {
    fn clone(&self) -> (copy: Token)
        ensures
            copy == *self,
    {
        match self {
            Token::IDENT(text) => Token::IDENT(text.clone()),
            Token::INT(text) => Token::INT(text.clone()),
            _ => Token::bare(self.kind()),
        }
    }
}

impl PartialEq for Token {
    fn eq(&self, other: &Token) -> (equal: bool) {
        match (self, other) {
            (Token::IDENT(a), Token::IDENT(b)) => *a == *b,
            (Token::INT(a), Token::INT(b)) => *a == *b,
            _ => self.kind() == other.kind(),
        }
    }
}

/// Two tokens are equal when they have the same kind and carry the same text.
impl vstd::std_specs::cmp::PartialEqSpecImpl for Token {
    open spec fn obeys_eq_spec() -> bool {
        true
    }

    open spec fn eq_spec(&self, other: &Token) -> bool {
        self@ == other@
    }
}

impl Eq for Token {}

/// The values of a sequence of tokens.
pub open spec fn token_views(tokens: Seq<Token>) -> Seq<TokenView> {
    Seq::new(tokens.len(), |i: int| tokens[i]@)
}

/// The token for a run of letters: the keyword it spells, or else an
/// identifier that carries the run.
pub fn lookup_identifier(identifier: String) -> (token: Token)
    ensures
        token@ == resolve_identifier(identifier@),
{
    let text = identifier.as_str();
    if same_text(text, "let") {
        Token::LET
    } else if same_text(text, "fn") {
        Token::FUNCTION
    } else if same_text(text, "true") {
        Token::TRUE
    } else if same_text(text, "false") {
        Token::FALSE
    } else if same_text(text, "if") {
        Token::IF
    } else if same_text(text, "else") {
        Token::ELSE
    } else if same_text(text, "return") {
        Token::RETURN
    } else {
        Token::IDENT(identifier)
    }
}

} // verus!
