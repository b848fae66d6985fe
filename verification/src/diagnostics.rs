//! Diagnostics: what the parser reports when the tokens do not fit the grammar.

use vstd::prelude::*;

use crate::token::TokenKind;

verus! {

/// A syntax error. Errors do not stop the parser: it records them and goes on.
#[derive(Clone, Copy, Debug, PartialEq, Eq, Hash, Structural)]
pub enum ParserError {
    /// The next token had to be of one kind and is of another.
    UnexpectedToken { expected: TokenKind, actual: TokenKind },
    /// No expression begins with a token of this kind.
    NoPrefixParseFunction { kind: TokenKind },
    /// An integer literal is not a decimal number that fits in 64 bits.
    InvalidInteger,
}

impl ParserError {
    /// The message of the error.
    pub open spec fn message_text(self) -> Seq<char> {
        match self {
            ParserError::UnexpectedToken { expected, actual } => "Expected Token: "@
                + expected.name_text() + " -- Got: "@ + actual.name_text(),
            ParserError::NoPrefixParseFunction { kind } => {
                "no prefix parse function for token kind "@ + kind.name_text()
            },
            ParserError::InvalidInteger => "could not parse integer literal"@,
        }
    }

    /// The message of the error, for people to read.
    pub fn message(&self) -> (text: String)
        ensures
            text@ == self.message_text(),
    {
        match self {
            ParserError::UnexpectedToken { expected, actual } => {
                let mut text = String::from_str("Expected Token: ");
                text.append(expected.name());
                text.append(" -- Got: ");
                text.append(actual.name());
                text
            },
            ParserError::NoPrefixParseFunction { kind } => {
                let mut text = String::from_str("no prefix parse function for token kind ");
                text.append(kind.name());
                text
            },
            ParserError::InvalidInteger => String::from_str("could not parse integer literal"),
        }
    }
}

} // verus!
