use crate::text::{decimal_text, push_decimal};
use crate::token::TokenKind;
use vstd::prelude::*;
use vstd::string::StringExecFns;

verus! {

/// The ways in which scanning fails.
#[derive(Clone, Copy, Debug, PartialEq, Eq, Structural)]
pub enum LexErrorKind {
    /// The input ends directly after the first character of an identifier.
    UnterminatedIdentifier,
    /// The input ends inside a number literal.
    UnterminatedNumber,
    /// A run of digits and underscores that is no decimal number of 64 bits.
    InvalidNumber,
    /// The input ends directly after a `:`.
    UnterminatedAssignment,
    /// A `{` without a `}` after it.
    UnterminatedComment,
    /// A character that begins no token; a `:` that no `=` follows is
    /// reported as the unknown token `:`.
    UnknownToken { found: char },
}

/// A failure of the scanner, with the line on which it was met.
#[derive(Clone, Copy, Debug, PartialEq, Eq, Structural)]
pub struct LexError {
    pub kind: LexErrorKind,
    pub line: u32,
}

/// The productions of the grammar that can be asked for at the end of the
/// input.
#[derive(Clone, Copy, Debug, PartialEq, Eq, Structural)]
pub enum Production {
    Block,
    Statement,
    Condition,
    Expression,
    Factor,
}

/// The ways in which parsing fails.
#[derive(Clone, Copy, Debug, PartialEq, Eq, Structural)]
pub enum SyntaxError {
    /// A token of kind `expected` was required where one of kind `found`
    /// stands.
    UnexpectedToken { expected: TokenKind, found: TokenKind },
    /// The input ends where a token of kind `expected` was required, or
    /// directly after one that must not be the last.
    UnexpectedEnd { expected: TokenKind },
    /// The input ends where `production` was to begin.
    MissingProduction { production: Production },
    /// A token of kind `found` stands where a factor was to begin.
    ExpectedFactor { found: TokenKind },
    /// The left side of a comparison is not followed by `=`, `#`, `<` or `>`.
    InvalidCondition,
    /// A block lies deeper than blocks may be nested.
    NestingTooDeep,
    /// A block was entered at a negative depth.
    NestingUnderflow,
    /// There is no token at all.
    EmptyInput,
    /// A token of kind `found` stands after the `.` that ends the program.
    TrailingTokens { found: TokenKind },
}

impl LexErrorKind {
    /// What the message of an error of this kind says before the line
    /// number.
    pub open spec fn text(self) -> Seq<char> {
        match self {
            LexErrorKind::UnterminatedIdentifier => "Unterminated identifier on line "@,
            LexErrorKind::UnterminatedNumber => "Unterminated number on line "@,
            LexErrorKind::InvalidNumber => "Invalid number at line "@,
            LexErrorKind::UnterminatedAssignment => "Unterminated assignment on line "@,
            LexErrorKind::UnterminatedComment => "Unterminated comment on line "@,
            LexErrorKind::UnknownToken { found } => if found == ':' {
                "Unknown token ':' on line "@
            } else {
                "Unknown token on line "@
            },
        }
    }

    /// What the message of an error of this kind says before the line
    /// number.
    pub fn describe(&self) -> (text: &'static str)
        ensures
            text@ == self.text(),
    {
        match self {
            LexErrorKind::UnterminatedIdentifier => "Unterminated identifier on line ",
            LexErrorKind::UnterminatedNumber => "Unterminated number on line ",
            LexErrorKind::InvalidNumber => "Invalid number at line ",
            LexErrorKind::UnterminatedAssignment => "Unterminated assignment on line ",
            LexErrorKind::UnterminatedComment => "Unterminated comment on line ",
            LexErrorKind::UnknownToken { found } => if *found == ':' {
                "Unknown token ':' on line "
            } else {
                "Unknown token on line "
            },
        }
    }
}

impl LexError {
    /// The message of the error: what failed, and the number of the line.
    pub open spec fn text(self) -> Seq<char> {
        self.kind.text() + decimal_text(self.line as nat)
    }

    /// The message of the error, for people to read.
    pub fn message(&self) -> (text: String)
        ensures
            text@ == self.text(),
    {
        let mut text = String::from_str(self.kind.describe());
        push_decimal(&mut text, self.line);
        text
    }
}

impl Production {
    /// What the message says where the input ends before this production.
    pub open spec fn text(self) -> Seq<char> {
        match self {
            Production::Block => "Expected more tokens and found end of file."@,
            Production::Statement => "Unterminated statement."@,
            Production::Condition => "Expected condition, but found end of file."@,
            Production::Expression => "Expected expression but found end of file."@,
            Production::Factor => "Expected factor but found end of file."@,
        }
    }

    /// What the message says where the input ends before this production.
    pub fn describe(&self) -> (text: &'static str)
        ensures
            text@ == self.text(),
    {
        match self {
            Production::Block => "Expected more tokens and found end of file.",
            Production::Statement => "Unterminated statement.",
            Production::Condition => "Expected condition, but found end of file.",
            Production::Expression => "Expected expression but found end of file.",
            Production::Factor => "Expected factor but found end of file.",
        }
    }
}

impl SyntaxError {
    /// The message of the error: what was expected and what was found.
    pub open spec fn text(self) -> Seq<char> {
        match self {
            SyntaxError::UnexpectedToken { expected, found } => "Syntax error: expected "@
                + expected.name_text() + " but found "@ + found.name_text(),
            SyntaxError::UnexpectedEnd { expected } => "Syntax error: expected "@
                + expected.name_text() + " but found end of file."@,
            SyntaxError::MissingProduction { production } => production.text(),
            SyntaxError::ExpectedFactor { found } => "Syntax error: expected factor, found "@
                + found.name_text(),
            SyntaxError::InvalidCondition => "Syntax error: invalid conditional expression."@,
            SyntaxError::NestingTooDeep => "Error: nesting depth exceeded."@,
            SyntaxError::NestingUnderflow => "Error: nesting depth fell below zero."@,
            SyntaxError::EmptyInput => "Error: empty file."@,
            SyntaxError::TrailingTokens { found } =>
                "Error: expected end of file but found remaining token "@ + found.name_text()
                + " after `.`"@,
        }
    }

    /// The message of the error, for people to read.
    pub fn message(&self) -> (text: String)
        ensures
            text@ == self.text(),
    {
        match self {
            SyntaxError::UnexpectedToken { expected, found } => {
                let mut text = String::from_str("Syntax error: expected ");
                text.append(expected.name());
                text.append(" but found ");
                text.append(found.name());
                text
            },
            SyntaxError::UnexpectedEnd { expected } => {
                let mut text = String::from_str("Syntax error: expected ");
                text.append(expected.name());
                text.append(" but found end of file.");
                text
            },
            SyntaxError::MissingProduction { production } => String::from_str(
                production.describe(),
            ),
            SyntaxError::ExpectedFactor { found } => {
                let mut text = String::from_str("Syntax error: expected factor, found ");
                text.append(found.name());
                text
            },
            SyntaxError::InvalidCondition => String::from_str(
                "Syntax error: invalid conditional expression.",
            ),
            SyntaxError::NestingTooDeep => String::from_str("Error: nesting depth exceeded."),
            SyntaxError::NestingUnderflow => String::from_str(
                "Error: nesting depth fell below zero.",
            ),
            SyntaxError::EmptyInput => String::from_str("Error: empty file."),
            SyntaxError::TrailingTokens { found } => {
                let mut text = String::from_str(
                    "Error: expected end of file but found remaining token ",
                );
                text.append(found.name());
                text.append(" after `.`");
                text
            },
        }
    }
}

} // verus!
