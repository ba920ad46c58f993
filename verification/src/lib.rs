pub mod acceptance;
pub mod chars;
pub mod cursor;
pub mod error;
pub mod failures;
pub mod grammar;
pub mod lexer;
pub mod parser;
pub mod scanning;
pub mod stability;
pub mod text;
pub mod token;
pub mod writing;

pub use cursor::Cursor;
pub use error::{LexError, LexErrorKind, Production, SyntaxError};
pub use token::{Token, TokenKind, TokenView};

use vstd::prelude::*;

verus! {

/// What scanning carries from one character to the next: the number of the
/// line being read, and a switch for diagnostics that has no effect on what
/// is accepted.
pub struct State {
    pub debug: bool,
    pub line: u32,
}

impl Default for State {
    /// Diagnostics off, reading line 1.
    fn default() -> (state: Self)
        ensures
            !state.debug,
            state.line == 1,
    {
        State { debug: false, line: 1 }
    }
}

} // verus!
