use vstd::prelude::*;

use crate::token::{Token, TokenView};

verus! {

/// Why tokenizing or parsing stopped. Every error ends the whole call.
#[derive(Debug, Clone, PartialEq)]
pub enum Error {
    /// A quoted string reached the end of the input without its closing `"`.
    UnterminatedString,
    /// A `$` or `@` was not followed by a letter.
    MalformedMacroParameterName,
    /// A number held more than one `.`.
    MalformedFloat,
    /// A number without `.` does not fit in 64 bits.
    MalformedInteger,
    /// The grammar did not allow this token here.
    UnexpectedToken(Token),
    /// The grammar needed another token or character, but the input ended.
    UnexpectedEOF,
    /// Blocks were nested deeper than `MAX_NESTING`.
    RecursionLimitExceeded,
}

/// The mathematical model of an `Error`.
pub enum ErrorView {
    UnterminatedString,
    MalformedMacroParameterName,
    MalformedFloat,
    MalformedInteger,
    UnexpectedToken(TokenView),
    UnexpectedEOF,
    RecursionLimitExceeded,
}

impl View for Error {
    type V = ErrorView;

    open spec fn view(&self) -> ErrorView {
        match self {
            Error::UnterminatedString => ErrorView::UnterminatedString,
            Error::MalformedMacroParameterName => ErrorView::MalformedMacroParameterName,
            Error::MalformedFloat => ErrorView::MalformedFloat,
            Error::MalformedInteger => ErrorView::MalformedInteger,
            Error::UnexpectedToken(t) => ErrorView::UnexpectedToken(t@),
            Error::UnexpectedEOF => ErrorView::UnexpectedEOF,
            Error::RecursionLimitExceeded => ErrorView::RecursionLimitExceeded,
        }
    }
}

} // verus!
