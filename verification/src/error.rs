//! The failure shapes of the front end.
//!
//! `Error` is the closed set of structural parse failures a conforming
//! parser may report, each carrying byte offsets into the source unit; the
//! diagnostic mapper consumes exactly these shapes.  `MainError` wraps a
//! whole invocation's outcome for a driver program.

use crate::token_wrap::{LexicalError, Token, TokenModel};
use vstd::prelude::*;

verus! {

/// A structural parse failure.
///
/// `InvalidToken` comes only from fallback tokenizing paths outside this
/// crate; `UnrecognizedEOF` and `UnrecognizedToken` carry the set of token
/// descriptions that would have been accepted; `User` wraps a lexical error
/// surfaced by the tokenizer.
#[derive(Debug)]
pub enum Error<'a> {
    InvalidToken { location: usize },
    UnrecognizedEOF { location: usize, expected: Vec<String> },
    UnrecognizedToken { token: (usize, Token<'a>, usize), expected: Vec<String> },
    ExtraToken { token: (usize, Token<'a>, usize) },
    User { error: LexicalError },
}

/// The mathematical value of a parse failure.
pub enum ErrorModel {
    InvalidToken { location: int },
    UnrecognizedEOF { location: int, expected: Seq<Seq<char>> },
    UnrecognizedToken { start: int, token: TokenModel, end: int, expected: Seq<Seq<char>> },
    ExtraToken { start: int, token: TokenModel, end: int },
    User { start: int, end: int },
}

impl<'a> View for Error<'a> {
    type V = ErrorModel;

    open spec fn view(&self) -> ErrorModel {
        match *self {
            Error::InvalidToken { location } => ErrorModel::InvalidToken {
                location: location as int,
            },
            Error::UnrecognizedEOF { location, expected } => ErrorModel::UnrecognizedEOF {
                location: location as int,
                expected: expected.deep_view(),
            },
            Error::UnrecognizedToken { token, expected } => ErrorModel::UnrecognizedToken {
                start: token.0 as int,
                token: token.1@,
                end: token.2 as int,
                expected: expected.deep_view(),
            },
            Error::ExtraToken { token } => ErrorModel::ExtraToken {
                start: token.0 as int,
                token: token.1@,
                end: token.2 as int,
            },
            Error::User { error } => ErrorModel::User {
                start: error.start as int,
                end: error.end as int,
            },
        }
    }
}

#[verifier::external_type_specification]
#[verifier::external_body]
pub struct ExIoError(std::io::Error);

/// The outcome of a whole driver invocation: reading the source failed, or
/// failures were already reported to the user.
#[derive(Debug)]
pub enum MainError {
    IO(std::io::Error),
    SomethingWentAwryAndStuffWasPrinted,
}

impl From<std::io::Error> for MainError {
    fn from(it: std::io::Error) -> (r: Self) {
        MainError::IO(it)
    }
}

impl vstd::std_specs::convert::FromSpecImpl<std::io::Error> for MainError {
    open spec fn obeys_from_spec() -> bool {
        true
    }

    open spec fn from_spec(it: std::io::Error) -> Self {
        MainError::IO(it)
    }
}

} // verus!
