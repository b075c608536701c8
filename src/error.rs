//! The two kinds of failure: compile time (scanning, parsing) and run time.
use vstd::prelude::*;
use crate::token::{Token, TokenV};

verus! {

/// A failure, with the token it points at, where there is one.
#[derive(Debug)]
pub enum Error {
    CompileTimeError { token: Option<Token>, message: String },
    RuntimeError { token: Option<Token>, message: String },
}

/// The model of a failure.
pub enum ErrorV {
    CompileTime { token: Option<TokenV>, message: Seq<char> },
    Runtime { token: Option<TokenV>, message: Seq<char> },
}

pub open spec fn token_view(t: Option<Token>) -> Option<TokenV> {
    match t {
        Some(t) => Some(t@),
        None => None,
    }
}

impl View for Error {
    type V = ErrorV;

    open spec fn view(&self) -> ErrorV {
        match self {
            Error::CompileTimeError { token, message } => ErrorV::CompileTime {
                token: token_view(*token),
                message: message@,
            },
            Error::RuntimeError { token, message } => ErrorV::Runtime {
                token: token_view(*token),
                message: message@,
            },
        }
    }
}

} // verus!
