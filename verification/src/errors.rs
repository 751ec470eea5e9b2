//! The library's errors, with the values that the decisions read from them.
use vstd::prelude::*;

use crate::text::owned;

verus! {

/// A failed file or terminal operation.
#[derive(Debug)]
pub struct IoFailure {
    /// Whether the operation failed because the reader went away.
    pub broken_pipe: bool,
    /// What the failure prints as.
    pub message: String,
}

/// A failed HTTP exchange.
#[derive(Debug)]
pub struct RequestFailure {
    /// The response's status code, where the failure is an error status.
    pub status: Option<u16>,
    /// What the failure prints as.
    pub message: String,
}

/// Everything that can stop a run.
#[derive(Debug)]
pub enum Error {
    ShellWordsParseError(String),
    Clap(String),
    Io(IoFailure),
    ParseError(String),
    UrlParseError(String),
    ReqwestError(RequestFailure),
    InvalidHeaderValue(String),
    Msg(String),
}

pub type Result<T> = core::result::Result<T, Error>;

/// The status code of an expired or refused authorization.
pub open spec fn unauthorized_status() -> u16 {
    401
}

impl Error {
    /// What the error prints as.
    pub open spec fn text(&self) -> Seq<char> {
        match self {
            Error::ShellWordsParseError(m) => m@,
            Error::Clap(m) => m@,
            Error::Io(f) => f.message@,
            Error::ParseError(m) => m@,
            Error::UrlParseError(m) => m@,
            Error::ReqwestError(f) => f.message@,
            Error::InvalidHeaderValue(m) => m@,
            Error::Msg(m) => m@,
        }
    }

    /// Whether the server refused the request's authorization.
    pub open spec fn unauthorized(&self) -> bool {
        match self {
            Error::ReqwestError(f) => f.status == Some(unauthorized_status()),
            _ => false,
        }
    }

    /// Whether writing failed because the reader went away.
    pub open spec fn broken_pipe(&self) -> bool {
        match self {
            Error::Io(f) => f.broken_pipe,
            _ => false,
        }
    }

    /// What the error prints as.
    pub fn message(&self) -> (r: String)
        ensures
            r@ == self.text(),
    {
        match self {
            Error::ShellWordsParseError(m) => m.clone(),
            Error::Clap(m) => m.clone(),
            Error::Io(f) => f.message.clone(),
            Error::ParseError(m) => m.clone(),
            Error::UrlParseError(m) => m.clone(),
            Error::ReqwestError(f) => f.message.clone(),
            Error::InvalidHeaderValue(m) => m.clone(),
            Error::Msg(m) => m.clone(),
        }
    }

    /// Whether the server refused the request's authorization.
    pub fn is_unauthorized(&self) -> (r: bool)
        ensures
            r == self.unauthorized(),
    {
        match self {
            Error::ReqwestError(f) => match f.status {
                Some(code) => code == 401,
                None => false,
            },
            _ => false,
        }
    }

    /// An error that only carries a message.
    pub fn msg(message: &str) -> (r: Error)
        ensures
            r is Msg,
            r.text() == message@,
    {
        Error::Msg(owned(message))
    }
}

/// What to do with an error that ended the run: `None` where the output was
/// closed by its reader (leave quietly, successfully), or the text to report.
pub fn report(error: &Error) -> (r: Option<String>)
    ensures
        error.broken_pipe() ==> r is None,
        !error.broken_pipe() ==> r is Some && r->0@ == error.text(),
{
    match error {
        Error::Io(f) => {
            if f.broken_pipe {
                None
            } else {
                Some(f.message.clone())
            }
        },
        _ => Some(error.message()),
    }
}

} // verus!
