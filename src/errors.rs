use vstd::prelude::*;

use crate::lexer::Location;
use crate::nodes::Loc;

verus! {

/// The kind of failure a `MakerError` reports.
#[derive(Debug, Clone, Copy, PartialEq, Eq, Structural)]
pub enum MakerErrorType {
    UnknownDatabase,
    BotAlreadyExists,
    LexerError,
    ParserError,
    RuntimeError,
    BotRunnerError,
}

/// The one structured error value every failure path produces.
#[derive(Debug, Clone)]
pub struct MakerError {
    pub message: String,
    pub error_type: MakerErrorType,
    pub source: Option<String>,
    pub location: Option<Location>,
}

/// An error as a mathematical value.
pub struct Failure {
    pub message: Seq<char>,
    pub error_type: MakerErrorType,
    pub source: Option<Seq<char>>,
    pub location: Option<Loc>,
}

/// A runtime error with `message` at `loc`.
pub open spec fn runtime_failure(message: Seq<char>, loc: Loc) -> Failure {
    Failure { message, error_type: MakerErrorType::RuntimeError, source: None, location: Some(loc) }
}

/// The location of errors that have no place in the source.
pub open spec fn unknown_loc() -> Loc {
    Loc { start: 0, end: 0, line: 0, context: "<unknown>"@ }
}

impl MakerError {
    pub open spec fn failure(&self) -> Failure {
        Failure {
            message: self.message@,
            error_type: self.error_type,
            source: match self.source {
                Some(s) => Some(s@),
                None => None,
            },
            location: match self.location {
                Some(l) => Some(l@),
                None => None,
            },
        }
    }

    /// A copy of this error.
    pub fn duplicate(&self) -> (r: MakerError)
        ensures
            r.failure() == self.failure(),
    {
        MakerError {
            message: self.message.clone(),
            error_type: self.error_type,
            source: match &self.source {
                Some(s) => Some(s.clone()),
                None => None,
            },
            location: match &self.location {
                Some(l) => Some(l.duplicate()),
                None => None,
            },
        }
    }

    /// An error wrapping the description of an underlying failure, if any.
    pub fn from(error: Option<String>, error_type: MakerErrorType) -> (r: MakerError)
        ensures
            r.error_type == error_type,
            r.location is None,
            match error {
                Some(text) => r.message@ == text@ && r.source == Some(text),
                None => r.message@ == "An error occured"@ && r.source is None,
            },
    {
        match error {
            Some(text) => {
                let message = text.clone();
                MakerError { message, error_type, source: Some(text), location: None }
            },
            None => {
                let message = "An error occured".to_owned();
                proof {
                    reveal_strlit("An error occured");
                }
                MakerError { message, error_type, source: None, location: None }
            },
        }
    }

    /// An error with a message and no location.
    pub fn new(message: String, error_type: MakerErrorType) -> (r: MakerError)
        ensures
            r.message == message,
            r.error_type == error_type,
            r.source is None,
            r.location is None,
    {
        MakerError { message, source: None, error_type, location: None }
    }

    /// An error raised by the language pipeline at a source location.
    pub fn lang(message: String, location: Location, error_type: MakerErrorType) -> (r: MakerError)
        ensures
            r.message == message,
            r.error_type == error_type,
            r.source is None,
            r.location == Some(location),
    {
        MakerError { location: Some(location), message, source: None, error_type }
    }
}

} // verus!
