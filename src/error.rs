//! The error that ends a lexing run.
use vstd::prelude::*;

verus! {

#[derive(Debug, Clone, Copy, PartialEq, Eq, Structural)]
pub enum TRErrorKind {
    UnknownToken,
    InvalidStatementPosition,
    InvalidCharConstant,
}

/// What an error says: its kind, its text and the line it was found on.
pub struct ErrorView {
    pub kind: TRErrorKind,
    pub description: Seq<char>,
    pub line: nat,
}

#[derive(Debug)]
pub struct TRError {
    kind: TRErrorKind,
    description: String,
    line: usize,
}

impl View for TRError {
    type V = ErrorView;

    closed spec fn view(&self) -> ErrorView {
        ErrorView { kind: self.kind, description: self.description@, line: self.line as nat }
    }
}

impl TRError {
    pub fn new(kind: TRErrorKind, description: &str, line: usize) -> (r: TRError)
        ensures
            r@ == (ErrorView { kind, description: description@, line: line as nat }),
    {
        TRError { kind, description: String::from_str(description), line }
    }

    pub fn kind(&self) -> (r: TRErrorKind)
        ensures
            r == self@.kind,
    {
        self.kind
    }

    pub fn description(&self) -> (r: &str)
        ensures
            r@ == self@.description,
    {
        self.description.as_str()
    }

    pub fn line(&self) -> (r: usize)
        ensures
            r as nat == self@.line,
    {
        self.line
    }
}

pub type TRResult<T> = Result<T, TRError>;

} // verus!
