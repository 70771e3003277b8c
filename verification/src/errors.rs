use vstd::prelude::*;
use crate::span::Span;

verus! {

/// The closed taxonomy of problems the pipeline can report. The first six
/// are errors; the last two are non-fatal warnings.
#[derive(Clone, Copy, Debug, PartialEq, Eq, Structural)]
pub enum ErrorKind {
    IllegalCharacter,
    SyntaxError,
    ParseError,
    TypeMismatch,
    AssignToConstant,
    UnknownIdentifier,
    UnusedVariable,
    RedundantCode,
}

/// A reported problem: what went wrong, the offending bytes, the help text
/// shown under the rendered excerpt, and whether the problem must block
/// compilation.
#[derive(Debug)]
pub struct Error {
    pub kind: ErrorKind,
    pub span: Span,
    pub msg: String,
    pub abort: bool,
}

/// Ghost image of a diagnostic, with the message as a character sequence.
pub struct ErrorV {
    pub kind: ErrorKind,
    pub span: Span,
    pub msg: Seq<char>,
    pub abort: bool,
}

impl View for Error {
    type V = ErrorV;

    open spec fn view(&self) -> ErrorV {
        ErrorV { kind: self.kind, span: self.span, msg: self.msg@, abort: self.abort }
    }
}

/// Spec-level image of an aborting diagnostic, the shape in which every
/// stage reports its findings.
pub open spec fn err_v(kind: ErrorKind, span: Span, msg: Seq<char>) -> ErrorV {
    ErrorV { kind, span, msg, abort: true }
}

impl Error {
    pub fn new(kind: ErrorKind, span: Span, msg: &str, abort: bool) -> (e: Error)
        ensures
            e@ == (ErrorV { kind, span, msg: msg@, abort }),
    {
        Error { kind, span, msg: msg.to_owned(), abort }
    }
}

/// Each stage accumulates its diagnostics here and keeps going; nothing
/// short-circuits on the first problem.
pub type ErrorBuffer = Vec<Error>;

} // verus!
