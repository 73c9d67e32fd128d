use vstd::prelude::*;
use crate::span::Span;

verus! {

/// Errors found when resolving names and types, with where they were found.
#[derive(Debug)]
pub enum TypeError {
    UndefinedSort(String, Span),
    UnboundFunction(String, Span),
    Unbound(String, Span),
}

/// A lookup by name that found nothing.
#[derive(Debug)]
pub struct NotFoundError(pub String);

/// The errors of e-graph operations. Those that a command or a declaration
/// causes carry its span.
#[derive(Debug)]
pub enum Error {
    ParseError(String),
    NotFoundError(NotFoundError),
    TypeError(TypeError),
    TypeErrors(Vec<TypeError>),
    CheckError(Vec<String>, Span),
    NoSuchRuleset(String, Span),
    CombinedRulesetError(String, Span),
    BackendError(String),
    Pop(Span),
    ExpectFail(Span),
    IoError(String, String, Span),
    SubsumeMergeError(String, Span),
    ExtractError(String),
    Shadowing(String, Span, Span),
    CommandAlreadyExists(String, Span),
    InputFileFormatError(String),
}

} // verus!
