//! Errors of the expert system, and how an interactive session treats them.

use vstd::prelude::*;

verus! {

/// The number and the text of the input line that an error is about; none
/// for a line typed interactively.
pub type LineInfo = Option<(usize, String)>;

/// An I/O error of the standard library, carried through unchanged.
#[verifier::external_type_specification]
#[verifier::external_body]
pub struct ExIoError(std::io::Error);

/// An error of the line editor, carried through unchanged.
#[verifier::external_type_specification]
#[verifier::external_body]
pub struct ExReadlineError(rustyline::error::ReadlineError);

/// Everything that can go wrong while reading rules, facts and queries.
#[derive(Debug)]
pub enum ExpertSystemError {
    IoError(std::io::Error),
    /// The line, and the token that could not be read.
    InvalidToken(LineInfo, String),
    InvalidFact(LineInfo, char),
    InvalidQuery(LineInfo, char),
    EmptyQuery(LineInfo),
    MissingQueries,
    UnbalancedParentheses(LineInfo),
    MissingImplication(LineInfo),
    MultipleImplications(LineInfo),
    ParenthesesAroundImplication(LineInfo),
    InvalidExpression(LineInfo),
    EmptyFile,
    UnusedFactsOrRules,
    Contradiction(LineInfo),
    ReadlineError(rustyline::error::ReadlineError),
}

/// What an interactive session does with an error.
#[derive(Debug, PartialEq, Eq, Structural, Clone, Copy)]
pub enum InteractiveHandling {
    /// The session stops with the error.
    Error,
    /// The error is shown and the session goes on.
    Warning,
    /// The error is ignored.
    Acceptable,
}

impl ExpertSystemError {
    /// How an interactive session treats the error: I/O and editor errors
    /// end it, errors that only concern a whole file are ignored, and errors
    /// in a line are shown as warnings.
    pub open spec fn spec_handling(&self) -> InteractiveHandling {
        match self {
            ExpertSystemError::EmptyFile
            | ExpertSystemError::MissingQueries
            | ExpertSystemError::UnusedFactsOrRules => InteractiveHandling::Acceptable,
            ExpertSystemError::IoError(_) | ExpertSystemError::ReadlineError(_) => InteractiveHandling::Error,
            _ => InteractiveHandling::Warning,
        }
    }

    /// How an interactive session treats the error.
    pub fn interactive_handling(&self) -> (h: InteractiveHandling)
        ensures
            h == self.spec_handling(),
    {
        match self {
            ExpertSystemError::EmptyFile
            | ExpertSystemError::MissingQueries
            | ExpertSystemError::UnusedFactsOrRules => InteractiveHandling::Acceptable,
            ExpertSystemError::InvalidToken(_, _)
            | ExpertSystemError::InvalidFact(_, _)
            | ExpertSystemError::InvalidQuery(_, _)
            | ExpertSystemError::EmptyQuery(_)
            | ExpertSystemError::UnbalancedParentheses(_)
            | ExpertSystemError::MissingImplication(_)
            | ExpertSystemError::MultipleImplications(_)
            | ExpertSystemError::ParenthesesAroundImplication(_)
            | ExpertSystemError::InvalidExpression(_)
            | ExpertSystemError::Contradiction(_) => InteractiveHandling::Warning,
            ExpertSystemError::IoError(_) | ExpertSystemError::ReadlineError(_) => InteractiveHandling::Error,
        }
    }
}

impl From<std::io::Error> for ExpertSystemError {
    fn from(value: std::io::Error) -> (e: Self) {
        ExpertSystemError::IoError(value)
    }
}

impl vstd::std_specs::convert::FromSpecImpl<std::io::Error> for ExpertSystemError {
    open spec fn obeys_from_spec() -> bool {
        true
    }

    open spec fn from_spec(value: std::io::Error) -> Self {
        ExpertSystemError::IoError(value)
    }
}

impl From<rustyline::error::ReadlineError> for ExpertSystemError {
    fn from(value: rustyline::error::ReadlineError) -> (e: Self) {
        ExpertSystemError::ReadlineError(value)
    }
}

impl vstd::std_specs::convert::FromSpecImpl<rustyline::error::ReadlineError> for ExpertSystemError {
    open spec fn obeys_from_spec() -> bool {
        true
    }

    open spec fn from_spec(value: rustyline::error::ReadlineError) -> Self {
        ExpertSystemError::ReadlineError(value)
    }
}

/// A copy of the line information: the number, and a copy of the text.
pub fn copy_line_info(line_info: &LineInfo) -> (c: LineInfo)
    ensures
        c == *line_info,
{
    match line_info {
        Some((number, text)) => Some((*number, text.clone())),
        None => None,
    }
}

} // verus!
