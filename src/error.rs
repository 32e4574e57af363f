use vstd::prelude::*;

verus! {

/// Errors of the changelog pipeline.
#[derive(Debug, Clone, PartialEq, Eq)]
pub enum Error {
    /// The message does not follow the conventional commit grammar.
    ParseError(String),
    /// Classification dropped or rejected the commit.
    GroupError(String),
    /// An external preprocessing command failed.
    CommandError(String),
    /// A hosting API call failed.
    NetworkError(String),
    /// A pattern could not be compiled.
    PatternError(String),
    /// The releases asked for cannot be found.
    ChangelogError(String),
    /// A template could not be parsed or rendered.
    TemplateError(String),
    /// A timestamp cannot be shown as a calendar date.
    DateError(i64),
}

} // verus!
