//! The error type shared by validation, parsing and tool-output handling.

use vstd::prelude::*;

verus! {

/// The standard error type for this library.
///
/// Validation failures (`InvalidInput`) are detected at the boundary,
/// before any external tool runs.  Parse failures carry no input text:
/// diagnostics stay on the server side.
#[derive(Debug, Clone)]
pub enum GitApiError {
    /// A user-supplied repository name, branch name or object id was rejected.
    InvalidInput,
    /// A constructed repository path escaped the repository root.
    PathResolutionError,
    /// The external tool exited with a non-zero status; carries captured stderr.
    CommandFailed(String),
    /// Tool output was expected to be UTF-8 text but was not.
    InvalidEncoding,
    /// A log or tree line did not match any recognized grammar.
    ParseError,
    /// A date string matched neither accepted date pattern.
    DateParseError,
    /// An author line lacked the expected `: `, `<`, `>` delimiters.
    AuthorParseError,
    /// Expected at least one parsed unit, found none (e.g. a repository
    /// with zero commits).
    NoLastElement,
    /// No repository directory exists under the requested name.
    RepositoryNotFound,
}

impl GitApiError {
    /// A short stable label for each error kind, for server-side logs.
    pub fn label(&self) -> (r: &'static str)
        ensures
            r@ == self.spec_label(),
    {
        match self {
            GitApiError::InvalidInput => "invalid input",
            GitApiError::PathResolutionError => "path resolution error",
            GitApiError::CommandFailed(_) => "command failed",
            GitApiError::InvalidEncoding => "invalid encoding",
            GitApiError::ParseError => "parse error",
            GitApiError::DateParseError => "date parse error",
            GitApiError::AuthorParseError => "author parse error",
            GitApiError::NoLastElement => "no last element",
            GitApiError::RepositoryNotFound => "repository not found",
        }
    }

    /// What `label` returns for each variant.
    pub open spec fn spec_label(&self) -> Seq<char> {
        match self {
            GitApiError::InvalidInput => "invalid input"@,
            GitApiError::PathResolutionError => "path resolution error"@,
            GitApiError::CommandFailed(_) => "command failed"@,
            GitApiError::InvalidEncoding => "invalid encoding"@,
            GitApiError::ParseError => "parse error"@,
            GitApiError::DateParseError => "date parse error"@,
            GitApiError::AuthorParseError => "author parse error"@,
            GitApiError::NoLastElement => "no last element"@,
            GitApiError::RepositoryNotFound => "repository not found"@,
        }
    }
}

} // verus!
