use vstd::prelude::*;

verus! {

#[verifier::external_type_specification]
#[verifier::external_body]
pub struct ExIoError(std::io::Error);

#[verifier::external_type_specification]
#[verifier::external_body]
pub struct ExRegexError(regex::Error);

/// Errors that can occur when using temporary files and directories.
#[derive(Debug)]
pub enum TempError {
    /// The handle was already disposed of.
    FileIsNone,
    /// A given file and path do not name the same resource.
    InvalidFileOrPath,
    /// The creation target is already present.
    PathExists(String),
    /// An operating-system failure.
    IO(std::io::Error),
    /// A malformed match pattern.
    Regex(regex::Error),
    /// The search for an unused random name ran out of attempts.
    NameGenerationExhausted,
}

/// Result type whose error is a `TempError`.
pub type TempResult<T> = Result<T, TempError>;

impl From<std::io::Error> for TempError {
    fn from(e: std::io::Error) -> (r: Self)
        ensures
            r == TempError::IO(e),
    {
        TempError::IO(e)
    }
}

impl vstd::std_specs::convert::FromSpecImpl<std::io::Error> for TempError {
    open spec fn obeys_from_spec() -> bool {
        true
    }

    open spec fn from_spec(e: std::io::Error) -> TempError {
        TempError::IO(e)
    }
}

impl From<regex::Error> for TempError {
    fn from(e: regex::Error) -> (r: Self)
        ensures
            r == TempError::Regex(e),
    {
        TempError::Regex(e)
    }
}

impl vstd::std_specs::convert::FromSpecImpl<regex::Error> for TempError {
    open spec fn obeys_from_spec() -> bool {
        true
    }

    open spec fn from_spec(e: regex::Error) -> TempError {
        TempError::Regex(e)
    }
}

/// Errors of the in-memory filesystem.
#[derive(Debug)]
pub enum FsError {
    /// The file or directory was not found.
    NotFound(String),
    /// The file or directory already exists, or a directory is not empty.
    AlreadyExists(String),
    /// The path is invalid.
    InvalidPath(String),
}

} // verus!
