//! The ways a command can be refused.
use vstd::prelude::*;

verus! {

/// Why a command was refused.
#[derive(PartialEq, Eq, Structural, Debug, Clone, Copy)]
pub enum ArmErrorKind {
    /// `show` was given an empty path.
    ShowPathRequired,
    /// `update` was given an empty path.
    UpdatePathRequired,
    /// The update text has no `:`.
    InvalidUpdateFormat,
    /// No version branch exists yet.
    NoVersion,
    /// A path is not in the mapping of the latest version.
    PathNotFound,
    /// An error code has no branch.
    ErrorCodeNotFound,
    /// The repository has no master branch.
    NoMasterBranch,
    /// A directory is in the way and is no repository.
    DirectoryNotRepository,
    /// An endpoint path has fewer than two parts.
    InvalidEndpointPath,
    /// The category of an endpoint is not in the mapping.
    CategoryNotFound,
    /// A method path has fewer than three parts.
    InvalidMethodPath,
    /// The method is not one of the HTTP methods accepted.
    InvalidHttpMethod,
    /// No repository is found at a path.
    NoRepository,
    /// An error code is not of the form `E001`.
    InvalidErrorCode,
}

/// A refusal: its kind and the message shown for it.
pub struct ArmError {
    pub kind: ArmErrorKind,
    pub message: String,
}

impl ArmError {
    pub fn new(kind: ArmErrorKind, message: &str) -> (e: ArmError)
        ensures
            e.kind == kind,
            e.message@ == message@,
    {
        ArmError { kind, message: message.to_string() }
    }

    /// `prefix`, then `subject`, then `suffix`, as the message.
    pub fn about(kind: ArmErrorKind, prefix: &str, subject: &str, suffix: &str) -> (e: ArmError)
        ensures
            e.kind == kind,
            e.message@ == prefix@ + subject@ + suffix@,
    {
        let mut m = String::new();
        m.append(prefix);
        m.append(subject);
        m.append(suffix);
        ArmError { kind, message: m }
    }
}

} // verus!
