use vstd::prelude::*;

use crate::path::RepoPath;

verus! {

/// The standard library's I/O error, carried through unchanged.
#[verifier::external_type_specification]
#[verifier::external_body]
pub struct ExIoError(std::io::Error);

/// Why an operation on a repository failed.
#[derive(Debug)]
pub enum GitError {
    /// No directory from the starting path up to the root holds a metadata
    /// directory; carries the starting path.
    NotAGitRepo(RepoPath),
    /// A filesystem operation failed.
    Io(std::io::Error),
}

pub type GitResult<T> = Result<T, GitError>;

impl From<std::io::Error> for GitError {
    fn from(err: std::io::Error) -> (r: GitError) {
        GitError::Io(err)
    }
}

impl vstd::std_specs::convert::FromSpecImpl<std::io::Error> for GitError {
    open spec fn obeys_from_spec() -> bool {
        true
    }

    open spec fn from_spec(err: std::io::Error) -> GitError {
        GitError::Io(err)
    }
}

} // verus!
