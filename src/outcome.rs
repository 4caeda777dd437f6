//! What an operation reports: completion, or an expected condition that
//! stopped it (a soft failure), or a hard error.

use vstd::prelude::*;

verus! {

/// An expected, user-level condition that stops an operation without failing it.
#[derive(Debug, Clone, Copy, PartialEq, Eq, Structural)]
pub enum Notice {
    BranchExists,
    BranchMissing,
    NoCommits,
    BranchCheckedOut,
    NeedsForce,
    NotStaged,
    UnknownKey,
    RemoteMissing,
    NothingToCommit,
    BareRepository,
}

/// The result of an operation that completed, or stopped on a soft failure.
#[derive(Debug, PartialEq, Eq)]
pub enum Outcome {
    Done,
    /// A commit was created under this hash.
    Committed(String),
    Soft(Notice),
}

/// A hard failure: the command cannot go on.
#[derive(Debug, Clone, Copy, PartialEq, Eq, Structural)]
pub enum RepoError {
    /// No repository, or no object under the hash asked for.
    NotFound,
    /// A repository already exists where one was to be created.
    AlreadyExists,
    /// A stored record could not be read.
    Malformed,
}

impl Notice {
    pub open spec fn text(self) -> Seq<char> {
        match self {
            Notice::BranchExists => "already exists"@,
            Notice::BranchMissing => "does not exist"@,
            Notice::NoCommits => "no commits yet"@,
            Notice::BranchCheckedOut => "currently checked out"@,
            Notice::NeedsForce => "use --force to delete (branch merge check not implemented)"@,
            Notice::NotStaged => "not in staging area"@,
            Notice::UnknownKey => "unknown configuration key"@,
            Notice::RemoteMissing => "remote not found"@,
            Notice::NothingToCommit => "nothing to commit (no files in staging area)"@,
            Notice::BareRepository => "not possible in a bare repository"@,
        }
    }

    /// The text shown for this condition.
    pub fn message(&self) -> (r: &'static str)
        ensures
            r@ == self.text(),
    {
        match self {
            Notice::BranchExists => "already exists",
            Notice::BranchMissing => "does not exist",
            Notice::NoCommits => "no commits yet",
            Notice::BranchCheckedOut => "currently checked out",
            Notice::NeedsForce => "use --force to delete (branch merge check not implemented)",
            Notice::NotStaged => "not in staging area",
            Notice::UnknownKey => "unknown configuration key",
            Notice::RemoteMissing => "remote not found",
            Notice::NothingToCommit => "nothing to commit (no files in staging area)",
            Notice::BareRepository => "not possible in a bare repository",
        }
    }
}

impl RepoError {
    pub open spec fn text(self) -> Seq<char> {
        match self {
            RepoError::NotFound => "not found"@,
            RepoError::AlreadyExists => "repository already exists"@,
            RepoError::Malformed => "malformed record"@,
        }
    }

    /// The text shown for this error.
    pub fn message(&self) -> (r: &'static str)
        ensures
            r@ == self.text(),
    {
        match self {
            RepoError::NotFound => "not found",
            RepoError::AlreadyExists => "repository already exists",
            RepoError::Malformed => "malformed record",
        }
    }
}

} // verus!
