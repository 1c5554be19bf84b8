//! Error taxonomy of the engine.

use vstd::prelude::*;
use vstd::string::StringExecFns;

verus! {

/// Errors surfaced by the engine.
///
/// Gateway failures are reported as `GitHubCLI` or `GitCommand` with a
/// human-readable payload; `InvalidOwner` rejects malformed owner or
/// repository names before any gateway call; `DuplicatePath` is the
/// distinguished unique-path violation for local repository roots, so
/// callers can answer "already configured"; `Storage` covers the remaining
/// store failures such as a reference to a missing row.
#[derive(Debug)]
pub enum Error {
    GitHubCLI(String),
    GitCommand(String),
    InvalidOwner(String),
    DuplicatePath(String),
    Storage(String),
    Config(String),
}

impl Error {
    /// A human-readable description, in place of `Display`.
    pub fn message(&self) -> (r: String) {
        match self {
            Error::GitHubCLI(s) => String::from_str("GitHub CLI error: ").concat(s.as_str()),
            Error::GitCommand(s) => String::from_str("Git command error: ").concat(s.as_str()),
            Error::InvalidOwner(s) => String::from_str("Invalid GitHub owner name: ").concat(
                s.as_str(),
            ),
            Error::DuplicatePath(s) => String::from_str("Path already configured: ").concat(
                s.as_str(),
            ),
            Error::Storage(s) => String::from_str("Storage error: ").concat(s.as_str()),
            Error::Config(s) => String::from_str("Configuration error: ").concat(s.as_str()),
        }
    }
}

} // verus!
