//! Entities of the engine's data model.
//!
//! All timestamps are milliseconds since the Unix epoch; the gateway layer
//! parses and formats the textual forms. Synthetic numeric identities are
//! assigned by the store.

use crate::strutil::str_eq;
use vstd::prelude::*;
use vstd::string::StringExecFns;

verus! {

broadcast use vstd::string::group_string_axioms;

/// A tracked repository; identity is `owner/name`, held in `id`.
#[derive(Debug, PartialEq)]
pub struct Repository {
    pub id: String,
    pub owner: String,
    pub name: String,
    pub language: Option<String>,
    pub description: Option<String>,
    pub pushed_at: i64,
    pub created_at: i64,
    pub updated_at: i64,
    pub is_fork: bool,
    /// Ranking weight reserved for future use; defaults to 0.
    pub priority: i64,
}

/// A branch of a repository, unique on `(repo_id, name)`.
#[derive(Debug, PartialEq)]
pub struct Branch {
    pub id: i64,
    pub repo_id: String,
    pub name: String,
    pub sha: String,
    pub ahead_by: u32,
    pub behind_by: u32,
    pub status: BranchStatus,
    pub last_commit_date: i64,
}

/// Review-state label of a branch; `ReadyToMerge` and `HasConflicts` are
/// reserved for forward compatibility and not produced by the classifier.
#[derive(Debug, Clone, Copy, PartialEq, Eq, Structural)]
pub enum BranchStatus {
    ReadyForPR,
    InReview,
    ReadyToMerge,
    NeedsUpdate,
    HasConflicts,
}

/// A pull request, logically keyed by `(repo_id, number)`.
#[derive(Debug, PartialEq)]
pub struct PullRequest {
    pub id: i64,
    pub repo_id: String,
    pub branch_id: Option<i64>,
    pub number: u32,
    pub state: PRState,
    pub title: String,
    pub created_at: i64,
    pub updated_at: i64,
}

/// Lifecycle state of a pull request.
#[derive(Debug, Clone, Copy, PartialEq, Eq, Structural)]
pub enum PRState {
    Open,
    Closed,
    Merged,
}

/// A named display grouping of repositories.
#[derive(Debug, PartialEq)]
pub struct Group {
    pub id: i64,
    pub name: String,
    pub display_order: i32,
    pub created_at: i64,
}

/// A commit owned by a branch, unique on `(branch_id, sha)`.
#[derive(Debug, PartialEq)]
pub struct Commit {
    pub id: i64,
    pub branch_id: i64,
    pub sha: String,
    pub message: String,
    pub author_name: String,
    pub author_email: String,
    pub authored_date: i64,
    pub committer_name: String,
    pub committer_email: String,
    pub committed_date: i64,
}

/// A recorded analysis result for a repository.
#[derive(Debug, PartialEq)]
pub struct AIAnalysis {
    pub id: i64,
    pub repo_id: String,
    pub priority: u8,
    pub focus_branch: Option<String>,
    pub actions: Vec<String>,
    pub created_at: i64,
}

/// A filesystem directory configured to be scanned for local checkouts.
#[derive(Debug, PartialEq)]
pub struct LocalRepoRoot {
    pub id: i64,
    pub path: String,
    pub enabled: bool,
    pub created_at: i64,
}

/// The most recent local-scan result for one repository identity.
#[derive(Debug, PartialEq)]
pub struct LocalRepoStatus {
    pub id: i64,
    pub repo_id: String,
    pub local_path: String,
    pub current_branch: Option<String>,
    pub uncommitted_files: u32,
    pub unpushed_commits: u32,
    pub behind_commits: u32,
    pub is_dirty: bool,
    pub last_checked: i64,
}

fn clone_opt_string(o: &Option<String>) -> (r: Option<String>)
    ensures
        r == *o,
{
    match o {
        Some(s) => Some(s.clone()),
        None => None,
    }
}

impl Clone for Repository {
    fn clone(&self) -> (res: Self)
        ensures
            res == *self,
    {
        Repository {
            id: self.id.clone(),
            owner: self.owner.clone(),
            name: self.name.clone(),
            language: clone_opt_string(&self.language),
            description: clone_opt_string(&self.description),
            pushed_at: self.pushed_at,
            created_at: self.created_at,
            updated_at: self.updated_at,
            is_fork: self.is_fork,
            priority: self.priority,
        }
    }
}

impl Clone for Branch {
    fn clone(&self) -> (res: Self)
        ensures
            res == *self,
    {
        Branch {
            id: self.id,
            repo_id: self.repo_id.clone(),
            name: self.name.clone(),
            sha: self.sha.clone(),
            ahead_by: self.ahead_by,
            behind_by: self.behind_by,
            status: self.status,
            last_commit_date: self.last_commit_date,
        }
    }
}

impl Clone for PullRequest {
    fn clone(&self) -> (res: Self)
        ensures
            res == *self,
    {
        PullRequest {
            id: self.id,
            repo_id: self.repo_id.clone(),
            branch_id: self.branch_id,
            number: self.number,
            state: self.state,
            title: self.title.clone(),
            created_at: self.created_at,
            updated_at: self.updated_at,
        }
    }
}

impl Clone for Group {
    fn clone(&self) -> (res: Self)
        ensures
            res == *self,
    {
        Group {
            id: self.id,
            name: self.name.clone(),
            display_order: self.display_order,
            created_at: self.created_at,
        }
    }
}

impl Clone for Commit {
    fn clone(&self) -> (res: Self)
        ensures
            res == *self,
    {
        Commit {
            id: self.id,
            branch_id: self.branch_id,
            sha: self.sha.clone(),
            message: self.message.clone(),
            author_name: self.author_name.clone(),
            author_email: self.author_email.clone(),
            authored_date: self.authored_date,
            committer_name: self.committer_name.clone(),
            committer_email: self.committer_email.clone(),
            committed_date: self.committed_date,
        }
    }
}

impl Clone for LocalRepoRoot {
    fn clone(&self) -> (res: Self)
        ensures
            res == *self,
    {
        LocalRepoRoot {
            id: self.id,
            path: self.path.clone(),
            enabled: self.enabled,
            created_at: self.created_at,
        }
    }
}

impl Clone for LocalRepoStatus {
    fn clone(&self) -> (res: Self)
        ensures
            res == *self,
    {
        LocalRepoStatus {
            id: self.id,
            repo_id: self.repo_id.clone(),
            local_path: self.local_path.clone(),
            current_branch: clone_opt_string(&self.current_branch),
            uncommitted_files: self.uncommitted_files,
            unpushed_commits: self.unpushed_commits,
            behind_commits: self.behind_commits,
            is_dirty: self.is_dirty,
            last_checked: self.last_checked,
        }
    }
}

impl BranchStatus {
    /// The persisted string name of the status.
    pub fn name(&self) -> (r: String)
        ensures
            r@ == self.name_spec(),
    {
        match self {
            BranchStatus::ReadyForPR => String::from_str("ReadyForPR"),
            BranchStatus::InReview => String::from_str("InReview"),
            BranchStatus::ReadyToMerge => String::from_str("ReadyToMerge"),
            BranchStatus::NeedsUpdate => String::from_str("NeedsUpdate"),
            BranchStatus::HasConflicts => String::from_str("HasConflicts"),
        }
    }

    /// The name each status is persisted under.
    pub open spec fn name_spec(self) -> Seq<char> {
        match self {
            BranchStatus::ReadyForPR => "ReadyForPR"@,
            BranchStatus::InReview => "InReview"@,
            BranchStatus::ReadyToMerge => "ReadyToMerge"@,
            BranchStatus::NeedsUpdate => "NeedsUpdate"@,
            BranchStatus::HasConflicts => "HasConflicts"@,
        }
    }

    /// The inverse of `name`: the status persisted under `s`, if any.
    pub fn from_name(s: &str) -> (r: Option<BranchStatus>)
        ensures
            r == Self::from_name_spec(s@),
    {
        if str_eq(s, "ReadyForPR") {
            Some(BranchStatus::ReadyForPR)
        } else if str_eq(s, "InReview") {
            Some(BranchStatus::InReview)
        } else if str_eq(s, "ReadyToMerge") {
            Some(BranchStatus::ReadyToMerge)
        } else if str_eq(s, "NeedsUpdate") {
            Some(BranchStatus::NeedsUpdate)
        } else if str_eq(s, "HasConflicts") {
            Some(BranchStatus::HasConflicts)
        } else {
            None
        }
    }

    pub open spec fn from_name_spec(s: Seq<char>) -> Option<BranchStatus> {
        if s == "ReadyForPR"@ {
            Some(BranchStatus::ReadyForPR)
        } else if s == "InReview"@ {
            Some(BranchStatus::InReview)
        } else if s == "ReadyToMerge"@ {
            Some(BranchStatus::ReadyToMerge)
        } else if s == "NeedsUpdate"@ {
            Some(BranchStatus::NeedsUpdate)
        } else if s == "HasConflicts"@ {
            Some(BranchStatus::HasConflicts)
        } else {
            None
        }
    }
}

/// The two mappings between a status and its persisted name invert each
/// other, so a status written by this engine is always read back unchanged.
pub proof fn lemma_branch_status_name_round_trip(st: BranchStatus)
    ensures
        BranchStatus::from_name_spec(st.name_spec()) == Some(st),
{
    reveal_strlit("ReadyForPR");
    reveal_strlit("InReview");
    reveal_strlit("ReadyToMerge");
    reveal_strlit("NeedsUpdate");
    reveal_strlit("HasConflicts");
    assert("ReadyForPR"@.len() == 10);
    assert("InReview"@.len() == 8);
    assert("ReadyToMerge"@.len() == 12);
    assert("NeedsUpdate"@.len() == 11);
    assert("HasConflicts"@.len() == 12);
    assert("ReadyToMerge"@[0] == 'R');
    assert("HasConflicts"@[0] == 'H');
    match st {
        BranchStatus::ReadyForPR => {
            assert(BranchStatus::from_name_spec("ReadyForPR"@) == Some(st));
        },
        BranchStatus::InReview => {
            assert("InReview"@ != "ReadyForPR"@);
            assert(BranchStatus::from_name_spec("InReview"@) == Some(st));
        },
        BranchStatus::ReadyToMerge => {
            assert("ReadyToMerge"@ != "ReadyForPR"@);
            assert("ReadyToMerge"@ != "InReview"@);
            assert(BranchStatus::from_name_spec("ReadyToMerge"@) == Some(st));
        },
        BranchStatus::NeedsUpdate => {
            assert("NeedsUpdate"@ != "ReadyForPR"@);
            assert("NeedsUpdate"@ != "InReview"@);
            assert("NeedsUpdate"@ != "ReadyToMerge"@);
            assert(BranchStatus::from_name_spec("NeedsUpdate"@) == Some(st));
        },
        BranchStatus::HasConflicts => {
            assert("HasConflicts"@ != "ReadyForPR"@);
            assert("HasConflicts"@ != "InReview"@);
            assert("HasConflicts"@ != "ReadyToMerge"@);
            assert("HasConflicts"@ != "NeedsUpdate"@);
            assert(BranchStatus::from_name_spec("HasConflicts"@) == Some(st));
        },
    }
}

impl PRState {
    /// The persisted string name of the state.
    pub fn name(&self) -> (r: String)
        ensures
            r@ == self.name_spec(),
    {
        match self {
            PRState::Open => String::from_str("Open"),
            PRState::Closed => String::from_str("Closed"),
            PRState::Merged => String::from_str("Merged"),
        }
    }

    /// The name each state is persisted under.
    pub open spec fn name_spec(self) -> Seq<char> {
        match self {
            PRState::Open => "Open"@,
            PRState::Closed => "Closed"@,
            PRState::Merged => "Merged"@,
        }
    }

    /// The inverse of `name`: the state persisted under `s`, if any.
    pub fn from_name(s: &str) -> (r: Option<PRState>)
        ensures
            r == Self::from_name_spec(s@),
    {
        if str_eq(s, "Open") {
            Some(PRState::Open)
        } else if str_eq(s, "Closed") {
            Some(PRState::Closed)
        } else if str_eq(s, "Merged") {
            Some(PRState::Merged)
        } else {
            None
        }
    }

    pub open spec fn from_name_spec(s: Seq<char>) -> Option<PRState> {
        if s == "Open"@ {
            Some(PRState::Open)
        } else if s == "Closed"@ {
            Some(PRState::Closed)
        } else if s == "Merged"@ {
            Some(PRState::Merged)
        } else {
            None
        }
    }
}

/// The two mappings between a pull-request state and its persisted name
/// invert each other.
pub proof fn lemma_pr_state_name_round_trip(st: PRState)
    ensures
        PRState::from_name_spec(st.name_spec()) == Some(st),
{
    reveal_strlit("Open");
    reveal_strlit("Closed");
    reveal_strlit("Merged");
    assert("Open"@.len() == 4);
    assert("Closed"@.len() == 6);
    assert("Merged"@.len() == 6);
    assert("Closed"@[0] == 'C');
    assert("Merged"@[0] == 'M');
    match st {
        PRState::Open => {
            assert(PRState::from_name_spec("Open"@) == Some(st));
        },
        PRState::Closed => {
            assert("Closed"@ != "Open"@);
            assert(PRState::from_name_spec("Closed"@) == Some(st));
        },
        PRState::Merged => {
            assert("Merged"@ != "Open"@);
            assert("Merged"@ != "Closed"@);
            assert(PRState::from_name_spec("Merged"@) == Some(st));
        },
    }
}

} // verus!
