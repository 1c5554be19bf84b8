//! Builders for test data, and a store wrapper that populates one in a
//! fluent style.

use crate::clock::now_millis;
use crate::error::Error;
use crate::models::{Branch, BranchStatus, Commit, PRState, PullRequest, Repository};
use crate::store::Database;
use vstd::prelude::*;
use vstd::string::{StrSliceExecFns, StringExecFns};

verus! {

/// Builds a repository with chosen characteristics.
pub struct RepoBuilder {
    pub name: String,
    pub owner: String,
    pub language: Option<String>,
    pub description: Option<String>,
    pub pushed_at: i64,
    pub created_at: i64,
    pub updated_at: i64,
    pub is_fork: bool,
    pub priority: i64,
}

impl RepoBuilder {
    /// A repository named `name` under a placeholder owner, freshly
    /// pushed, not a fork, with no ranking weight.
    pub fn new(name: &str) -> (r: RepoBuilder)
        ensures
            r.name@ == name@,
            r.owner@ == "testowner"@,
            r.language is None,
            r.description is None,
            !r.is_fork,
            r.priority == 0,
    {
        let now = now_millis();
        RepoBuilder {
            name: String::from_str(name),
            owner: String::from_str("testowner"),
            language: None,
            description: None,
            pushed_at: now,
            created_at: now,
            updated_at: now,
            is_fork: false,
            priority: 0,
        }
    }

    pub fn owner(self, owner: &str) -> (r: RepoBuilder)
        ensures
            r == (RepoBuilder { owner: r.owner, ..self }),
            r.owner@ == owner@,
    {
        RepoBuilder { owner: String::from_str(owner), ..self }
    }

    pub fn with_language(self, language: &str) -> (r: RepoBuilder)
        ensures
            r == (RepoBuilder { language: r.language, ..self }),
            r.language is Some && r.language->0@ == language@,
    {
        RepoBuilder { language: Some(String::from_str(language)), ..self }
    }

    pub fn with_description(self, description: &str) -> (r: RepoBuilder)
        ensures
            r == (RepoBuilder { description: r.description, ..self }),
            r.description is Some && r.description->0@ == description@,
    {
        RepoBuilder { description: Some(String::from_str(description)), ..self }
    }

    pub fn pushed_at(self, time: i64) -> (r: RepoBuilder)
        ensures
            r == (RepoBuilder { pushed_at: time, ..self }),
    {
        RepoBuilder { pushed_at: time, ..self }
    }

    pub fn is_fork(self, is_fork: bool) -> (r: RepoBuilder)
        ensures
            r == (RepoBuilder { is_fork, ..self }),
    {
        RepoBuilder { is_fork, ..self }
    }

    pub fn priority(self, priority: i64) -> (r: RepoBuilder)
        ensures
            r == (RepoBuilder { priority, ..self }),
    {
        RepoBuilder { priority, ..self }
    }

    /// The built repository; its identity is `owner/name`.
    pub fn build(self) -> (r: Repository)
        ensures
            r.id@ == self.owner@ + "/"@ + self.name@,
            r.owner@ == self.owner@,
            r.name@ == self.name@,
            r.language == self.language,
            r.description == self.description,
            r.pushed_at == self.pushed_at,
            r.created_at == self.created_at,
            r.updated_at == self.updated_at,
            r.is_fork == self.is_fork,
            r.priority == self.priority,
    {
        let id = self.owner.clone().concat("/").concat(self.name.as_str());
        Repository {
            id,
            owner: self.owner,
            name: self.name,
            language: self.language,
            description: self.description,
            pushed_at: self.pushed_at,
            created_at: self.created_at,
            updated_at: self.updated_at,
            is_fork: self.is_fork,
            priority: self.priority,
        }
    }
}

/// Builds a branch in a chosen state.
pub struct BranchBuilder {
    pub name: String,
    pub sha: String,
    pub ahead_by: u32,
    pub behind_by: u32,
    pub status: BranchStatus,
    pub last_commit_date: i64,
}

impl BranchBuilder {
    /// A branch named `name` at a placeholder tip, not diverged, ready
    /// for a pull request, freshly committed.
    pub fn new(name: &str) -> (r: BranchBuilder)
        ensures
            r.name@ == name@,
            r.sha@ == "abc123def456"@,
            r.ahead_by == 0,
            r.behind_by == 0,
            r.status == BranchStatus::ReadyForPR,
    {
        BranchBuilder {
            name: String::from_str(name),
            sha: String::from_str("abc123def456"),
            ahead_by: 0,
            behind_by: 0,
            status: BranchStatus::ReadyForPR,
            last_commit_date: now_millis(),
        }
    }

    pub fn sha(self, sha: &str) -> (r: BranchBuilder)
        ensures
            r == (BranchBuilder { sha: r.sha, ..self }),
            r.sha@ == sha@,
    {
        BranchBuilder { sha: String::from_str(sha), ..self }
    }

    pub fn ahead(self, commits: u32) -> (r: BranchBuilder)
        ensures
            r == (BranchBuilder { ahead_by: commits, ..self }),
    {
        BranchBuilder { ahead_by: commits, ..self }
    }

    pub fn behind(self, commits: u32) -> (r: BranchBuilder)
        ensures
            r == (BranchBuilder { behind_by: commits, ..self }),
    {
        BranchBuilder { behind_by: commits, ..self }
    }

    pub fn with_status(self, status: BranchStatus) -> (r: BranchBuilder)
        ensures
            r == (BranchBuilder { status, ..self }),
    {
        BranchBuilder { status, ..self }
    }

    pub fn last_commit_date(self, date: i64) -> (r: BranchBuilder)
        ensures
            r == (BranchBuilder { last_commit_date: date, ..self }),
    {
        BranchBuilder { last_commit_date: date, ..self }
    }

    /// The built branch for the given repository; the store assigns the
    /// identity.
    pub fn build(self, repo_id: &str) -> (r: Branch)
        ensures
            r.id == 0,
            r.repo_id@ == repo_id@,
            r.name@ == self.name@,
            r.sha@ == self.sha@,
            r.ahead_by == self.ahead_by,
            r.behind_by == self.behind_by,
            r.status == self.status,
            r.last_commit_date == self.last_commit_date,
    {
        Branch {
            id: 0,
            repo_id: String::from_str(repo_id),
            name: self.name,
            sha: self.sha,
            ahead_by: self.ahead_by,
            behind_by: self.behind_by,
            status: self.status,
            last_commit_date: self.last_commit_date,
        }
    }
}

/// Builds a pull request in a chosen state.
pub struct PRBuilder {
    pub number: u32,
    pub state: PRState,
    pub title: String,
    pub branch_id: Option<i64>,
    pub created_at: i64,
    pub updated_at: i64,
}

impl PRBuilder {
    /// An open pull request with the given number and title, unlinked
    /// to a branch, freshly created.
    pub fn new(number: u32, title: &str) -> (r: PRBuilder)
        ensures
            r.number == number,
            r.state == PRState::Open,
            r.title@ == title@,
            r.branch_id is None,
    {
        let now = now_millis();
        PRBuilder {
            number,
            state: PRState::Open,
            title: String::from_str(title),
            branch_id: None,
            created_at: now,
            updated_at: now,
        }
    }

    pub fn state(self, state: PRState) -> (r: PRBuilder)
        ensures
            r == (PRBuilder { state, ..self }),
    {
        PRBuilder { state, ..self }
    }

    pub fn branch_id(self, id: i64) -> (r: PRBuilder)
        ensures
            r == (PRBuilder { branch_id: Some(id), ..self }),
    {
        PRBuilder { branch_id: Some(id), ..self }
    }

    pub fn created_at(self, time: i64) -> (r: PRBuilder)
        ensures
            r == (PRBuilder { created_at: time, ..self }),
    {
        PRBuilder { created_at: time, ..self }
    }

    pub fn updated_at(self, time: i64) -> (r: PRBuilder)
        ensures
            r == (PRBuilder { updated_at: time, ..self }),
    {
        PRBuilder { updated_at: time, ..self }
    }

    /// The built pull request for the given repository; the store
    /// assigns the identity.
    pub fn build(self, repo_id: &str) -> (r: PullRequest)
        ensures
            r.id == 0,
            r.repo_id@ == repo_id@,
            r.branch_id == self.branch_id,
            r.number == self.number,
            r.state == self.state,
            r.title@ == self.title@,
            r.created_at == self.created_at,
            r.updated_at == self.updated_at,
    {
        PullRequest {
            id: 0,
            repo_id: String::from_str(repo_id),
            branch_id: self.branch_id,
            number: self.number,
            state: self.state,
            title: self.title,
            created_at: self.created_at,
            updated_at: self.updated_at,
        }
    }
}

/// Builds a commit.
pub struct CommitBuilder {
    pub sha: String,
    pub message: String,
    pub author_name: String,
    pub author_email: String,
    pub authored_date: i64,
    pub committer_name: String,
    pub committer_email: String,
    pub committed_date: i64,
}

impl CommitBuilder {
    /// A commit with the given hash and message under placeholder
    /// author and committer, freshly dated.
    pub fn new(sha: &str, message: &str) -> (r: CommitBuilder)
        ensures
            r.sha@ == sha@,
            r.message@ == message@,
            r.author_name@ == "Test Author"@,
            r.author_email@ == "author@test.com"@,
            r.committer_name@ == "Test Committer"@,
            r.committer_email@ == "committer@test.com"@,
    {
        let now = now_millis();
        CommitBuilder {
            sha: String::from_str(sha),
            message: String::from_str(message),
            author_name: String::from_str("Test Author"),
            author_email: String::from_str("author@test.com"),
            authored_date: now,
            committer_name: String::from_str("Test Committer"),
            committer_email: String::from_str("committer@test.com"),
            committed_date: now,
        }
    }

    pub fn author(self, name: &str, email: &str) -> (r: CommitBuilder)
        ensures
            r == (CommitBuilder { author_name: r.author_name, author_email: r.author_email, ..self }),
            r.author_name@ == name@,
            r.author_email@ == email@,
    {
        CommitBuilder {
            author_name: String::from_str(name),
            author_email: String::from_str(email),
            ..self
        }
    }

    pub fn authored_date(self, date: i64) -> (r: CommitBuilder)
        ensures
            r == (CommitBuilder { authored_date: date, ..self }),
    {
        CommitBuilder { authored_date: date, ..self }
    }

    /// The built commit for the given branch; the store assigns the
    /// identity.
    pub fn build(self, branch_id: i64) -> (r: Commit)
        ensures
            r.id == 0,
            r.branch_id == branch_id,
            r.sha@ == self.sha@,
            r.message@ == self.message@,
            r.author_name@ == self.author_name@,
            r.author_email@ == self.author_email@,
            r.authored_date == self.authored_date,
            r.committer_name@ == self.committer_name@,
            r.committer_email@ == self.committer_email@,
            r.committed_date == self.committed_date,
    {
        Commit {
            id: 0,
            branch_id,
            sha: self.sha,
            message: self.message,
            author_name: self.author_name,
            author_email: self.author_email,
            authored_date: self.authored_date,
            committer_name: self.committer_name,
            committer_email: self.committer_email,
            committed_date: self.committed_date,
        }
    }
}

/// A fresh store populated through builders, in a fluent style.
pub struct TestDatabase {
    pub db: Database,
}

impl TestDatabase {
    /// A fresh, empty store.
    pub fn new() -> (r: Result<TestDatabase, Error>)
        ensures
            r is Ok,
            r->Ok_0.db.wf(),
    {
        Ok(TestDatabase { db: Database::new() })
    }

    /// Adds the repository the builder describes.
    pub fn with_repo(self, builder: RepoBuilder) -> (r: Result<TestDatabase, Error>)
        requires
            self.db.wf(),
        ensures
            r is Ok,
            r->Ok_0.db.wf(),
    {
        let mut db = self.db;
        let repo = builder.build();
        let _saved = db.save_repository(&repo);
        Ok(TestDatabase { db })
    }

    /// Adds the branch the builder describes, under the repository.
    pub fn with_branch(self, repo_id: &str, builder: BranchBuilder) -> (r: Result<
        TestDatabase,
        Error,
    >)
        requires
            self.db.wf(),
            self.db.next_id < i64::MAX,
        ensures
            r is Ok,
            r->Ok_0.db.wf(),
    {
        let mut db = self.db;
        let branch = builder.build(repo_id);
        let _saved = db.save_branch(&branch);
        Ok(TestDatabase { db })
    }

    /// Adds the given pull request.
    pub fn with_pull_request(self, repo_id: &str, pr: PullRequest) -> (r: Result<
        TestDatabase,
        Error,
    >)
        requires
            self.db.wf(),
            self.db.next_id < i64::MAX,
        ensures
            r is Ok,
            r->Ok_0.db.wf(),
    {
        let mut db = self.db;
        let _saved = db.save_pull_request(&pr);
        Ok(TestDatabase { db })
    }

    /// Creates a group and adds the listed repositories to it; a listed
    /// repository that does not exist is a storage error, as adding it
    /// would be.
    pub fn with_group(self, name: &str, display_order: i32, repo_ids: Vec<String>) -> (r: Result<
        TestDatabase,
        Error,
    >)
        requires
            self.db.wf(),
            self.db.next_id < i64::MAX,
        ensures
            r is Ok ==> r->Ok_0.db.wf(),
            r is Ok ==> r->Ok_0.db.groups@.len() == self.db.groups@.len() + 1
                && r->Ok_0.db.groups@.last().name@ == name@
                && r->Ok_0.db.groups@.last().display_order == display_order,
    {
        let mut db = self.db;
        let group_id = match db.create_group(name, display_order) {
            Ok(id) => id,
            Err(e) => {
                return Err(e);
            },
        };
        let ghost created = db.groups@;
        let mut i: usize = 0;
        while i < repo_ids.len()
            invariant
                db.wf(),
                db.groups@ == created,
                created.len() == self.db.groups@.len() + 1,
                created.last().name@ == name@,
                created.last().display_order == display_order,
            decreases repo_ids@.len() - i,
        {
            match db.add_repo_to_group(repo_ids[i].as_str(), group_id) {
                Ok(_) => {},
                Err(e) => {
                    return Err(e);
                },
            }
            i += 1;
        }
        Ok(TestDatabase { db })
    }
}

} // verus!
