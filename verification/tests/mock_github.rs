//! A fake gateway that serves canned data and records its calls, the
//! expectations it can verify, and the end-to-end sync scenarios run
//! against it.

use overall_core::error::Error;
use overall_core::export::build_snapshot;
use overall_core::github::GitHubClient;
use overall_core::models::{Branch, BranchStatus, Commit, PRState, PullRequest, Repository};
use overall_core::store::Database;
use overall_core::sync::sync_repository;
use std::collections::HashMap;

/// Record of a created pull request for verification.
#[derive(Debug, Clone)]
pub struct CreatedPR {
    pub repo_id: String,
    pub branch_name: String,
    pub title: String,
    pub body: String,
}

/// A fake gateway: canned responses in, recorded calls out.
#[derive(Default)]
pub struct MockGitHubClient {
    pub repos: HashMap<String, Vec<Repository>>,
    pub branches: HashMap<String, Vec<Branch>>,
    pub pull_requests: HashMap<String, Vec<PullRequest>>,
    pub commits: HashMap<(String, String), Vec<Commit>>,
    pub created_prs: Vec<CreatedPR>,
    pub expect_create_pr: Vec<String>,
    pub expect_no_create_pr: Vec<String>,
}

impl MockGitHubClient {
    pub fn new() -> Self {
        Self::default()
    }

    pub fn with_repo(mut self, owner: &str, repo: Repository) -> Self {
        self.repos.entry(owner.to_string()).or_default().push(repo);
        self
    }

    pub fn with_branches(mut self, repo_id: &str, branches: Vec<Branch>) -> Self {
        self.branches.insert(repo_id.to_string(), branches);
        self
    }

    pub fn with_pull_requests(mut self, repo_id: &str, prs: Vec<PullRequest>) -> Self {
        self.pull_requests.insert(repo_id.to_string(), prs);
        self
    }

    pub fn with_commits(mut self, repo_id: &str, branch_name: &str, commits: Vec<Commit>) -> Self {
        self.commits
            .insert((repo_id.to_string(), branch_name.to_string()), commits);
        self
    }

    pub fn expect_create_pr_for(mut self, repo_id: &str) -> Self {
        self.expect_create_pr.push(repo_id.to_string());
        self
    }

    pub fn expect_no_create_pr_for(mut self, repo_id: &str) -> Self {
        self.expect_no_create_pr.push(repo_id.to_string());
        self
    }

    /// Verifies that every expected call happened and no forbidden one
    /// did.
    pub fn verify(&self) {
        for expected_repo in &self.expect_create_pr {
            assert!(
                self.created_prs.iter().any(|pr| pr.repo_id == *expected_repo),
                "Expected create_pr to be called for '{}', but it wasn't. Created PRs: {:?}",
                expected_repo,
                self.created_prs
            );
        }

        for unexpected_repo in &self.expect_no_create_pr {
            assert!(
                !self.created_prs.iter().any(|pr| pr.repo_id == *unexpected_repo),
                "Expected create_pr NOT to be called for '{}', but it was. Created PRs: {:?}",
                unexpected_repo,
                self.created_prs
            );
        }
    }

    pub fn get_created_prs(&self) -> Vec<CreatedPR> {
        self.created_prs.clone()
    }
}

impl GitHubClient for MockGitHubClient {
    fn list_repos(&mut self, owner: &str, _limit: usize) -> Result<Vec<Repository>, Error> {
        Ok(self.repos.get(owner).cloned().unwrap_or_default())
    }

    fn fetch_branches(&mut self, repo_id: &str) -> Result<Vec<Branch>, Error> {
        Ok(self.branches.get(repo_id).cloned().unwrap_or_default())
    }

    fn fetch_pull_requests(&mut self, repo_id: &str) -> Result<Vec<PullRequest>, Error> {
        Ok(self.pull_requests.get(repo_id).cloned().unwrap_or_default())
    }

    fn fetch_commits(
        &mut self,
        repo_id: &str,
        branch_name: &str,
        _branch_id: i64,
    ) -> Result<Vec<Commit>, Error> {
        Ok(self
            .commits
            .get(&(repo_id.to_string(), branch_name.to_string()))
            .cloned()
            .unwrap_or_default())
    }

    fn classify_branch_status(
        &self,
        branch: &Branch,
        prs: &Vec<PullRequest>,
        default_branch: &str,
    ) -> BranchStatus {
        // Use the real classification logic for consistency
        overall_core::github::classify_branch_status(branch, prs, default_branch)
    }

    fn create_pull_request(
        &mut self,
        repo_id: &str,
        branch_name: &str,
        title: Option<&str>,
        body: Option<&str>,
    ) -> Result<String, Error> {
        let default_title = branch_name.replace(['-', '_'], " ");
        let default_body = "Created via Overall";

        self.created_prs.push(CreatedPR {
            repo_id: repo_id.to_string(),
            branch_name: branch_name.to_string(),
            title: title.unwrap_or(&default_title).to_string(),
            body: body.unwrap_or(default_body).to_string(),
        });

        Ok(format!("https://github.com/{}/pull/123", repo_id))
    }
}

const NOW_MS: i64 = 1_700_049_600_000;

fn mk_repo(id: &str) -> Repository {
    let (owner, name) = id.split_once('/').unwrap();
    Repository {
        id: id.to_string(),
        owner: owner.to_string(),
        name: name.to_string(),
        language: None,
        description: None,
        pushed_at: NOW_MS,
        created_at: NOW_MS,
        updated_at: NOW_MS,
        is_fork: false,
        priority: 0,
    }
}

fn mk_branch(repo_id: &str, name: &str, ahead: u32, behind: u32) -> Branch {
    Branch {
        id: 0,
        repo_id: repo_id.to_string(),
        name: name.to_string(),
        sha: format!("sha-{}", name),
        ahead_by: ahead,
        behind_by: behind,
        status: BranchStatus::ReadyForPR,
        last_commit_date: NOW_MS,
    }
}

fn mk_pr(repo_id: &str, number: u32, state: PRState) -> PullRequest {
    PullRequest {
        id: 0,
        repo_id: repo_id.to_string(),
        branch_id: None,
        number,
        state,
        title: format!("pr {}", number),
        created_at: NOW_MS,
        updated_at: NOW_MS,
    }
}

fn mk_commit(sha: &str) -> Commit {
    Commit {
        id: 0,
        branch_id: 0,
        sha: sha.to_string(),
        message: format!("commit {}", sha),
        author_name: "Test Author".to_string(),
        author_email: "author@test.com".to_string(),
        authored_date: NOW_MS,
        committer_name: "Test Committer".to_string(),
        committer_email: "committer@test.com".to_string(),
        committed_date: NOW_MS,
    }
}

#[test]
fn test_mock_client_returns_canned_repos() {
    let repo = mk_repo("owner/repo");

    let mut mock = MockGitHubClient::new().with_repo("owner", repo.clone());

    let result = mock.list_repos("owner", 10).unwrap();
    assert_eq!(result.len(), 1);
    assert_eq!(result[0].id, "owner/repo");
}

#[test]
fn test_mock_client_tracks_created_prs() {
    let mut mock = MockGitHubClient::new();

    let _url = mock
        .create_pull_request("owner/repo", "feature-branch", None, None)
        .unwrap();

    let created = mock.get_created_prs();
    assert_eq!(created.len(), 1);
    assert_eq!(created[0].repo_id, "owner/repo");
    assert_eq!(created[0].branch_name, "feature-branch");
}

#[test]
fn test_mock_client_verify_expectations_pass() {
    let mut mock = MockGitHubClient::new()
        .expect_create_pr_for("owner/repo1")
        .expect_no_create_pr_for("owner/repo2");

    // Create PR for repo1
    let _url = mock
        .create_pull_request("owner/repo1", "feature", None, None)
        .unwrap();

    // Verify should pass
    mock.verify();
}

#[test]
#[should_panic(expected = "Expected create_pr to be called")]
fn test_mock_client_verify_fails_on_missing_call() {
    let mock = MockGitHubClient::new().expect_create_pr_for("owner/repo");

    // Don't create the PR - verification should fail
    mock.verify();
}

#[test]
#[should_panic(expected = "Expected create_pr NOT to be called")]
fn test_mock_client_verify_fails_on_unexpected_call() {
    let mut mock = MockGitHubClient::new().expect_no_create_pr_for("owner/repo");

    // Create the PR anyway - verification should fail
    let _url = mock
        .create_pull_request("owner/repo", "feature", None, None)
        .unwrap();

    mock.verify();
}

#[test]
fn test_end_to_end_sync_scenario() {
    // Owner acme with one repository, default branch main, one feature
    // branch ahead 3 and behind 0, and an open pull request for it.
    let mut db = Database::new();
    let repo = mk_repo("acme/widgets");
    let mut mock = MockGitHubClient::new()
        .with_branches("acme/widgets", vec![mk_branch("acme/widgets", "feat-x", 3, 0)])
        .with_pull_requests("acme/widgets", vec![mk_pr("acme/widgets", 1, PRState::Open)])
        .with_commits("acme/widgets", "feat-x", vec![mk_commit("c1"), mk_commit("c2")]);

    let outcome = sync_repository(&mut db, &mut mock, &repo, "main").unwrap();
    assert_eq!(outcome.branches_synced, Some(1));
    assert_eq!(outcome.pull_requests_synced, Some(1));
    assert_eq!(outcome.commit_failures, 0);

    // Exactly one branch record, classified in review.
    let branches = db.get_branches_for_repo("acme/widgets").unwrap();
    assert_eq!(branches.len(), 1);
    assert_eq!(branches[0].status, BranchStatus::InReview);

    // The snapshot lists the repository under ungrouped with the
    // derived counters, until a group assignment is made.
    let snapshot = build_snapshot(&db);
    assert_eq!(snapshot.groups.len(), 0);
    assert_eq!(snapshot.ungrouped.len(), 1);
    let entry = &snapshot.ungrouped[0];
    assert_eq!(entry.id, "acme/widgets");
    assert_eq!(entry.language, "Unknown");
    assert_eq!(entry.unmerged_count, 1);
    assert_eq!(entry.pr_count, 1);
    assert_eq!(entry.branches.len(), 1);
    assert_eq!(entry.branches[0].status, BranchStatus::InReview);
    assert_eq!(entry.branches[0].commits.len(), 2);

    let g = db.create_group("tools", 0).unwrap();
    db.add_repo_to_group("acme/widgets", g).unwrap();
    let snapshot = build_snapshot(&db);
    assert_eq!(snapshot.ungrouped.len(), 0);
    assert_eq!(snapshot.groups.len(), 1);
    assert_eq!(snapshot.groups[0].repos.len(), 1);
    assert_eq!(snapshot.groups[0].repos[0].id, "acme/widgets");
}

/// The branch, pull-request and commit contents of one repository,
/// without the synthetic identities.
fn repo_contents(
    db: &Database,
    repo_id: &str,
) -> (Vec<(String, String, u32, u32, BranchStatus, Vec<String>)>, Vec<(u32, String, PRState)>) {
    let branches = db
        .get_branches_for_repo(repo_id)
        .unwrap()
        .iter()
        .map(|b| {
            let commits = db
                .get_commits_for_branch(b.id)
                .unwrap()
                .iter()
                .map(|c| c.sha.clone())
                .collect();
            (b.name.clone(), b.sha.clone(), b.ahead_by, b.behind_by, b.status, commits)
        })
        .collect();
    let prs = db
        .get_pull_requests_for_repo(repo_id)
        .unwrap()
        .iter()
        .map(|p| (p.number, p.title.clone(), p.state))
        .collect();
    (branches, prs)
}

#[test]
fn test_sync_twice_is_idempotent() {
    let mut db = Database::new();
    let repo = mk_repo("acme/widgets");
    let mut mock = MockGitHubClient::new()
        .with_branches(
            "acme/widgets",
            vec![
                mk_branch("acme/widgets", "main", 0, 0),
                mk_branch("acme/widgets", "feat-x", 3, 1),
            ],
        )
        .with_pull_requests(
            "acme/widgets",
            vec![mk_pr("acme/widgets", 2, PRState::Open), mk_pr("acme/widgets", 1, PRState::Merged)],
        )
        .with_commits("acme/widgets", "feat-x", vec![mk_commit("c1"), mk_commit("c2")]);

    sync_repository(&mut db, &mut mock, &repo, "main").unwrap();
    let first = repo_contents(&db, "acme/widgets");

    // Replaying against the unchanged upstream fixture reproduces the
    // same rows.
    sync_repository(&mut db, &mut mock, &repo, "main").unwrap();
    let second = repo_contents(&db, "acme/widgets");

    assert_eq!(first, second);
    assert_eq!(db.get_all_repositories().unwrap().len(), 1);
}
