//! Assembly of model rows from fetched gateway data.

use overall_core::github::{assemble_branches, assemble_commits, assemble_pull_requests,
    assemble_repositories, BranchFetch, CommitFetch, PullRequestFetch, RepoFetch};
use overall_core::models::{BranchStatus, PRState};

fn repo_fetch(name: &str) -> RepoFetch {
    RepoFetch {
        name: name.to_string(),
        owner_login: "acme".to_string(),
        pushed_at: "2024-01-02T00:00:00Z".to_string(),
        created_at: "2024-01-01T00:00:00Z".to_string(),
        updated_at: "2024-01-03T00:00:00Z".to_string(),
        language: Some("Rust".to_string()),
        description: None,
        is_fork: false,
    }
}

#[test]
fn test_assemble_repositories() {
    let repos = assemble_repositories(vec![repo_fetch("widgets")]).unwrap();
    assert_eq!(repos.len(), 1);
    assert_eq!(repos[0].id, "acme/widgets");
    assert_eq!(repos[0].owner, "acme");
    assert_eq!(repos[0].pushed_at, 1_704_153_600_000);
    assert_eq!(repos[0].created_at, 1_704_067_200_000);
    assert_eq!(repos[0].updated_at, 1_704_240_000_000);
    assert_eq!(repos[0].priority, 0);
}

#[test]
fn test_assemble_repositories_rejects_bad_timestamp() {
    let mut bad = repo_fetch("widgets");
    bad.created_at = "yesterday".to_string();
    assert!(assemble_repositories(vec![bad]).is_err());
}

#[test]
fn test_assemble_branches_divergence_rules() {
    let fetches = vec![
        BranchFetch {
            name: "main".to_string(),
            sha: "aaa".to_string(),
            commit_date: "2024-01-01T00:00:00Z".to_string(),
            // The default branch never diverges from itself, whatever a
            // comparison said.
            compare: Some((9, 9)),
        },
        BranchFetch {
            name: "feat".to_string(),
            sha: "bbb".to_string(),
            commit_date: "2024-01-02T00:00:00Z".to_string(),
            compare: Some((3, 1)),
        },
        BranchFetch {
            name: "odd".to_string(),
            sha: "ccc".to_string(),
            commit_date: "2024-01-02T00:00:00Z".to_string(),
            // A failed comparison counts as no divergence.
            compare: None,
        },
    ];
    let branches = assemble_branches("acme/widgets", "main", fetches).unwrap();
    assert_eq!(branches.len(), 3);
    assert_eq!((branches[0].ahead_by, branches[0].behind_by), (0, 0));
    assert_eq!((branches[1].ahead_by, branches[1].behind_by), (3, 1));
    assert_eq!((branches[2].ahead_by, branches[2].behind_by), (0, 0));
    assert!(branches.iter().all(|b| b.status == BranchStatus::ReadyForPR));
    assert!(branches.iter().all(|b| b.repo_id == "acme/widgets"));
}

#[test]
fn test_assemble_commits_keeps_first_fifty() {
    let mut fetches = Vec::new();
    for i in 0..60 {
        fetches.push(CommitFetch {
            sha: format!("sha{}", i),
            message: format!("m{}", i),
            author_name: "a".to_string(),
            author_email: "a@x".to_string(),
            authored_date: "2024-01-01T00:00:00Z".to_string(),
            committer_name: "c".to_string(),
            committer_email: "c@x".to_string(),
            committed_date: "2024-01-01T00:00:00Z".to_string(),
        });
    }
    let commits = assemble_commits(7, fetches).unwrap();
    assert_eq!(commits.len(), 50);
    assert_eq!(commits[0].sha, "sha0");
    assert_eq!(commits[49].sha, "sha49");
    assert!(commits.iter().all(|c| c.branch_id == 7));
}

#[test]
fn test_assemble_pull_requests_state_words() {
    let mk = |n: u32, state: &str| PullRequestFetch {
        number: n,
        state: state.to_string(),
        title: format!("pr {}", n),
        created_at: "2024-01-01T00:00:00Z".to_string(),
        updated_at: "2024-01-01T00:00:00Z".to_string(),
    };
    let prs = assemble_pull_requests(
        "acme/widgets",
        vec![mk(1, "OPEN"), mk(2, "CLOSED"), mk(3, "MERGED"), mk(4, "draft")],
    )
    .unwrap();
    assert_eq!(prs[0].state, PRState::Open);
    assert_eq!(prs[1].state, PRState::Closed);
    assert_eq!(prs[2].state, PRState::Merged);
    // An unrecognized state word counts as closed.
    assert_eq!(prs[3].state, PRState::Closed);
    assert!(prs.iter().all(|p| p.branch_id.is_none()));
}
