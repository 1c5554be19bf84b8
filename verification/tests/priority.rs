//! The traffic-light priority scorer.

use overall_core::models::{Branch, BranchStatus, LocalRepoStatus};
use overall_core::priority::{calculate_repo_status_priority, worst_priority};

fn branch(name: &str, ahead: u32, behind: u32) -> Branch {
    Branch {
        id: 0,
        repo_id: "owner/repo".to_string(),
        name: name.to_string(),
        sha: "abc".to_string(),
        ahead_by: ahead,
        behind_by: behind,
        status: BranchStatus::ReadyForPR,
        last_commit_date: 0,
    }
}

fn local(uncommitted: u32, unpushed: u32, behind: u32) -> LocalRepoStatus {
    LocalRepoStatus {
        id: 0,
        repo_id: "owner/repo".to_string(),
        local_path: "/roots/owner/repo".to_string(),
        current_branch: Some("main".to_string()),
        uncommitted_files: uncommitted,
        unpushed_commits: unpushed,
        behind_commits: behind,
        is_dirty: uncommitted > 0 || unpushed > 0,
        last_checked: 0,
    }
}

#[test]
fn test_priority_needs_sync_when_branch_diverged() {
    // A clean local checkout, but an open-PR branch behind the default
    // branch with work ahead: any divergence means needs-sync.
    let branches = vec![branch("feat-x", 2, 1)];
    let status = Some(local(0, 0, 0));
    assert_eq!(calculate_repo_status_priority(&branches, &status), 0);
}

#[test]
fn test_priority_needs_sync_when_unpushed() {
    let branches = vec![branch("main", 0, 0)];
    let status = Some(local(0, 3, 0));
    assert_eq!(calculate_repo_status_priority(&branches, &status), 0);
    let status = Some(local(0, 0, 2));
    assert_eq!(calculate_repo_status_priority(&branches, &status), 0);
}

#[test]
fn test_priority_local_changes() {
    // Uncommitted files only, no divergence anywhere.
    let branches = vec![branch("main", 0, 0)];
    let status = Some(local(4, 0, 0));
    assert_eq!(calculate_repo_status_priority(&branches, &status), 1);
}

#[test]
fn test_priority_stale_unmerged_branch() {
    // An unmerged branch is ahead of the default branch, and divergence
    // is checked first, so a repository with only a stale unmerged
    // branch and clean local state already counts as needing sync.
    let branches = vec![branch("feat-old", 3, 0)];
    let status = Some(local(0, 0, 0));
    assert_eq!(calculate_repo_status_priority(&branches, &status), 0);
}

#[test]
fn test_priority_complete() {
    let branches = vec![branch("main", 0, 0)];
    let status = Some(local(0, 0, 0));
    assert_eq!(calculate_repo_status_priority(&branches, &status), 3);
    assert_eq!(calculate_repo_status_priority(&branches, &None), 3);
}

#[test]
fn test_worst_priority() {
    assert_eq!(worst_priority(&vec![3, 1, 2]), 1);
    assert_eq!(worst_priority(&vec![0, 3]), 0);
    assert_eq!(worst_priority(&Vec::new()), 3);
}
