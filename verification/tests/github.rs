//! Owner validation, timestamp parsing, classification, and the
//! pull-request creation helpers.

use overall_core::github::{classify_branch_status, default_pr_body, default_pr_title,
    parse_github_timestamp, pr_creation_outcome, validate_owner, validate_pr_repo_id};
use overall_core::models::{Branch, BranchStatus, PRState, PullRequest};

fn branch(name: &str, ahead: u32, behind: u32) -> Branch {
    Branch {
        id: 0,
        repo_id: "owner/repo".to_string(),
        name: name.to_string(),
        sha: "abc".to_string(),
        ahead_by: ahead,
        behind_by: behind,
        status: BranchStatus::ReadyForPR,
        last_commit_date: 0,
    }
}

fn pr(number: u32, state: PRState, branch_id: Option<i64>) -> PullRequest {
    PullRequest {
        id: 0,
        repo_id: "owner/repo".to_string(),
        branch_id,
        number,
        state,
        title: "a change".to_string(),
        created_at: 0,
        updated_at: 0,
    }
}

#[test]
fn test_validate_owner_valid() {
    assert!(validate_owner("softwarewrighter").is_ok());
    assert!(validate_owner("rust-lang").is_ok());
    assert!(validate_owner("test123").is_ok());
}

#[test]
fn test_validate_owner_invalid() {
    assert!(validate_owner("").is_err());
    assert!(validate_owner("invalid@name").is_err());
    assert!(validate_owner("invalid.name").is_err());
    assert!(validate_owner(&"a".repeat(40)).is_err());
}

#[test]
fn test_parse_github_timestamp() {
    let result = parse_github_timestamp("2023-11-15T12:00:00Z");
    assert!(result.is_ok());
    assert_eq!(result.unwrap(), 1_700_049_600_000);
    let offset = parse_github_timestamp("1996-12-19T16:39:57-08:00");
    assert_eq!(offset.unwrap(), 851_042_397_000);
    assert!(parse_github_timestamp("not a date").is_err());
}

#[test]
fn test_classify_default_branch() {
    let b = branch("main", 0, 0);
    let prs = vec![pr(1, PRState::Open, None)];
    assert_eq!(classify_branch_status(&b, &prs, "main"), BranchStatus::ReadyForPR);
}

#[test]
fn test_classify_open_pr_in_review() {
    let b = branch("feat-x", 3, 0);
    let prs = vec![pr(1, PRState::Open, None)];
    assert_eq!(classify_branch_status(&b, &prs, "main"), BranchStatus::InReview);
}

#[test]
fn test_classify_open_pr_behind_needs_update() {
    let b = branch("feat-x", 3, 2);
    let prs = vec![pr(1, PRState::Open, None)];
    assert_eq!(classify_branch_status(&b, &prs, "main"), BranchStatus::NeedsUpdate);
}

#[test]
fn test_classify_merged_pr_ready_for_pr() {
    let b = branch("feat-x", 3, 0);
    let prs = vec![pr(1, PRState::Merged, None)];
    assert_eq!(classify_branch_status(&b, &prs, "main"), BranchStatus::ReadyForPR);
}

#[test]
fn test_classify_no_pr_ready_for_pr() {
    let b = branch("feat-x", 3, 0);
    let prs: Vec<PullRequest> = Vec::new();
    assert_eq!(classify_branch_status(&b, &prs, "main"), BranchStatus::ReadyForPR);
}

#[test]
fn test_classify_linked_prs_are_not_associated() {
    // Only a pull request whose branch link is unset is associated.
    let b = branch("feat-x", 3, 2);
    let prs = vec![pr(1, PRState::Open, Some(7))];
    assert_eq!(classify_branch_status(&b, &prs, "main"), BranchStatus::ReadyForPR);
}

#[test]
fn test_classify_is_deterministic() {
    let b = branch("feat-x", 1, 1);
    let prs = vec![pr(2, PRState::Open, None), pr(1, PRState::Merged, None)];
    let first = classify_branch_status(&b, &prs, "main");
    let second = classify_branch_status(&b, &prs, "main");
    assert_eq!(first, second);
    assert_eq!(first, BranchStatus::NeedsUpdate);
}

#[test]
fn test_default_pr_title_replaces_separators() {
    assert_eq!(default_pr_title("feature-auth_check").as_str(), "feature auth check");
    assert_eq!(default_pr_title("plain").as_str(), "plain");
    assert_eq!(default_pr_body().as_str(), "Created via Overall");
}

#[test]
fn test_validate_pr_repo_id() {
    assert!(validate_pr_repo_id("owner/repo").is_ok());
    assert!(validate_pr_repo_id("invalid-format").is_err());
}

#[test]
fn test_pr_creation_outcome_success_trims_output() {
    let r = pr_creation_outcome(true, "  https://github.com/o/r/pull/5\n", "");
    assert_eq!(r.unwrap().as_str(), "https://github.com/o/r/pull/5");
}

#[test]
fn test_pr_creation_outcome_existing_pr_is_success() {
    let stderr = "a pull request for branch x already exists:\nhttps://github.com/o/r/pull/7\n";
    let r = pr_creation_outcome(false, "", stderr);
    assert_eq!(r.unwrap().as_str(), "https://github.com/o/r/pull/7");
}

#[test]
fn test_pr_creation_outcome_failure() {
    let r = pr_creation_outcome(false, "", "network unreachable");
    assert!(r.is_err());
}
