//! The test-data builders and the fluent store wrapper.

use overall_core::fixtures::{BranchBuilder, PRBuilder, RepoBuilder, TestDatabase};
use overall_core::error::Error;
use overall_core::models::{BranchStatus, PRState};

#[test]
fn test_repo_builder() {
    let repo = RepoBuilder::new("test-repo")
        .owner("octocat")
        .with_language("Rust")
        .with_description("A test repo")
        .is_fork(false)
        .priority(10)
        .build();

    assert_eq!(repo.id, "octocat/test-repo");
    assert_eq!(repo.owner, "octocat");
    assert_eq!(repo.name, "test-repo");
    assert_eq!(repo.language, Some("Rust".to_string()));
    assert_eq!(repo.description, Some("A test repo".to_string()));
    assert!(!repo.is_fork);
    assert_eq!(repo.priority, 10);
}

#[test]
fn test_branch_builder() {
    let branch = BranchBuilder::new("feature-auth")
        .ahead(5)
        .behind(2)
        .with_status(BranchStatus::InReview)
        .build("owner/repo");

    assert_eq!(branch.name, "feature-auth");
    assert_eq!(branch.repo_id, "owner/repo");
    assert_eq!(branch.ahead_by, 5);
    assert_eq!(branch.behind_by, 2);
    assert_eq!(branch.status, BranchStatus::InReview);
}

#[test]
fn test_pr_builder() {
    let pr = PRBuilder::new(123, "Add feature")
        .state(PRState::Open)
        .branch_id(42)
        .build("owner/repo");

    assert_eq!(pr.number, 123);
    assert_eq!(pr.title, "Add feature");
    assert_eq!(pr.state, PRState::Open);
    assert_eq!(pr.repo_id, "owner/repo");
    assert_eq!(pr.branch_id, Some(42));
}

#[test]
fn test_database_with_repo() -> Result<(), Error> {
    let test_db = TestDatabase::new()?.with_repo(RepoBuilder::new("test-repo"))?;

    let repos = test_db.db.get_all_repositories()?;
    assert_eq!(repos.len(), 1);
    assert_eq!(repos[0].name, "test-repo");

    Ok(())
}

#[test]
fn test_database_with_branch() -> Result<(), Error> {
    let test_db = TestDatabase::new()?
        .with_repo(RepoBuilder::new("test-repo"))?
        .with_branch("testowner/test-repo", BranchBuilder::new("main"))?;

    let branches = test_db.db.get_branches_for_repo("testowner/test-repo")?;
    assert_eq!(branches.len(), 1);
    assert_eq!(branches[0].name, "main");

    Ok(())
}

#[test]
fn test_database_with_group() -> Result<(), Error> {
    let test_db = TestDatabase::new()?
        .with_repo(RepoBuilder::new("repo1"))?
        .with_repo(RepoBuilder::new("repo2"))?
        .with_group(
            "Test Group",
            0,
            vec!["testowner/repo1".to_string(), "testowner/repo2".to_string()],
        )?;

    let groups = test_db.db.get_all_groups()?;
    assert_eq!(groups.len(), 1);
    assert_eq!(groups[0].name, "Test Group");

    let repos = test_db.db.get_repos_in_group(groups[0].id)?;
    assert_eq!(repos.len(), 2);

    Ok(())
}

#[test]
fn test_status_names_round_trip() {
    let statuses = [
        BranchStatus::ReadyForPR,
        BranchStatus::InReview,
        BranchStatus::ReadyToMerge,
        BranchStatus::NeedsUpdate,
        BranchStatus::HasConflicts,
    ];
    for st in statuses {
        assert_eq!(BranchStatus::from_name(st.name().as_str()), Some(st));
    }
    assert_eq!(BranchStatus::from_name("Nonsense"), None);

    for st in [PRState::Open, PRState::Closed, PRState::Merged] {
        assert_eq!(PRState::from_name(st.name().as_str()), Some(st));
    }
    assert_eq!(PRState::from_name(""), None);
}

#[test]
fn test_config_defaults() {
    let config = overall_core::config::Config::load().unwrap();
    assert_eq!(config.version, "1.0");
    assert_eq!(config.github.owners, vec!["softwarewrighter".to_string()]);
    assert_eq!(config.github.repo_limit, 50);
}

#[test]
fn test_error_messages() {
    let e = Error::InvalidOwner("bad name".to_string());
    assert_eq!(e.message(), "Invalid GitHub owner name: bad name");
    let e = Error::DuplicatePath("/roots".to_string());
    assert_eq!(e.message(), "Path already configured: /roots");
    let e = Error::GitHubCLI("boom".to_string());
    assert_eq!(e.message(), "GitHub CLI error: boom");
    let e = Error::GitCommand("boom".to_string());
    assert_eq!(e.message(), "Git command error: boom");
    let e = Error::Storage("boom".to_string());
    assert_eq!(e.message(), "Storage error: boom");
    let e = Error::Config("boom".to_string());
    assert_eq!(e.message(), "Configuration error: boom");
}
