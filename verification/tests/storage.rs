//! The store: create, upsert, read, wholesale replacement, grouping,
//! local roots and statuses, and configuration.

use overall_core::error::Error;
use overall_core::fixtures::TestDatabase;
use overall_core::models::{Branch, BranchStatus, Commit, PRState, PullRequest, Repository};
use overall_core::store::Database;

const DAY_MS: i64 = 86_400_000;
const NOW_MS: i64 = 1_700_049_600_000;

fn repo(id: &str, pushed_at: i64) -> Repository {
    let (owner, name) = id.split_once('/').unwrap();
    Repository {
        id: id.to_string(),
        owner: owner.to_string(),
        name: name.to_string(),
        language: Some("Rust".to_string()),
        description: Some("Test repo".to_string()),
        pushed_at,
        created_at: pushed_at,
        updated_at: pushed_at,
        is_fork: false,
        priority: 0,
    }
}

fn branch(repo_id: &str, name: &str, ahead: u32, behind: u32) -> Branch {
    Branch {
        id: 0,
        repo_id: repo_id.to_string(),
        name: name.to_string(),
        sha: format!("sha-{}", name),
        ahead_by: ahead,
        behind_by: behind,
        status: BranchStatus::ReadyForPR,
        last_commit_date: NOW_MS,
    }
}

fn commit(sha: &str) -> Commit {
    Commit {
        id: 0,
        branch_id: 0,
        sha: sha.to_string(),
        message: format!("commit {}", sha),
        author_name: "Test Author".to_string(),
        author_email: "author@test.com".to_string(),
        authored_date: NOW_MS,
        committer_name: "Test Committer".to_string(),
        committer_email: "committer@test.com".to_string(),
        committed_date: NOW_MS,
    }
}

#[test]
fn test_create_database() {
    let db = TestDatabase::new();
    assert!(db.is_ok());
}

#[test]
fn test_save_and_load_repository() {
    let mut db = Database::new();

    db.save_repository(&repo("test/repo", NOW_MS)).unwrap();

    let repos = db.get_all_repositories().unwrap();
    assert_eq!(repos.len(), 1);
    assert_eq!(repos[0].id, "test/repo");
    assert_eq!(repos[0].owner, "test");
}

#[test]
fn test_save_repository_replaces_wholesale() {
    let mut db = Database::new();
    db.save_repository(&repo("test/repo", NOW_MS)).unwrap();
    let mut updated = repo("test/repo", NOW_MS + DAY_MS);
    updated.language = Some("Zig".to_string());
    db.save_repository(&updated).unwrap();

    let repos = db.get_all_repositories().unwrap();
    assert_eq!(repos.len(), 1);
    assert_eq!(repos[0].language, Some("Zig".to_string()));
    assert_eq!(repos[0].pushed_at, NOW_MS + DAY_MS);
}

#[test]
fn test_config_get_set() {
    let mut db = Database::new();

    // Test setting and getting a config value
    db.set_config("test_key", "test_value").unwrap();
    let value = db.get_config("test_key").unwrap();
    assert_eq!(value, Some("test_value".to_string()));

    // Test updating an existing config value
    db.set_config("test_key", "new_value").unwrap();
    let value = db.get_config("test_key").unwrap();
    assert_eq!(value, Some("new_value".to_string()));

    // Test getting a non-existent key
    let value = db.get_config("non_existent").unwrap();
    assert_eq!(value, None);
}

#[test]
fn test_get_repositories_updated_since() {
    let mut db = Database::new();

    let now = NOW_MS;
    let old_time = now - 5 * DAY_MS;
    let recent_time = now - DAY_MS / 24;

    db.save_repository(&repo("test/old-repo", old_time)).unwrap();
    db.save_repository(&repo("test/recent-repo", recent_time)).unwrap();

    // Repositories updated since 2 days ago
    let repos = db.get_repositories_updated_since(now - 2 * DAY_MS).unwrap();
    assert_eq!(repos.len(), 1);
    assert_eq!(repos[0].id, "test/recent-repo");

    // Repositories updated since 10 days ago
    let repos = db.get_repositories_updated_since(now - 10 * DAY_MS).unwrap();
    assert_eq!(repos.len(), 2);
}

#[test]
fn test_get_all_repositories_ranked() {
    let mut db = Database::new();
    let mut weighty = repo("test/weighty", NOW_MS - DAY_MS);
    weighty.priority = 5;
    db.save_repository(&weighty).unwrap();
    db.save_repository(&repo("test/fresh", NOW_MS)).unwrap();
    db.save_repository(&repo("test/stale", NOW_MS - 2 * DAY_MS)).unwrap();

    let repos = db.get_all_repositories().unwrap();
    let ids: Vec<&str> = repos.iter().map(|r| r.id.as_str()).collect();
    // Priority outranks recency; equal priorities order by most recent push.
    assert_eq!(ids, vec!["test/weighty", "test/fresh", "test/stale"]);
}

#[test]
fn test_replace_branches_is_replace_not_merge() {
    let mut db = Database::new();
    db.save_repository(&repo("test/repo", NOW_MS)).unwrap();

    let first = vec![branch("test/repo", "main", 0, 0), branch("test/repo", "feat-a", 1, 0)];
    db.replace_branches("test/repo", first).unwrap();

    let second = vec![branch("test/repo", "feat-b", 2, 0), branch("test/repo", "main", 0, 0)];
    db.replace_branches("test/repo", second).unwrap();

    let got = db.get_branches_for_repo("test/repo").unwrap();
    let names: Vec<&str> = got.iter().map(|b| b.name.as_str()).collect();
    // Exactly the second set survives, in name order; feat-a is gone.
    assert_eq!(names, vec!["feat-b", "main"]);
}

#[test]
fn test_replace_branches_drops_replaced_commits() {
    let mut db = Database::new();
    db.save_repository(&repo("test/repo", NOW_MS)).unwrap();
    let ids = db
        .replace_branches("test/repo", vec![branch("test/repo", "feat-a", 1, 0)])
        .unwrap();
    db.replace_commits(ids[0], vec![commit("c1"), commit("c2")]).unwrap();
    assert_eq!(db.get_commits_for_branch(ids[0]).unwrap().len(), 2);

    let new_ids = db
        .replace_branches("test/repo", vec![branch("test/repo", "feat-a", 2, 0)])
        .unwrap();
    // The old branch row is gone, and its commits went with it.
    assert_eq!(db.get_commits_for_branch(ids[0]).unwrap().len(), 0);
    assert_eq!(db.get_commits_for_branch(new_ids[0]).unwrap().len(), 0);
}

#[test]
fn test_save_commit_requires_branch() {
    let mut db = Database::new();
    let mut c = commit("c1");
    c.branch_id = 999;
    let r = db.save_commit(&c);
    assert!(matches!(r, Err(Error::Storage(_))));
}

#[test]
fn test_pull_requests_ordered_by_number_desc() {
    let mut db = Database::new();
    db.save_repository(&repo("test/repo", NOW_MS)).unwrap();
    let mk = |n: u32| PullRequest {
        id: 0,
        repo_id: "test/repo".to_string(),
        branch_id: None,
        number: n,
        state: PRState::Open,
        title: format!("pr {}", n),
        created_at: NOW_MS,
        updated_at: NOW_MS,
    };
    db.replace_pull_requests("test/repo", vec![mk(2), mk(7), mk(5)]).unwrap();
    let got = db.get_pull_requests_for_repo("test/repo").unwrap();
    let numbers: Vec<u32> = got.iter().map(|p| p.number).collect();
    assert_eq!(numbers, vec![7, 5, 2]);
}

#[test]
fn test_single_group_membership() {
    let mut db = Database::new();
    db.save_repository(&repo("test/repo", NOW_MS)).unwrap();
    let g1 = db.create_group("alpha", 0).unwrap();
    let g2 = db.create_group("beta", 1).unwrap();

    db.add_repo_to_group("test/repo", g1).unwrap();
    // A second add leaves the existing membership untouched.
    db.add_repo_to_group("test/repo", g2).unwrap();
    assert_eq!(db.get_repos_in_group(g1).unwrap().len(), 1);
    assert_eq!(db.get_repos_in_group(g2).unwrap().len(), 0);

    // Moving switches the one membership.
    db.move_repo_to_group("test/repo", g2).unwrap();
    assert_eq!(db.get_repos_in_group(g1).unwrap().len(), 0);
    assert_eq!(db.get_repos_in_group(g2).unwrap().len(), 1);

    db.remove_repo_from_all_groups("test/repo").unwrap();
    assert_eq!(db.get_repos_in_group(g2).unwrap().len(), 0);
    assert_eq!(db.get_ungrouped_repositories().unwrap().len(), 1);
}

#[test]
fn test_delete_group_cascades_memberships() {
    let mut db = Database::new();
    db.save_repository(&repo("test/one", NOW_MS)).unwrap();
    db.save_repository(&repo("test/two", NOW_MS - DAY_MS)).unwrap();
    db.save_repository(&repo("test/other", NOW_MS)).unwrap();
    let g = db.create_group("doomed", 0).unwrap();
    let keep = db.create_group("kept", 1).unwrap();
    db.add_repo_to_group("test/one", g).unwrap();
    db.add_repo_to_group("test/two", g).unwrap();
    db.add_repo_to_group("test/other", keep).unwrap();

    db.delete_group(g).unwrap();

    // Both members are ungrouped, in no group's member list, and their
    // repository rows survive.
    let ungrouped = db.get_ungrouped_repositories().unwrap();
    let ids: Vec<&str> = ungrouped.iter().map(|r| r.id.as_str()).collect();
    assert_eq!(ids, vec!["test/one", "test/two"]);
    assert_eq!(db.get_repos_in_group(keep).unwrap().len(), 1);
    assert_eq!(db.get_all_groups().unwrap().len(), 1);
    assert_eq!(db.get_all_repositories().unwrap().len(), 3);
}

#[test]
fn test_groups_ordered_by_display_order() {
    let mut db = Database::new();
    db.create_group("second", 5).unwrap();
    db.create_group("first", 1).unwrap();
    let groups = db.get_all_groups().unwrap();
    let names: Vec<&str> = groups.iter().map(|g| g.name.as_str()).collect();
    assert_eq!(names, vec!["first", "second"]);
}

#[test]
fn test_create_group_with_next_order() {
    let mut db = Database::new();
    db.create_group_with_next_order("alpha").unwrap();
    db.create_group("gap", 7).unwrap();
    db.create_group_with_next_order("omega").unwrap();
    let groups = db.get_all_groups().unwrap();
    let orders: Vec<i32> = groups.iter().map(|g| g.display_order).collect();
    assert_eq!(orders, vec![0, 7, 8]);
}

#[test]
fn test_rename_group() {
    let mut db = Database::new();
    let g = db.create_group("before", 0).unwrap();
    db.rename_group(g, "after").unwrap();
    assert_eq!(db.get_all_groups().unwrap()[0].name, "after");
}

#[test]
fn test_local_repo_root_duplicate_path() {
    let mut db = Database::new();
    db.add_local_repo_root("/roots/github").unwrap();
    let dup = db.add_local_repo_root("/roots/github");
    // A duplicate path is the distinguished error, so callers can answer
    // "already configured".
    assert!(matches!(dup, Err(Error::DuplicatePath(_))));

    let roots = db.get_all_local_repo_roots().unwrap();
    assert_eq!(roots.len(), 1);
    assert!(roots[0].enabled);

    db.toggle_local_repo_root(roots[0].id, false).unwrap();
    assert!(!db.get_all_local_repo_roots().unwrap()[0].enabled);

    db.remove_local_repo_root(roots[0].id).unwrap();
    assert!(db.get_all_local_repo_roots().unwrap().is_empty());
}

#[test]
fn test_local_repo_status_upsert() {
    let mut db = Database::new();
    let status = overall_core::models::LocalRepoStatus {
        id: 0,
        repo_id: "acme/widgets".to_string(),
        local_path: "/roots/acme/widgets".to_string(),
        current_branch: Some("main".to_string()),
        uncommitted_files: 2,
        unpushed_commits: 0,
        behind_commits: 0,
        is_dirty: true,
        last_checked: NOW_MS,
    };
    db.save_local_repo_status(&status).unwrap();
    let mut refreshed = status;
    refreshed.uncommitted_files = 0;
    refreshed.is_dirty = false;
    refreshed.last_checked = NOW_MS + 60_000;
    db.save_local_repo_status(&refreshed).unwrap();

    let all = db.get_all_local_repo_statuses().unwrap();
    assert_eq!(all.len(), 1);
    assert_eq!(all[0].uncommitted_files, 0);

    let found = db.get_local_repo_status("acme/widgets").unwrap();
    assert!(found.is_some());
    assert!(db.get_local_repo_status("acme/unknown").unwrap().is_none());
}

#[test]
fn test_move_repo_to_missing_group_leaves_repo_ungrouped() {
    let mut db = Database::new();
    db.save_repository(&repo("test/repo", NOW_MS)).unwrap();
    let g = db.create_group("alpha", 0).unwrap();
    db.add_repo_to_group("test/repo", g).unwrap();

    // The removal stands even though the target group is missing.
    let moved = db.move_repo_to_group("test/repo", 999);
    assert!(matches!(moved, Err(Error::Storage(_))));
    assert_eq!(db.get_repos_in_group(g).unwrap().len(), 0);
    assert_eq!(db.get_ungrouped_repositories().unwrap().len(), 1);
}

#[test]
fn test_get_unmerged_branches_for_repo() {
    let mut db = Database::new();
    db.save_repository(&repo("test/repo", NOW_MS)).unwrap();
    db.replace_branches(
        "test/repo",
        vec![
            branch("test/repo", "main", 0, 0),
            branch("test/repo", "feat-a", 2, 0),
            branch("test/repo", "behind-only", 0, 3),
        ],
    )
    .unwrap();
    let unmerged = db.get_unmerged_branches_for_repo("test/repo").unwrap();
    let names: Vec<&str> = unmerged.iter().map(|b| b.name.as_str()).collect();
    assert_eq!(names, vec!["feat-a"]);
}
