//! Local-scan parsing: repository identities from paths, ahead/behind
//! counts, and status listings.

use overall_core::local_git::{assemble_repo_status, count_status_lines, extract_repo_id,
    parse_ahead_behind_counts};

#[test]
fn test_extract_repo_id() {
    let path = "/Users/mike/github/softwarewrighter/overall";
    assert_eq!(extract_repo_id(path), Some("softwarewrighter/overall".to_string()));

    let path = "/Users/mike/github/sw-cli-tools/repo-tool";
    assert_eq!(extract_repo_id(path), Some("sw-cli-tools/repo-tool".to_string()));
}

#[test]
fn test_extract_repo_id_too_short() {
    assert_eq!(extract_repo_id("alone"), None);
    assert_eq!(extract_repo_id(""), None);
    assert_eq!(extract_repo_id("owner/repo"), Some("owner/repo".to_string()));
}

#[test]
fn test_parse_ahead_behind_counts() {
    assert_eq!(parse_ahead_behind_counts("3 1"), (3, 1));
    assert_eq!(parse_ahead_behind_counts("0\t12"), (0, 12));
    assert_eq!(parse_ahead_behind_counts("garbage"), (0, 0));
    assert_eq!(parse_ahead_behind_counts("1 2 3"), (0, 0));
    assert_eq!(parse_ahead_behind_counts("x 2"), (0, 2));
    assert_eq!(parse_ahead_behind_counts(""), (0, 0));
}

#[test]
fn test_count_status_lines() {
    assert_eq!(count_status_lines(" M src/lib.rs\n?? notes.txt\n"), 2);
    assert_eq!(count_status_lines(""), 0);
    assert_eq!(count_status_lines("\n\n"), 0);
    assert_eq!(count_status_lines("one line without newline"), 1);
}

#[test]
fn test_assemble_repo_status_derives_dirty_flag() {
    let clean = assemble_repo_status("/roots/acme/widgets", Some("main".to_string()), 0, Some((0, 0)))
        .unwrap();
    assert_eq!(clean.repo_id, "acme/widgets");
    assert!(!clean.is_dirty);

    let unpushed =
        assemble_repo_status("/roots/acme/widgets", Some("main".to_string()), 0, Some((2, 0)))
            .unwrap();
    assert_eq!(unpushed.unpushed_commits, 2);
    assert!(unpushed.is_dirty);

    let uncommitted =
        assemble_repo_status("/roots/acme/widgets", Some("main".to_string()), 3, Some((0, 0)))
            .unwrap();
    assert_eq!(uncommitted.uncommitted_files, 3);
    assert!(uncommitted.is_dirty);

    // A detached head reports no branch, so the counts do not apply.
    let detached = assemble_repo_status("/roots/acme/widgets", None, 0, Some((5, 5))).unwrap();
    assert_eq!(detached.unpushed_commits, 0);
    assert_eq!(detached.behind_commits, 0);

    assert!(assemble_repo_status("widgets", None, 0, None).is_err());
}
