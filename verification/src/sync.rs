//! The sync orchestrator: drives one repository's refresh against the
//! remote gateway, replacing the repository's dependent rows wholesale
//! and leaving the store consistent even when some remote calls fail. A
//! failed step is recorded and the remaining steps still run; partial
//! synchronization is an expected outcome of a live remote system.

use crate::error::Error;
use crate::github::{classify_branch_status, classify_spec, GitHubClient};
use crate::models::{Branch, PullRequest, Repository};
use crate::store::{branch_in_repo, not_repo_id, rel_branch_ids_differ, rel_branch_names_differ,
    rel_commit_shas_differ, rel_pr_numbers_differ, Database};
use crate::table::{lemma_filter_pred_holds, lemma_filter_retains, lemma_filter_sub, pairwise};
use vstd::prelude::*;

verus! {

broadcast use vstd::seq_lib::group_to_multiset_ensures;

/// What one repository's refresh achieved: how many branches and pull
/// requests were stored, if those fetches succeeded at all, and how many
/// branches' commit fetches failed.
pub struct RepoSyncOutcome {
    pub branches_synced: Option<usize>,
    pub commit_failures: usize,
    pub pull_requests_synced: Option<usize>,
}

/// Decides a pairwise relation over all row pairs; `f` must decide the
/// ghost relation `rel`.
fn pairwise_holds<T, F: Fn(&T, &T) -> bool>(
    v: &Vec<T>,
    f: F,
    Ghost(rel): Ghost<spec_fn(T, T) -> bool>,
) -> (r: bool)
    requires
        forall|x: T, y: T| #[trigger] f.requires((&x, &y)),
        forall|x: T, y: T, b: bool| #[trigger] f.ensures((&x, &y), b) ==> b == rel(x, y),
    ensures
        r == pairwise(v@, rel),
{
    let n = v.len();
    let mut i: usize = 0;
    while i < n
        invariant
            forall|x: T, y: T| #[trigger] f.requires((&x, &y)),
            forall|x: T, y: T, b: bool| #[trigger] f.ensures((&x, &y), b) ==> b == rel(x, y),
            i <= n,
            n == v@.len(),
            forall|p: int, q: int| 0 <= p < q < v@.len() && p < i ==> rel(v@[p], v@[q]),
        decreases n - i,
    {
        let mut j: usize = i + 1;
        while j < n
            invariant
                forall|x: T, y: T| #[trigger] f.requires((&x, &y)),
                forall|x: T, y: T, b: bool| #[trigger] f.ensures((&x, &y), b) ==> b == rel(x, y),
                i < j <= n,
                i < n,
                n == v@.len(),
                forall|q: int| i < q < j ==> rel(v@[i as int], v@[q]),
            decreases n - j,
        {
            if !f(&v[i], &v[j]) {
                return false;
            }
            j += 1;
        }
        i += 1;
    }
    true
}

/// Whether `n` more fresh identities fit under the store's counter.
fn fits_capacity(db: &Database, n: usize) -> (r: bool)
    requires
        db.wf(),
    ensures
        r == (db.next_id + n <= i64::MAX),
{
    (n as u64) <= ((i64::MAX - db.next_id) as u64)
}

/// Refreshes one repository from the gateway: the repository row is
/// replaced, then its branch set, the commits of branches with unmerged
/// work, and its pull-request set, each wholesale; finally every branch
/// is reclassified against the fresh pull requests. A failed or
/// malformed fetch leaves that step's rows as they were, is recorded in
/// the outcome, and does not stop the remaining steps. Grouping, local
/// scans and configuration are untouched.
pub fn sync_repository<C: GitHubClient>(
    db: &mut Database,
    client: &mut C,
    repo: &Repository,
    default_branch: &str,
) -> (r: Result<RepoSyncOutcome, Error>)
    requires
        old(db).wf(),
    ensures
        final(db).wf(),
        r is Ok,
        final(db).repos@ == old(db).repos@.filter(not_repo_id(repo.id@)).push(*repo),
        Database::same_groups(*old(db), *final(db)),
        Database::same_memberships(*old(db), *final(db)),
        Database::same_local_roots(*old(db), *final(db)),
        Database::same_local_statuses(*old(db), *final(db)),
        Database::same_config(*old(db), *final(db)),
{
    let ghost pre = *db;
    let _saved = db.save_repository(repo);
    let ghost saved = *db;
    let mut branches_synced: Option<usize> = None;
    let mut commit_failures: usize = 0;
    match client.fetch_branches(repo.id.as_str()) {
        Ok(branches) => {
            let distinct = pairwise_holds(
                &branches,
                (|x: &Branch, y: &Branch| -> (b: bool)
                    ensures
                        b == (x.name@ != y.name@),
                    { !crate::strutil::str_eq(x.name.as_str(), y.name.as_str()) }),
                Ghost(rel_branch_names_differ()),
            );
            if distinct && fits_capacity(db, branches.len()) {
                let mut meta: Vec<(String, u32)> = Vec::new();
                let mut i: usize = 0;
                while i < branches.len()
                    invariant
                        i <= branches@.len(),
                        meta@.len() == i,
                    decreases branches@.len() - i,
                {
                    meta.push((branches[i].name.clone(), branches[i].ahead_by));
                    i += 1;
                }
                match db.replace_branches(repo.id.as_str(), branches) {
                    Ok(ids) => {
                        branches_synced = Some(ids.len());
                        let mut j: usize = 0;
                        while j < ids.len() && j < meta.len()
                            invariant
                                db.wf(),
                                commit_failures <= j,
                                db.repos@ == saved.repos@,
                                db.groups@ == saved.groups@,
                                db.memberships@ == saved.memberships@,
                                db.local_roots@ == saved.local_roots@,
                                db.local_statuses@ == saved.local_statuses@,
                                db.config_entries@ == saved.config_entries@,
                            decreases ids@.len() - j,
                        {
                            let (ref bname, ahead) = meta[j];
                            if ahead > 0 {
                                match client.fetch_commits(
                                    repo.id.as_str(),
                                    bname.as_str(),
                                    ids[j],
                                ) {
                                    Ok(commits) => {
                                        let cdistinct = pairwise_holds(
                                            &commits,
                                            (|x: &crate::models::Commit, y: &crate::models::Commit| -> (b:
                                                bool)
                                                ensures
                                                    b == (x.sha@ != y.sha@),
                                                {
                                                    !crate::strutil::str_eq(
                                                        x.sha.as_str(),
                                                        y.sha.as_str(),
                                                    )
                                                }),
                                            Ghost(rel_commit_shas_differ()),
                                        );
                                        if cdistinct && fits_capacity(db, commits.len()) {
                                            match db.replace_commits(ids[j], commits) {
                                                Ok(_) => {},
                                                Err(_) => {
                                                    commit_failures += 1;
                                                },
                                            }
                                        } else {
                                            commit_failures += 1;
                                        }
                                    },
                                    Err(_) => {
                                        commit_failures += 1;
                                    },
                                }
                            }
                            j += 1;
                        }
                    },
                    Err(_) => {},
                }
            }
        },
        Err(_) => {},
    }
    let mut pull_requests_synced: Option<usize> = None;
    match client.fetch_pull_requests(repo.id.as_str()) {
        Ok(prs) => {
            let distinct = pairwise_holds(
                &prs,
                (|x: &PullRequest, y: &PullRequest| -> (b: bool)
                    ensures
                        b == (x.number != y.number),
                    { x.number != y.number }),
                Ghost(rel_pr_numbers_differ()),
            );
            if distinct && fits_capacity(db, prs.len()) {
                let to_store = crate::store::copy_prs(&prs);
                match db.replace_pull_requests(repo.id.as_str(), to_store) {
                    Ok(stored_ids) => {
                        pull_requests_synced = Some(stored_ids.len());
                        let _reclassified = reclassify_repo(
                            db,
                            repo.id.as_str(),
                            default_branch,
                            &prs,
                        );
                    },
                    Err(_) => {},
                }
            }
        },
        Err(_) => {},
    }
    Ok(RepoSyncOutcome { branches_synced, commit_failures, pull_requests_synced })
}

/// Re-runs the classifier over every branch of the repository against
/// the given pull requests and the default branch name, and persists
/// each resulting status. The status is a cache, recomputed on every
/// sync from freshly fetched data.
pub fn reclassify_repo(
    db: &mut Database,
    repo_id: &str,
    default_branch: &str,
    prs: &Vec<PullRequest>,
) -> (r: Result<(), Error>)
    requires
        old(db).wf(),
    ensures
        final(db).wf(),
        r is Ok,
        final(db).branches@.len() == old(db).branches@.len(),
        forall|i: int|
            0 <= i < old(db).branches@.len() ==> #[trigger] final(db).branches@[i] == if old(
                db,
            ).branches@[i].repo_id@ == repo_id@ {
                Branch {
                    status: classify_spec(old(db).branches@[i], prs@, default_branch@),
                    ..old(db).branches@[i]
                }
            } else {
                old(db).branches@[i]
            },
        final(db).next_id == old(db).next_id,
        Database::same_repos(*old(db), *final(db)),
        Database::same_pull_requests(*old(db), *final(db)),
        Database::same_commits(*old(db), *final(db)),
        Database::same_groups(*old(db), *final(db)),
        Database::same_memberships(*old(db), *final(db)),
        Database::same_local_roots(*old(db), *final(db)),
        Database::same_local_statuses(*old(db), *final(db)),
        Database::same_config(*old(db), *final(db)),
{
    let ghost pre = *db;
    let ghost rid: Seq<char> = repo_id@;
    let snapshot = match db.get_branches_for_repo(repo_id) {
        Ok(v) => v,
        Err(_) => {
            proof {
                assert(false);
            }
            Vec::new()
        },
    };
    proof {
        lemma_filter_pred_holds(pre.branches@, branch_in_repo(rid));
        lemma_filter_sub(pre.branches@, branch_in_repo(rid));
    }
    let mut j: usize = 0;
    while j < snapshot.len()
        invariant
            db.wf(),
            rid == repo_id@,
            j <= snapshot@.len(),
            snapshot@.to_multiset() == pre.branches@.filter(branch_in_repo(rid)).to_multiset(),
            pre.wf(),
            db.branches@.len() == pre.branches@.len(),
            forall|i: int|
                0 <= i < pre.branches@.len() ==> #[trigger] db.branches@[i] == if (exists|t: int|
                    0 <= t < j && snapshot@[t].id == pre.branches@[i].id) {
                    Branch {
                        status: classify_spec(pre.branches@[i], prs@, default_branch@),
                        ..pre.branches@[i]
                    }
                } else {
                    pre.branches@[i]
                },
            db.next_id == pre.next_id,
            db.repos@ == pre.repos@,
            db.pull_requests@ == pre.pull_requests@,
            db.commits@ == pre.commits@,
            db.groups@ == pre.groups@,
            db.memberships@ == pre.memberships@,
            db.local_roots@ == pre.local_roots@,
            db.local_statuses@ == pre.local_statuses@,
            db.config_entries@ == pre.config_entries@,
        decreases snapshot@.len() - j,
    {
        let ghost fb = pre.branches@.filter(branch_in_repo(rid));
        let ghost row: Branch = snapshot@[j as int];
        proof {
            // The snapshot entry is one of the repository's original rows.
            assert(snapshot@.contains(row));
            assert(snapshot@.to_multiset().count(row) > 0);
            assert(fb.to_multiset().count(row) > 0);
            assert(fb.contains(row));
            lemma_filter_pred_holds(pre.branches@, branch_in_repo(rid));
            lemma_filter_sub(pre.branches@, branch_in_repo(rid));
            let u = choose|u: int| 0 <= u < fb.len() && fb[u] == row;
            assert(pre.branches@.contains(fb[u]));
        }
        let b = &snapshot[j];
        let status = classify_branch_status(b, prs, default_branch);
        let ghost mid = *db;
        let _updated = db.set_branch_status(b.id, status);
        proof {
            let k = choose|k: int| 0 <= k < pre.branches@.len() && pre.branches@[k] == row;
            assert forall|i: int| 0 <= i < pre.branches@.len() implies #[trigger] db.branches@[i]
                == if (exists|t: int|
                0 <= t < j + 1 && snapshot@[t].id == pre.branches@[i].id) {
                Branch {
                    status: classify_spec(pre.branches@[i], prs@, default_branch@),
                    ..pre.branches@[i]
                }
            } else {
                pre.branches@[i]
            } by {
                if pre.branches@[i].id == row.id {
                    // This is the row the snapshot entry came from: two
                    // rows with one identity are the same row.
                    if i < k {
                        assert(rel_branch_ids_differ()(pre.branches@[i], pre.branches@[k]));
                    } else if i > k {
                        assert(rel_branch_ids_differ()(pre.branches@[k], pre.branches@[i]));
                    }
                    assert(pre.branches@[i] == row);
                    assert(snapshot@[j as int].id == pre.branches@[i].id);
                } else {
                    if exists|t: int| 0 <= t < j + 1 && snapshot@[t].id == pre.branches@[i].id {
                        let t = choose|t: int|
                            0 <= t < j + 1 && snapshot@[t].id == pre.branches@[i].id;
                        assert(t < j);
                    }
                }
            }
        }
        j += 1;
    }
    proof {
        let fb = pre.branches@.filter(branch_in_repo(rid));
        lemma_filter_pred_holds(pre.branches@, branch_in_repo(rid));
        assert forall|i: int| 0 <= i < pre.branches@.len() implies ((exists|t: int|
            0 <= t < snapshot@.len() && snapshot@[t].id == pre.branches@[i].id)
            == (pre.branches@[i].repo_id@ == rid)) by {
            if pre.branches@[i].repo_id@ == rid {
                // The row survives the filter and so occurs in the snapshot.
                assert(branch_in_repo(rid)(pre.branches@[i]));
                lemma_filter_retains(pre.branches@, branch_in_repo(rid), i);
                assert(fb.contains(pre.branches@[i]));
                assert(fb.to_multiset().count(pre.branches@[i]) > 0);
                assert(snapshot@.to_multiset().count(pre.branches@[i]) > 0);
                assert(snapshot@.contains(pre.branches@[i]));
                let t = choose|t: int|
                    0 <= t < snapshot@.len() && snapshot@[t] == pre.branches@[i];
                assert(snapshot@[t].id == pre.branches@[i].id);
            } else {
                if exists|t: int|
                    0 <= t < snapshot@.len() && snapshot@[t].id == pre.branches@[i].id {
                    let t = choose|t: int|
                        0 <= t < snapshot@.len() && snapshot@[t].id == pre.branches@[i].id;
                    let row = snapshot@[t];
                    assert(snapshot@.contains(row));
                    assert(snapshot@.to_multiset().count(row) > 0);
                    assert(fb.to_multiset().count(row) > 0);
                    assert(fb.contains(row));
                    lemma_filter_sub(pre.branches@, branch_in_repo(rid));
                    let u = choose|u: int| 0 <= u < fb.len() && fb[u] == row;
                    assert(pre.branches@.contains(fb[u]));
                    let k = choose|k: int|
                        0 <= k < pre.branches@.len() && pre.branches@[k] == row;
                    assert(branch_in_repo(rid)(row));
                    if i < k {
                        assert(rel_branch_ids_differ()(pre.branches@[i], pre.branches@[k]));
                    } else if i > k {
                        assert(rel_branch_ids_differ()(pre.branches@[k], pre.branches@[i]));
                    }
                    assert(false);
                }
            }
        }
    }
    Ok(())
}

} // verus!
