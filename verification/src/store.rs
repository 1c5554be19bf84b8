//! The data store: relational in-memory tables for repositories, branches,
//! pull requests, commits, groups and their memberships, local roots and
//! statuses, and configuration, with the uniqueness and referential
//! invariants the engine relies on.
//!
//! Every synthetic numeric identity is assigned by the store from a single
//! counter, so identities are unique across tables and fresh across the
//! store's lifetime. Read operations return rows sorted by the table's
//! fixed key; write operations follow the replace-wholesale lifecycle:
//! a row or child set is deleted and re-inserted, never patched.

use crate::clock::now_millis;
use crate::error::Error;
use crate::models::{Branch, BranchStatus, Commit, Group, LocalRepoRoot, LocalRepoStatus,
    PullRequest, Repository};
use crate::order::{sort_repos_by_rank, sort_rows, sorted_by_rank, sorted_rows};
use crate::strutil::str_eq;
use crate::table::{all_rows, count_matching, filter_rows, first_match, lemma_filter_all,
    lemma_filter_congruent, lemma_filter_id, lemma_filter_pairwise, lemma_filter_pred_holds,
    lemma_filter_retains, lemma_all_push, lemma_all_weaken,
    lemma_pairwise_push, pairwise};
use vstd::prelude::*;
use vstd::string::StringExecFns;

verus! {

/// A repository's membership in a group; at most one per repository.
#[derive(Debug)]
pub struct Membership {
    pub repo_id: String,
    pub group_id: i64,
    pub added_at: i64,
}

impl Clone for Membership {
    fn clone(&self) -> (res: Self)
        ensures
            res == *self,
    {
        Membership {
            repo_id: self.repo_id.clone(),
            group_id: self.group_id,
            added_at: self.added_at,
        }
    }
}

/// One persisted key-value setting.
#[derive(Debug)]
pub struct ConfigEntry {
    pub key: String,
    pub value: String,
}

impl Clone for ConfigEntry {
    fn clone(&self) -> (res: Self)
        ensures
            res == *self,
    {
        ConfigEntry { key: self.key.clone(), value: self.value.clone() }
    }
}

// Predicates the tables are filtered and constrained by.
pub open spec fn has_repo_id(id: Seq<char>) -> spec_fn(Repository) -> bool {
    |r: Repository| r.id@ == id
}

pub open spec fn not_repo_id(id: Seq<char>) -> spec_fn(Repository) -> bool {
    |r: Repository| r.id@ != id
}

pub open spec fn pushed_after(t: i64) -> spec_fn(Repository) -> bool {
    |r: Repository| r.pushed_at > t
}

pub open spec fn branch_in_repo(rid: Seq<char>) -> spec_fn(Branch) -> bool {
    |b: Branch| b.repo_id@ == rid
}

pub open spec fn branch_not_in_repo(rid: Seq<char>) -> spec_fn(Branch) -> bool {
    |b: Branch| b.repo_id@ != rid
}

pub open spec fn branch_not_key(rid: Seq<char>, name: Seq<char>) -> spec_fn(Branch) -> bool {
    |b: Branch| !(b.repo_id@ == rid && b.name@ == name)
}

pub open spec fn pr_in_repo(rid: Seq<char>) -> spec_fn(PullRequest) -> bool {
    |p: PullRequest| p.repo_id@ == rid
}

pub open spec fn pr_not_in_repo(rid: Seq<char>) -> spec_fn(PullRequest) -> bool {
    |p: PullRequest| p.repo_id@ != rid
}

pub open spec fn pr_not_key(rid: Seq<char>, number: u32) -> spec_fn(PullRequest) -> bool {
    |p: PullRequest| !(p.repo_id@ == rid && p.number == number)
}

pub open spec fn commit_in_branch(bid: i64) -> spec_fn(Commit) -> bool {
    |c: Commit| c.branch_id == bid
}

pub open spec fn commit_not_in_branch(bid: i64) -> spec_fn(Commit) -> bool {
    |c: Commit| c.branch_id != bid
}

pub open spec fn commit_not_key(bid: i64, sha: Seq<char>) -> spec_fn(Commit) -> bool {
    |c: Commit| !(c.branch_id == bid && c.sha@ == sha)
}

/// The commit's branch is not one of `bs` restricted to repository
/// `rid`, so it survives that repository's branch removal.
pub open spec fn commit_not_in_repo_branches(bs: Seq<Branch>, rid: Seq<char>) -> spec_fn(
    Commit,
) -> bool {
    |c: Commit|
        !(exists|k: int| 0 <= k < bs.len() && bs[k].id == c.branch_id && bs[k].repo_id@ == rid)
}

pub open spec fn mem_of_repo(rid: Seq<char>) -> spec_fn(Membership) -> bool {
    |m: Membership| m.repo_id@ == rid
}

pub open spec fn mem_not_of_repo(rid: Seq<char>) -> spec_fn(Membership) -> bool {
    |m: Membership| m.repo_id@ != rid
}

pub open spec fn mem_not_of_group(gid: i64) -> spec_fn(Membership) -> bool {
    |m: Membership| m.group_id != gid
}

pub open spec fn mem_not_pair(rid: Seq<char>, gid: i64) -> spec_fn(Membership) -> bool {
    |m: Membership| !(m.repo_id@ == rid && m.group_id == gid)
}

pub open spec fn group_with_id(gid: i64) -> spec_fn(Group) -> bool {
    |g: Group| g.id == gid
}

pub open spec fn group_not_id(gid: i64) -> spec_fn(Group) -> bool {
    |g: Group| g.id != gid
}

pub open spec fn root_with_path(path: Seq<char>) -> spec_fn(LocalRepoRoot) -> bool {
    |r: LocalRepoRoot| r.path@ == path
}

pub open spec fn root_not_id(id: i64) -> spec_fn(LocalRepoRoot) -> bool {
    |r: LocalRepoRoot| r.id != id
}

pub open spec fn status_of_repo(rid: Seq<char>) -> spec_fn(LocalRepoStatus) -> bool {
    |s: LocalRepoStatus| s.repo_id@ == rid
}

pub open spec fn status_not_of_repo(rid: Seq<char>) -> spec_fn(LocalRepoStatus) -> bool {
    |s: LocalRepoStatus| s.repo_id@ != rid
}

pub open spec fn config_with_key(key: Seq<char>) -> spec_fn(ConfigEntry) -> bool {
    |c: ConfigEntry| c.key@ == key
}

pub open spec fn config_not_key(key: Seq<char>) -> spec_fn(ConfigEntry) -> bool {
    |c: ConfigEntry| c.key@ != key
}

// Pairwise distinctness relations of the tables.
pub open spec fn rel_repo_ids_differ() -> spec_fn(Repository, Repository) -> bool {
    |a: Repository, b: Repository| a.id@ != b.id@
}

pub open spec fn rel_branch_ids_differ() -> spec_fn(Branch, Branch) -> bool {
    |a: Branch, b: Branch| a.id != b.id
}

pub open spec fn rel_branch_keys_differ() -> spec_fn(Branch, Branch) -> bool {
    |a: Branch, b: Branch| !(a.repo_id@ == b.repo_id@ && a.name@ == b.name@)
}

pub open spec fn rel_pr_ids_differ() -> spec_fn(PullRequest, PullRequest) -> bool {
    |a: PullRequest, b: PullRequest| a.id != b.id
}

pub open spec fn rel_pr_keys_differ() -> spec_fn(PullRequest, PullRequest) -> bool {
    |a: PullRequest, b: PullRequest| !(a.repo_id@ == b.repo_id@ && a.number == b.number)
}

pub open spec fn rel_commit_ids_differ() -> spec_fn(Commit, Commit) -> bool {
    |a: Commit, b: Commit| a.id != b.id
}

pub open spec fn rel_commit_keys_differ() -> spec_fn(Commit, Commit) -> bool {
    |a: Commit, b: Commit| !(a.branch_id == b.branch_id && a.sha@ == b.sha@)
}

pub open spec fn rel_group_ids_differ() -> spec_fn(Group, Group) -> bool {
    |a: Group, b: Group| a.id != b.id
}

pub open spec fn rel_mem_repos_differ() -> spec_fn(Membership, Membership) -> bool {
    |a: Membership, b: Membership| a.repo_id@ != b.repo_id@
}

pub open spec fn rel_root_ids_differ() -> spec_fn(LocalRepoRoot, LocalRepoRoot) -> bool {
    |a: LocalRepoRoot, b: LocalRepoRoot| a.id != b.id
}

pub open spec fn rel_root_paths_differ() -> spec_fn(LocalRepoRoot, LocalRepoRoot) -> bool {
    |a: LocalRepoRoot, b: LocalRepoRoot| a.path@ != b.path@
}

pub open spec fn rel_status_repos_differ() -> spec_fn(LocalRepoStatus, LocalRepoStatus) -> bool {
    |a: LocalRepoStatus, b: LocalRepoStatus| a.repo_id@ != b.repo_id@
}

pub open spec fn rel_config_keys_differ() -> spec_fn(ConfigEntry, ConfigEntry) -> bool {
    |a: ConfigEntry, b: ConfigEntry| a.key@ != b.key@
}

// Range constraints tying synthetic identities to the store's counter.
pub open spec fn branch_id_in_range(n: i64) -> spec_fn(Branch) -> bool {
    |b: Branch| 1 <= b.id < n
}

pub open spec fn pr_id_in_range(n: i64) -> spec_fn(PullRequest) -> bool {
    |p: PullRequest| 1 <= p.id < n
}

pub open spec fn commit_id_in_range(n: i64) -> spec_fn(Commit) -> bool {
    |c: Commit| 1 <= c.id < n
}

pub open spec fn group_id_in_range(n: i64) -> spec_fn(Group) -> bool {
    |g: Group| 1 <= g.id < n
}

pub open spec fn root_id_in_range(n: i64) -> spec_fn(LocalRepoRoot) -> bool {
    |r: LocalRepoRoot| 1 <= r.id < n
}

pub open spec fn status_id_in_range(n: i64) -> spec_fn(LocalRepoStatus) -> bool {
    |s: LocalRepoStatus| 1 <= s.id < n
}

/// A branch with this identity is present.
pub open spec fn branch_id_exists(bs: Seq<Branch>, id: i64) -> bool {
    exists|k: int| 0 <= k < bs.len() && bs[k].id == id
}

/// The commit references an existing branch.
pub open spec fn commit_branch_exists(bs: Seq<Branch>) -> spec_fn(Commit) -> bool {
    |c: Commit| exists|k: int| 0 <= k < bs.len() && bs[k].id == c.branch_id
}

/// The membership references an existing repository and group.
pub open spec fn mem_refs_exist(rs: Seq<Repository>, gs: Seq<Group>) -> spec_fn(
    Membership,
) -> bool {
    |m: Membership|
        (exists|i: int| 0 <= i < rs.len() && rs[i].id@ == m.repo_id@) && (exists|j: int|
            0 <= j < gs.len() && gs[j].id == m.group_id)
}

/// The in-memory data store.
pub struct Database {
    pub repos: Vec<Repository>,
    pub branches: Vec<Branch>,
    pub pull_requests: Vec<PullRequest>,
    pub commits: Vec<Commit>,
    pub groups: Vec<Group>,
    pub memberships: Vec<Membership>,
    pub local_roots: Vec<LocalRepoRoot>,
    pub local_statuses: Vec<LocalRepoStatus>,
    pub config_entries: Vec<ConfigEntry>,
    /// The next synthetic identity to hand out; greater than every
    /// identity already in the store.
    pub next_id: i64,
}

impl Database {
    /// The store's invariant: repository identities are unique; branches
    /// are unique on `(repo_id, name)`, pull requests on
    /// `(repo_id, number)`, commits on `(branch_id, sha)`; every commit
    /// belongs to an existing branch; a repository belongs to at most one
    /// group and memberships reference existing rows; local roots are
    /// unique on path, local statuses and configuration on their keys; and
    /// all synthetic identities are below the counter.
    pub open spec fn wf(self) -> bool {
        &&& 1 <= self.next_id
        &&& pairwise(self.repos@, rel_repo_ids_differ())
        &&& pairwise(self.branches@, rel_branch_ids_differ())
        &&& pairwise(self.branches@, rel_branch_keys_differ())
        &&& all_rows(self.branches@, branch_id_in_range(self.next_id))
        &&& pairwise(self.pull_requests@, rel_pr_ids_differ())
        &&& pairwise(self.pull_requests@, rel_pr_keys_differ())
        &&& all_rows(self.pull_requests@, pr_id_in_range(self.next_id))
        &&& pairwise(self.commits@, rel_commit_ids_differ())
        &&& pairwise(self.commits@, rel_commit_keys_differ())
        &&& all_rows(self.commits@, commit_id_in_range(self.next_id))
        &&& all_rows(self.commits@, commit_branch_exists(self.branches@))
        &&& pairwise(self.groups@, rel_group_ids_differ())
        &&& all_rows(self.groups@, group_id_in_range(self.next_id))
        &&& pairwise(self.memberships@, rel_mem_repos_differ())
        &&& all_rows(self.memberships@, mem_refs_exist(self.repos@, self.groups@))
        &&& pairwise(self.local_roots@, rel_root_ids_differ())
        &&& pairwise(self.local_roots@, rel_root_paths_differ())
        &&& all_rows(self.local_roots@, root_id_in_range(self.next_id))
        &&& pairwise(self.local_statuses@, rel_status_repos_differ())
        &&& all_rows(self.local_statuses@, status_id_in_range(self.next_id))
        &&& pairwise(self.config_entries@, rel_config_keys_differ())
    }

    // Frame predicates: which tables an operation left untouched.
    pub open spec fn same_repos(pre: Database, post: Database) -> bool {
        post.repos@ == pre.repos@
    }

    pub open spec fn same_branches(pre: Database, post: Database) -> bool {
        post.branches@ == pre.branches@
    }

    pub open spec fn same_pull_requests(pre: Database, post: Database) -> bool {
        post.pull_requests@ == pre.pull_requests@
    }

    pub open spec fn same_commits(pre: Database, post: Database) -> bool {
        post.commits@ == pre.commits@
    }

    pub open spec fn same_groups(pre: Database, post: Database) -> bool {
        post.groups@ == pre.groups@
    }

    pub open spec fn same_memberships(pre: Database, post: Database) -> bool {
        post.memberships@ == pre.memberships@
    }

    pub open spec fn same_local_roots(pre: Database, post: Database) -> bool {
        post.local_roots@ == pre.local_roots@
    }

    pub open spec fn same_local_statuses(pre: Database, post: Database) -> bool {
        post.local_statuses@ == pre.local_statuses@
    }

    pub open spec fn same_config(pre: Database, post: Database) -> bool {
        post.config_entries@ == pre.config_entries@
    }

    /// A fresh, empty store.
    pub fn new() -> (r: Database)
        ensures
            r.wf(),
            r.repos@ == Seq::<Repository>::empty(),
            r.branches@ == Seq::<Branch>::empty(),
            r.pull_requests@ == Seq::<PullRequest>::empty(),
            r.commits@ == Seq::<Commit>::empty(),
            r.groups@ == Seq::<Group>::empty(),
            r.memberships@ == Seq::<Membership>::empty(),
            r.local_roots@ == Seq::<LocalRepoRoot>::empty(),
            r.local_statuses@ == Seq::<LocalRepoStatus>::empty(),
            r.config_entries@ == Seq::<ConfigEntry>::empty(),
            r.next_id == 1,
    {
        Database {
            repos: Vec::new(),
            branches: Vec::new(),
            pull_requests: Vec::new(),
            commits: Vec::new(),
            groups: Vec::new(),
            memberships: Vec::new(),
            local_roots: Vec::new(),
            local_statuses: Vec::new(),
            config_entries: Vec::new(),
            next_id: 1,
        }
    }

    /// Creates or wholly replaces the repository row with this identity.
    pub fn save_repository(&mut self, repo: &Repository) -> (r: Result<(), Error>)
        requires
            old(self).wf(),
        ensures
            final(self).wf(),
            r is Ok,
            final(self).repos@ == old(self).repos@.filter(not_repo_id(repo.id@)).push(*repo),
            Self::same_branches(*old(self), *final(self)),
            Self::same_pull_requests(*old(self), *final(self)),
            Self::same_commits(*old(self), *final(self)),
            Self::same_groups(*old(self), *final(self)),
            Self::same_memberships(*old(self), *final(self)),
            Self::same_local_roots(*old(self), *final(self)),
            Self::same_local_statuses(*old(self), *final(self)),
            Self::same_config(*old(self), *final(self)),
            final(self).next_id == old(self).next_id,
    {
        let ghost pre = *self;
        let mut tmp: Vec<Repository> = Vec::new();
        core::mem::swap(&mut tmp, &mut self.repos);
        let mut kept = filter_rows(
            tmp,
            (|x: &Repository| -> (b: bool)
                ensures
                    b == (x.id@ != repo.id@),
                { !str_eq(x.id.as_str(), repo.id.as_str()) }),
            Ghost(not_repo_id(repo.id@)),
        );
        kept.push(repo.clone());
        self.repos = kept;
        proof {
            let f = pre.repos@.filter(not_repo_id(repo.id@));
            lemma_filter_pairwise(pre.repos@, not_repo_id(repo.id@), rel_repo_ids_differ());
            lemma_filter_pred_holds(pre.repos@, not_repo_id(repo.id@));
            assert forall|i: int| 0 <= i < f.len() implies rel_repo_ids_differ()(
                f[i],
                *repo,
            ) by {
                assert(not_repo_id(repo.id@)(f[i]));
            }
            lemma_pairwise_push(f, *repo, rel_repo_ids_differ());
            // Memberships may reference the replaced repository: the
            // identity it is found under is unchanged.
            assert(all_rows(
                self.memberships@,
                mem_refs_exist(self.repos@, self.groups@),
            )) by {
                assert forall|i: int|
                    0 <= i < self.memberships@.len() implies mem_refs_exist(
                    self.repos@,
                    self.groups@,
                )(self.memberships@[i]) by {
                    let m = self.memberships@[i];
                    assert(mem_refs_exist(pre.repos@, pre.groups@)(m));
                    let k = choose|k: int|
                        0 <= k < pre.repos@.len() && pre.repos@[k].id@ == m.repo_id@;
                    if pre.repos@[k].id@ == repo.id@ {
                        assert(self.repos@[self.repos@.len() - 1].id@ == m.repo_id@);
                    } else {
                        lemma_filter_retains(
                            pre.repos@,
                            not_repo_id(repo.id@),
                            k,
                        );
                        let f = pre.repos@.filter(not_repo_id(repo.id@));
                        let j = choose|j: int| 0 <= j < f.len() && f[j] == pre.repos@[k];
                        assert(self.repos@[j].id@ == m.repo_id@);
                    }
                }
            }
        }
        Ok(())
    }

    /// All repositories, ranked by priority and then most recent push.
    pub fn get_all_repositories(&self) -> (r: Result<Vec<Repository>, Error>)
        requires
            self.wf(),
        ensures
            r is Ok,
            r->Ok_0@.to_multiset() == self.repos@.to_multiset(),
            sorted_by_rank(r->Ok_0@),
    {
        Ok(sort_repos_by_rank(copy_repos(&self.repos)))
    }

    /// The repositories pushed to after `since`, ranked as the full
    /// listing is.
    pub fn get_repositories_updated_since(&self, since: i64) -> (r: Result<Vec<Repository>, Error>)
        requires
            self.wf(),
        ensures
            r is Ok,
            r->Ok_0@.to_multiset() == self.repos@.filter(pushed_after(since)).to_multiset(),
            sorted_by_rank(r->Ok_0@),
    {
        let recent = filter_rows(
            copy_repos(&self.repos),
            (|x: &Repository| -> (b: bool)
                ensures
                    b == (x.pushed_at > since),
                { x.pushed_at > since }),
            Ghost(pushed_after(since)),
        );
        Ok(sort_repos_by_rank(recent))
    }

    /// The configured value under `key`, if any.
    pub fn get_config(&self, key: &str) -> (r: Result<Option<String>, Error>)
        requires
            self.wf(),
        ensures
            r is Ok,
            match r->Ok_0 {
                Some(v) => exists|i: int|
                    0 <= i < self.config_entries@.len() && self.config_entries@[i].key@ == key@
                        && self.config_entries@[i].value@ == v@,
                None => forall|i: int|
                    0 <= i < self.config_entries@.len() ==> self.config_entries@[i].key@ != key@,
            },
    {
        let found = first_match(
            &self.config_entries,
            (|x: &ConfigEntry| -> (b: bool)
                ensures
                    b == (x.key@ == key@),
                { str_eq(x.key.as_str(), key) }),
            Ghost(config_with_key(key@)),
        );
        match found {
            Some(i) => Ok(Some(self.config_entries[i].value.clone())),
            None => Ok(None),
        }
    }

    /// Sets `key` to `value`, replacing any earlier value.
    pub fn set_config(&mut self, key: &str, value: &str) -> (r: Result<(), Error>)
        requires
            old(self).wf(),
        ensures
            final(self).wf(),
            r is Ok,
            final(self).config_entries@.len() == old(self).config_entries@.filter(
                config_not_key(key@),
            ).len() + 1,
            final(self).config_entries@ == old(self).config_entries@.filter(
                config_not_key(key@),
            ).push(
                final(self).config_entries@.last(),
            ),
            final(self).config_entries@.last().key@ == key@,
            final(self).config_entries@.last().value@ == value@,
            Self::same_repos(*old(self), *final(self)),
            Self::same_branches(*old(self), *final(self)),
            Self::same_pull_requests(*old(self), *final(self)),
            Self::same_commits(*old(self), *final(self)),
            Self::same_groups(*old(self), *final(self)),
            Self::same_memberships(*old(self), *final(self)),
            Self::same_local_roots(*old(self), *final(self)),
            Self::same_local_statuses(*old(self), *final(self)),
            final(self).next_id == old(self).next_id,
    {
        let ghost pre = *self;
        let mut tmp: Vec<ConfigEntry> = Vec::new();
        core::mem::swap(&mut tmp, &mut self.config_entries);
        let mut kept = filter_rows(
            tmp,
            (|x: &ConfigEntry| -> (b: bool)
                ensures
                    b == (x.key@ != key@),
                { !str_eq(x.key.as_str(), key) }),
            Ghost(config_not_key(key@)),
        );
        kept.push(
            ConfigEntry { key: String::from_str(key), value: String::from_str(value) },
        );
        self.config_entries = kept;
        proof {
            let f = pre.config_entries@.filter(config_not_key(key@));
            lemma_filter_pairwise(
                pre.config_entries@,
                config_not_key(key@),
                rel_config_keys_differ(),
            );
            lemma_filter_pred_holds(pre.config_entries@, config_not_key(key@));
            assert forall|i: int| 0 <= i < f.len() implies rel_config_keys_differ()(
                f[i],
                self.config_entries@.last(),
            ) by {
                assert(config_not_key(key@)(f[i]));
            }
            lemma_pairwise_push(f, self.config_entries@.last(), rel_config_keys_differ());
        }
        Ok(())
    }
}

// Further predicates over branches and their commits.
pub open spec fn branch_with_key(rid: Seq<char>, name: Seq<char>) -> spec_fn(Branch) -> bool {
    |b: Branch| b.repo_id@ == rid && b.name@ == name
}

/// The commit does not belong to the branch row keyed `(rid, name)`.
pub open spec fn commit_not_of_branch_key(bs: Seq<Branch>, rid: Seq<char>, name: Seq<char>) -> spec_fn(
    Commit,
) -> bool {
    |c: Commit|
        !(exists|k: int|
            0 <= k < bs.len() && bs[k].repo_id@ == rid && bs[k].name@ == name && bs[k].id
                == c.branch_id)
}

impl Database {
    /// Creates or wholly replaces the branch row keyed
    /// `(repo_id, name)`, assigning it a fresh identity; commits of a
    /// replaced row are removed with it, since its identity is gone.
    pub fn save_branch(&mut self, branch: &Branch) -> (r: Result<i64, Error>)
        requires
            old(self).wf(),
            old(self).next_id < i64::MAX,
        ensures
            final(self).wf(),
            r is Ok,
            r->Ok_0 == old(self).next_id,
            final(self).branches@ == old(self).branches@.filter(
                branch_not_key(branch.repo_id@, branch.name@),
            ).push(Branch { id: old(self).next_id, ..*branch }),
            final(self).commits@ == old(self).commits@.filter(
                commit_not_of_branch_key(old(self).branches@, branch.repo_id@, branch.name@),
            ),
            final(self).next_id == old(self).next_id + 1,
            Self::same_repos(*old(self), *final(self)),
            Self::same_pull_requests(*old(self), *final(self)),
            Self::same_groups(*old(self), *final(self)),
            Self::same_memberships(*old(self), *final(self)),
            Self::same_local_roots(*old(self), *final(self)),
            Self::same_local_statuses(*old(self), *final(self)),
            Self::same_config(*old(self), *final(self)),
    {
        let ghost pre = *self;
        let ghost rid: Seq<char> = branch.repo_id@;
        let ghost name: Seq<char> = branch.name@;
        let conflict = first_match(
            &self.branches,
            (|x: &Branch| -> (b: bool)
                ensures
                    b == (x.repo_id@ == branch.repo_id@ && x.name@ == branch.name@),
                {
                    str_eq(x.repo_id.as_str(), branch.repo_id.as_str()) && str_eq(
                        x.name.as_str(),
                        branch.name.as_str(),
                    )
                }),
            Ghost(branch_with_key(branch.repo_id@, branch.name@)),
        );
        match conflict {
            Some(i) => {
                let removed_id = self.branches[i].id;
                let ghost ii = i as int;
                let mut tmpc: Vec<Commit> = Vec::new();
                core::mem::swap(&mut tmpc, &mut self.commits);
                let keptc = filter_rows(
                    tmpc,
                    (|x: &Commit| -> (b: bool)
                        ensures
                            b == (x.branch_id != removed_id),
                        { x.branch_id != removed_id }),
                    Ghost(commit_not_in_branch(removed_id)),
                );
                self.commits = keptc;
                proof {
                    assert forall|t: int| 0 <= t < pre.commits@.len() implies commit_not_in_branch(
                        removed_id,
                    )(pre.commits@[t]) == commit_not_of_branch_key(pre.branches@, rid, name)(
                        pre.commits@[t],
                    ) by {
                        let c = pre.commits@[t];
                        if exists|k: int|
                            0 <= k < pre.branches@.len() && pre.branches@[k].repo_id@ == rid
                                && pre.branches@[k].name@ == name && pre.branches@[k].id
                                == c.branch_id {
                            let k = choose|k: int|
                                0 <= k < pre.branches@.len() && pre.branches@[k].repo_id@ == rid
                                    && pre.branches@[k].name@ == name && pre.branches@[k].id
                                    == c.branch_id;
                            if k < ii {
                                assert(rel_branch_keys_differ()(pre.branches@[k], pre.branches@[ii]));
                                assert(false);
                            } else if k > ii {
                                assert(rel_branch_keys_differ()(pre.branches@[ii], pre.branches@[k]));
                                assert(false);
                            }
                            assert(c.branch_id == removed_id);
                        } else {
                            if c.branch_id == removed_id {
                                assert(pre.branches@[ii].repo_id@ == rid && pre.branches@[ii].name@
                                    == name && pre.branches@[ii].id == c.branch_id);
                            }
                        }
                    }
                    lemma_filter_congruent(
                        pre.commits@,
                        commit_not_in_branch(removed_id),
                        commit_not_of_branch_key(pre.branches@, rid, name),
                    );
                }
            },
            None => {
                proof {
                    assert forall|t: int|
                        0 <= t < pre.commits@.len() implies commit_not_of_branch_key(
                        pre.branches@,
                        rid,
                        name,
                    )(pre.commits@[t]) by {
                        let c = pre.commits@[t];
                        if exists|k: int|
                            0 <= k < pre.branches@.len() && pre.branches@[k].repo_id@ == rid
                                && pre.branches@[k].name@ == name && pre.branches@[k].id
                                == c.branch_id {
                            let k = choose|k: int|
                                0 <= k < pre.branches@.len() && pre.branches@[k].repo_id@ == rid
                                    && pre.branches@[k].name@ == name && pre.branches@[k].id
                                    == c.branch_id;
                            assert(branch_with_key(rid, name)(pre.branches@[k]));
                            assert(false);
                        }
                    }
                    lemma_filter_id(pre.commits@, commit_not_of_branch_key(pre.branches@, rid, name));
                }
            },
        }
        let mut tmpb: Vec<Branch> = Vec::new();
        core::mem::swap(&mut tmpb, &mut self.branches);
        let mut keptb = filter_rows(
            tmpb,
            (|x: &Branch| -> (b: bool)
                ensures
                    b == !(x.repo_id@ == branch.repo_id@ && x.name@ == branch.name@),
                {
                    !(str_eq(x.repo_id.as_str(), branch.repo_id.as_str()) && str_eq(
                        x.name.as_str(),
                        branch.name.as_str(),
                    ))
                }),
            Ghost(branch_not_key(branch.repo_id@, branch.name@)),
        );
        let new_id = self.next_id;
        keptb.push(
            Branch {
                id: new_id,
                repo_id: branch.repo_id.clone(),
                name: branch.name.clone(),
                sha: branch.sha.clone(),
                ahead_by: branch.ahead_by,
                behind_by: branch.behind_by,
                status: branch.status,
                last_commit_date: branch.last_commit_date,
            },
        );
        self.branches = keptb;
        self.next_id = self.next_id + 1;
        proof {
            self.lemma_branch_upsert_wf(pre, *branch);
        }
        Ok(new_id)
    }

    /// The well-formedness argument for `save_branch`: replacing one
    /// branch row keyed `(rid, name)` with a freshly numbered row, and
    /// dropping the commits of the replaced row, preserves the invariant.
    proof fn lemma_branch_upsert_wf(self, pre: Database, branch: Branch)
        requires
            pre.wf(),
            pre.next_id < i64::MAX,
            self.branches@ == pre.branches@.filter(
                branch_not_key(branch.repo_id@, branch.name@),
            ).push(Branch { id: pre.next_id, ..branch }),
            self.commits@ == pre.commits@.filter(
                commit_not_of_branch_key(pre.branches@, branch.repo_id@, branch.name@),
            ),
            self.next_id == pre.next_id + 1,
            self.repos@ == pre.repos@,
            self.pull_requests@ == pre.pull_requests@,
            self.groups@ == pre.groups@,
            self.memberships@ == pre.memberships@,
            self.local_roots@ == pre.local_roots@,
            self.local_statuses@ == pre.local_statuses@,
            self.config_entries@ == pre.config_entries@,
        ensures
            self.wf(),
    {
        let rid: Seq<char> = branch.repo_id@;
        let name: Seq<char> = branch.name@;
        let notkey = branch_not_key(rid, name);
        let fb = pre.branches@.filter(notkey);
        let newb = Branch { id: pre.next_id, ..branch };
        lemma_filter_pairwise(pre.branches@, notkey, rel_branch_ids_differ());
        lemma_filter_pairwise(pre.branches@, notkey, rel_branch_keys_differ());
        lemma_filter_all(pre.branches@, notkey, branch_id_in_range(pre.next_id));
        assert forall|i: int| 0 <= i < fb.len() implies rel_branch_ids_differ()(fb[i], newb)
            && rel_branch_keys_differ()(fb[i], newb) by {
            assert(branch_id_in_range(pre.next_id)(fb[i]));
            assert(notkey(fb[i]));
        }
        lemma_pairwise_push(fb, newb, rel_branch_ids_differ());
        lemma_pairwise_push(fb, newb, rel_branch_keys_differ());
        assert forall|i: int| 0 <= i < fb.len() implies branch_id_in_range(self.next_id)(
            fb[i],
        ) by {
            assert(branch_id_in_range(pre.next_id)(fb[i]));
        }
        lemma_all_push(fb, newb, branch_id_in_range(self.next_id));
        // Commits: the kept rows keep their properties, and each still
        // references an existing branch.
        let ckeep = commit_not_of_branch_key(pre.branches@, rid, name);
        lemma_filter_pairwise(pre.commits@, ckeep, rel_commit_ids_differ());
        lemma_filter_pairwise(pre.commits@, ckeep, rel_commit_keys_differ());
        lemma_filter_all(pre.commits@, ckeep, commit_id_in_range(pre.next_id));
        assert forall|i: int| 0 <= i < self.commits@.len() implies commit_id_in_range(
            self.next_id,
        )(self.commits@[i]) by {
            assert(commit_id_in_range(pre.next_id)(self.commits@[i]));
        }
        lemma_filter_pred_holds(pre.commits@, ckeep);
        lemma_filter_all(pre.commits@, ckeep, commit_branch_exists(pre.branches@));
        assert forall|i: int| 0 <= i < self.commits@.len() implies commit_branch_exists(
            self.branches@,
        )(self.commits@[i]) by {
            let c = self.commits@[i];
            assert(commit_branch_exists(pre.branches@)(c));
            let k = choose|k: int|
                0 <= k < pre.branches@.len() && pre.branches@[k].id == c.branch_id;
            assert(ckeep(c));
            assert(notkey(pre.branches@[k]));
            lemma_filter_retains(pre.branches@, notkey, k);
            let j = choose|j: int| 0 <= j < fb.len() && fb[j] == pre.branches@[k];
            assert(self.branches@[j].id == c.branch_id);
        }
        // The remaining tables are unchanged, and their identity bounds
        // only loosen as the counter grows.
        assert forall|i: int| 0 <= i < self.pull_requests@.len() implies pr_id_in_range(
            self.next_id,
        )(self.pull_requests@[i]) by {
            assert(pr_id_in_range(pre.next_id)(self.pull_requests@[i]));
        }
        assert forall|i: int| 0 <= i < self.groups@.len() implies group_id_in_range(self.next_id)(
            self.groups@[i],
        ) by {
            assert(group_id_in_range(pre.next_id)(self.groups@[i]));
        }
        assert forall|i: int| 0 <= i < self.local_roots@.len() implies root_id_in_range(
            self.next_id,
        )(self.local_roots@[i]) by {
            assert(root_id_in_range(pre.next_id)(self.local_roots@[i]));
        }
        assert forall|i: int| 0 <= i < self.local_statuses@.len() implies status_id_in_range(
            self.next_id,
        )(self.local_statuses@[i]) by {
            assert(status_id_in_range(pre.next_id)(self.local_statuses@[i]));
        }
    }

    /// The branches of one repository, in name order.
    pub fn get_branches_for_repo(&self, repo_id: &str) -> (r: Result<Vec<Branch>, Error>)
        requires
            self.wf(),
        ensures
            r is Ok,
            r->Ok_0@.to_multiset() == self.branches@.filter(branch_in_repo(repo_id@)).to_multiset(),
            sorted_rows(r->Ok_0@),
    {
        let matching = filter_rows(
            copy_branches(&self.branches),
            (|x: &Branch| -> (b: bool)
                ensures
                    b == (x.repo_id@ == repo_id@),
                { str_eq(x.repo_id.as_str(), repo_id) }),
            Ghost(branch_in_repo(repo_id@)),
        );
        Ok(sort_rows(matching))
    }

    /// Deletes every branch of the repository, and with them their
    /// commits, whose owning rows are gone.
    pub fn clear_branches_for_repo(&mut self, repo_id: &str) -> (r: Result<(), Error>)
        requires
            old(self).wf(),
        ensures
            final(self).wf(),
            r is Ok,
            final(self).branches@ == old(self).branches@.filter(branch_not_in_repo(repo_id@)),
            final(self).commits@ == old(self).commits@.filter(
                commit_not_in_repo_branches(old(self).branches@, repo_id@),
            ),
            final(self).next_id == old(self).next_id,
            Self::same_repos(*old(self), *final(self)),
            Self::same_pull_requests(*old(self), *final(self)),
            Self::same_groups(*old(self), *final(self)),
            Self::same_memberships(*old(self), *final(self)),
            Self::same_local_roots(*old(self), *final(self)),
            Self::same_local_statuses(*old(self), *final(self)),
            Self::same_config(*old(self), *final(self)),
    {
        let ghost pre = *self;
        let ghost rid: Seq<char> = repo_id@;
        let mut tmpc: Vec<Commit> = Vec::new();
        core::mem::swap(&mut tmpc, &mut self.commits);
        let branches_ref = &self.branches;
        let keptc = filter_rows(
            tmpc,
            (|x: &Commit| -> (b: bool)
                ensures
                    b == commit_not_in_repo_branches(branches_ref@, repo_id@)(*x),
                { !branch_key_present(branches_ref, x.branch_id, repo_id) }),
            Ghost(commit_not_in_repo_branches(branches_ref@, repo_id@)),
        );
        self.commits = keptc;
        let mut tmpb: Vec<Branch> = Vec::new();
        core::mem::swap(&mut tmpb, &mut self.branches);
        let keptb = filter_rows(
            tmpb,
            (|x: &Branch| -> (b: bool)
                ensures
                    b == (x.repo_id@ != repo_id@),
                { !str_eq(x.repo_id.as_str(), repo_id) }),
            Ghost(branch_not_in_repo(repo_id@)),
        );
        self.branches = keptb;
        proof {
            let bdrop = branch_not_in_repo(rid);
            let cdrop = commit_not_in_repo_branches(pre.branches@, rid);
            lemma_filter_pairwise(pre.branches@, bdrop, rel_branch_ids_differ());
            lemma_filter_pairwise(pre.branches@, bdrop, rel_branch_keys_differ());
            lemma_filter_all(pre.branches@, bdrop, branch_id_in_range(pre.next_id));
            lemma_filter_pairwise(pre.commits@, cdrop, rel_commit_ids_differ());
            lemma_filter_pairwise(pre.commits@, cdrop, rel_commit_keys_differ());
            lemma_filter_all(pre.commits@, cdrop, commit_id_in_range(pre.next_id));
            lemma_filter_pred_holds(pre.commits@, cdrop);
            lemma_filter_all(pre.commits@, cdrop, commit_branch_exists(pre.branches@));
            lemma_filter_pred_holds(pre.branches@, bdrop);
            assert forall|i: int| 0 <= i < self.commits@.len() implies commit_branch_exists(
                self.branches@,
            )(self.commits@[i]) by {
                let c = self.commits@[i];
                assert(commit_branch_exists(pre.branches@)(c));
                let k = choose|k: int|
                    0 <= k < pre.branches@.len() && pre.branches@[k].id == c.branch_id;
                assert(cdrop(c));
                assert(bdrop(pre.branches@[k]));
                lemma_filter_retains(pre.branches@, bdrop, k);
                let fb = pre.branches@.filter(bdrop);
                let j = choose|j: int| 0 <= j < fb.len() && fb[j] == pre.branches@[k];
                assert(self.branches@[j].id == c.branch_id);
            }
        }
        Ok(())
    }
}

impl Database {
    /// Creates or wholly replaces the pull-request row keyed
    /// `(repo_id, number)`, assigning it a fresh identity.
    pub fn save_pull_request(&mut self, pr: &PullRequest) -> (r: Result<i64, Error>)
        requires
            old(self).wf(),
            old(self).next_id < i64::MAX,
        ensures
            final(self).wf(),
            r is Ok,
            r->Ok_0 == old(self).next_id,
            final(self).pull_requests@ == old(self).pull_requests@.filter(
                pr_not_key(pr.repo_id@, pr.number),
            ).push(PullRequest { id: old(self).next_id, ..*pr }),
            final(self).next_id == old(self).next_id + 1,
            Self::same_repos(*old(self), *final(self)),
            Self::same_branches(*old(self), *final(self)),
            Self::same_commits(*old(self), *final(self)),
            Self::same_groups(*old(self), *final(self)),
            Self::same_memberships(*old(self), *final(self)),
            Self::same_local_roots(*old(self), *final(self)),
            Self::same_local_statuses(*old(self), *final(self)),
            Self::same_config(*old(self), *final(self)),
    {
        let ghost pre = *self;
        let mut tmp: Vec<PullRequest> = Vec::new();
        core::mem::swap(&mut tmp, &mut self.pull_requests);
        let mut kept = filter_rows(
            tmp,
            (|x: &PullRequest| -> (b: bool)
                ensures
                    b == !(x.repo_id@ == pr.repo_id@ && x.number == pr.number),
                { !(str_eq(x.repo_id.as_str(), pr.repo_id.as_str()) && x.number == pr.number) }),
            Ghost(pr_not_key(pr.repo_id@, pr.number)),
        );
        let new_id = self.next_id;
        kept.push(
            PullRequest {
                id: new_id,
                repo_id: pr.repo_id.clone(),
                branch_id: pr.branch_id,
                number: pr.number,
                state: pr.state,
                title: pr.title.clone(),
                created_at: pr.created_at,
                updated_at: pr.updated_at,
            },
        );
        self.pull_requests = kept;
        self.next_id = self.next_id + 1;
        proof {
            let notkey = pr_not_key(pr.repo_id@, pr.number);
            let f = pre.pull_requests@.filter(notkey);
            let newp = PullRequest { id: pre.next_id, ..*pr };
            lemma_filter_pairwise(pre.pull_requests@, notkey, rel_pr_ids_differ());
            lemma_filter_pairwise(pre.pull_requests@, notkey, rel_pr_keys_differ());
            lemma_filter_all(pre.pull_requests@, notkey, pr_id_in_range(pre.next_id));
            lemma_filter_pred_holds(pre.pull_requests@, notkey);
            assert forall|i: int| 0 <= i < f.len() implies rel_pr_ids_differ()(f[i], newp)
                && rel_pr_keys_differ()(f[i], newp) by {
                assert(pr_id_in_range(pre.next_id)(f[i]));
                assert(notkey(f[i]));
            }
            lemma_pairwise_push(f, newp, rel_pr_ids_differ());
            lemma_pairwise_push(f, newp, rel_pr_keys_differ());
            lemma_all_weaken(f, pr_id_in_range(pre.next_id), pr_id_in_range(self.next_id));
            lemma_all_push(f, newp, pr_id_in_range(self.next_id));
            self.lemma_counter_grew(pre);
        }
        Ok(new_id)
    }

    /// Growing the counter only loosens the identity bounds of tables
    /// whose rows are unchanged.
    proof fn lemma_counter_grew(self, pre: Database)
        requires
            pre.next_id <= self.next_id,
        ensures
            self.branches@ == pre.branches@ && all_rows(
                pre.branches@,
                branch_id_in_range(pre.next_id),
            ) ==> all_rows(self.branches@, branch_id_in_range(self.next_id)),
            self.pull_requests@ == pre.pull_requests@ && all_rows(
                pre.pull_requests@,
                pr_id_in_range(pre.next_id),
            ) ==> all_rows(self.pull_requests@, pr_id_in_range(self.next_id)),
            self.commits@ == pre.commits@ && all_rows(
                pre.commits@,
                commit_id_in_range(pre.next_id),
            ) ==> all_rows(self.commits@, commit_id_in_range(self.next_id)),
            self.groups@ == pre.groups@ && all_rows(
                pre.groups@,
                group_id_in_range(pre.next_id),
            ) ==> all_rows(self.groups@, group_id_in_range(self.next_id)),
            self.local_roots@ == pre.local_roots@ && all_rows(
                pre.local_roots@,
                root_id_in_range(pre.next_id),
            ) ==> all_rows(self.local_roots@, root_id_in_range(self.next_id)),
            self.local_statuses@ == pre.local_statuses@ && all_rows(
                pre.local_statuses@,
                status_id_in_range(pre.next_id),
            ) ==> all_rows(self.local_statuses@, status_id_in_range(self.next_id)),
    {
        if all_rows(pre.branches@, branch_id_in_range(pre.next_id)) {
            lemma_all_weaken(
                pre.branches@,
                branch_id_in_range(pre.next_id),
                branch_id_in_range(self.next_id),
            );
        }
        if all_rows(pre.pull_requests@, pr_id_in_range(pre.next_id)) {
            lemma_all_weaken(
                pre.pull_requests@,
                pr_id_in_range(pre.next_id),
                pr_id_in_range(self.next_id),
            );
        }
        if all_rows(pre.commits@, commit_id_in_range(pre.next_id)) {
            lemma_all_weaken(
                pre.commits@,
                commit_id_in_range(pre.next_id),
                commit_id_in_range(self.next_id),
            );
        }
        if all_rows(pre.groups@, group_id_in_range(pre.next_id)) {
            lemma_all_weaken(
                pre.groups@,
                group_id_in_range(pre.next_id),
                group_id_in_range(self.next_id),
            );
        }
        if all_rows(pre.local_roots@, root_id_in_range(pre.next_id)) {
            lemma_all_weaken(
                pre.local_roots@,
                root_id_in_range(pre.next_id),
                root_id_in_range(self.next_id),
            );
        }
        if all_rows(pre.local_statuses@, status_id_in_range(pre.next_id)) {
            lemma_all_weaken(
                pre.local_statuses@,
                status_id_in_range(pre.next_id),
                status_id_in_range(self.next_id),
            );
        }
    }

    /// The pull requests of one repository, highest number first.
    pub fn get_pull_requests_for_repo(&self, repo_id: &str) -> (r: Result<Vec<PullRequest>, Error>)
        requires
            self.wf(),
        ensures
            r is Ok,
            r->Ok_0@.to_multiset() == self.pull_requests@.filter(pr_in_repo(repo_id@)).to_multiset(),
            sorted_rows(r->Ok_0@),
    {
        let matching = filter_rows(
            copy_prs(&self.pull_requests),
            (|x: &PullRequest| -> (b: bool)
                ensures
                    b == (x.repo_id@ == repo_id@),
                { str_eq(x.repo_id.as_str(), repo_id) }),
            Ghost(pr_in_repo(repo_id@)),
        );
        Ok(sort_rows(matching))
    }

    /// Deletes every pull request of the repository.
    pub fn clear_pull_requests_for_repo(&mut self, repo_id: &str) -> (r: Result<(), Error>)
        requires
            old(self).wf(),
        ensures
            final(self).wf(),
            r is Ok,
            final(self).pull_requests@ == old(self).pull_requests@.filter(
                pr_not_in_repo(repo_id@),
            ),
            final(self).next_id == old(self).next_id,
            Self::same_repos(*old(self), *final(self)),
            Self::same_branches(*old(self), *final(self)),
            Self::same_commits(*old(self), *final(self)),
            Self::same_groups(*old(self), *final(self)),
            Self::same_memberships(*old(self), *final(self)),
            Self::same_local_roots(*old(self), *final(self)),
            Self::same_local_statuses(*old(self), *final(self)),
            Self::same_config(*old(self), *final(self)),
    {
        let ghost pre = *self;
        let mut tmp: Vec<PullRequest> = Vec::new();
        core::mem::swap(&mut tmp, &mut self.pull_requests);
        let kept = filter_rows(
            tmp,
            (|x: &PullRequest| -> (b: bool)
                ensures
                    b == (x.repo_id@ != repo_id@),
                { !str_eq(x.repo_id.as_str(), repo_id) }),
            Ghost(pr_not_in_repo(repo_id@)),
        );
        self.pull_requests = kept;
        proof {
            let drop = pr_not_in_repo(repo_id@);
            lemma_filter_pairwise(pre.pull_requests@, drop, rel_pr_ids_differ());
            lemma_filter_pairwise(pre.pull_requests@, drop, rel_pr_keys_differ());
            lemma_filter_all(pre.pull_requests@, drop, pr_id_in_range(pre.next_id));
        }
        Ok(())
    }

    /// Creates or wholly replaces the commit row keyed
    /// `(branch_id, sha)`, assigning it a fresh identity; fails if the
    /// branch does not exist.
    pub fn save_commit(&mut self, commit: &Commit) -> (r: Result<i64, Error>)
        requires
            old(self).wf(),
            old(self).next_id < i64::MAX,
        ensures
            final(self).wf(),
            branch_id_exists(old(self).branches@, commit.branch_id) ==> {
                &&& r is Ok
                &&& r->Ok_0 == old(self).next_id
                &&& final(self).commits@ == old(self).commits@.filter(
                    commit_not_key(commit.branch_id, commit.sha@),
                ).push(Commit { id: old(self).next_id, ..*commit })
                &&& final(self).next_id == old(self).next_id + 1
            },
            !branch_id_exists(old(self).branches@, commit.branch_id) ==> {
                &&& r is Err
                &&& final(self).commits@ == old(self).commits@
                &&& final(self).next_id == old(self).next_id
            },
            Self::same_repos(*old(self), *final(self)),
            Self::same_branches(*old(self), *final(self)),
            Self::same_pull_requests(*old(self), *final(self)),
            Self::same_groups(*old(self), *final(self)),
            Self::same_memberships(*old(self), *final(self)),
            Self::same_local_roots(*old(self), *final(self)),
            Self::same_local_statuses(*old(self), *final(self)),
            Self::same_config(*old(self), *final(self)),
    {
        let ghost pre = *self;
        let bid = commit.branch_id;
        let owner = first_match(
            &self.branches,
            (|x: &Branch| -> (b: bool)
                ensures
                    b == (x.id == commit.branch_id),
                { x.id == commit.branch_id }),
            Ghost(|x: Branch| x.id == bid),
        );
        if owner.is_none() {
            return Err(Error::Storage(String::from_str("commit references a missing branch")));
        }
        let mut tmp: Vec<Commit> = Vec::new();
        core::mem::swap(&mut tmp, &mut self.commits);
        let mut kept = filter_rows(
            tmp,
            (|x: &Commit| -> (b: bool)
                ensures
                    b == !(x.branch_id == commit.branch_id && x.sha@ == commit.sha@),
                { !(x.branch_id == commit.branch_id && str_eq(x.sha.as_str(), commit.sha.as_str())) }),
            Ghost(commit_not_key(bid, commit.sha@)),
        );
        let new_id = self.next_id;
        kept.push(
            Commit {
                id: new_id,
                branch_id: commit.branch_id,
                sha: commit.sha.clone(),
                message: commit.message.clone(),
                author_name: commit.author_name.clone(),
                author_email: commit.author_email.clone(),
                authored_date: commit.authored_date,
                committer_name: commit.committer_name.clone(),
                committer_email: commit.committer_email.clone(),
                committed_date: commit.committed_date,
            },
        );
        self.commits = kept;
        self.next_id = self.next_id + 1;
        proof {
            let notkey = commit_not_key(bid, commit.sha@);
            let f = pre.commits@.filter(notkey);
            let newc = Commit { id: pre.next_id, ..*commit };
            lemma_filter_pairwise(pre.commits@, notkey, rel_commit_ids_differ());
            lemma_filter_pairwise(pre.commits@, notkey, rel_commit_keys_differ());
            lemma_filter_all(pre.commits@, notkey, commit_id_in_range(pre.next_id));
            lemma_filter_all(pre.commits@, notkey, commit_branch_exists(pre.branches@));
            lemma_filter_pred_holds(pre.commits@, notkey);
            assert forall|i: int| 0 <= i < f.len() implies rel_commit_ids_differ()(f[i], newc)
                && rel_commit_keys_differ()(f[i], newc) by {
                assert(commit_id_in_range(pre.next_id)(f[i]));
                assert(notkey(f[i]));
            }
            lemma_pairwise_push(f, newc, rel_commit_ids_differ());
            lemma_pairwise_push(f, newc, rel_commit_keys_differ());
            lemma_all_weaken(f, commit_id_in_range(pre.next_id), commit_id_in_range(self.next_id));
            lemma_all_push(f, newc, commit_id_in_range(self.next_id));
            assert(commit_branch_exists(pre.branches@)(newc));
            lemma_all_push(f, newc, commit_branch_exists(pre.branches@));
            self.lemma_counter_grew(pre);
        }
        Ok(new_id)
    }

    /// The commits of one branch, newest first.
    pub fn get_commits_for_branch(&self, branch_id: i64) -> (r: Result<Vec<Commit>, Error>)
        requires
            self.wf(),
        ensures
            r is Ok,
            r->Ok_0@.to_multiset() == self.commits@.filter(commit_in_branch(branch_id)).to_multiset(),
            sorted_rows(r->Ok_0@),
    {
        let matching = filter_rows(
            copy_commits(&self.commits),
            (|x: &Commit| -> (b: bool)
                ensures
                    b == (x.branch_id == branch_id),
                { x.branch_id == branch_id }),
            Ghost(commit_in_branch(branch_id)),
        );
        Ok(sort_rows(matching))
    }

    /// Deletes every commit of the branch.
    pub fn clear_commits_for_branch(&mut self, branch_id: i64) -> (r: Result<(), Error>)
        requires
            old(self).wf(),
        ensures
            final(self).wf(),
            r is Ok,
            final(self).commits@ == old(self).commits@.filter(commit_not_in_branch(branch_id)),
            final(self).next_id == old(self).next_id,
            Self::same_repos(*old(self), *final(self)),
            Self::same_branches(*old(self), *final(self)),
            Self::same_pull_requests(*old(self), *final(self)),
            Self::same_groups(*old(self), *final(self)),
            Self::same_memberships(*old(self), *final(self)),
            Self::same_local_roots(*old(self), *final(self)),
            Self::same_local_statuses(*old(self), *final(self)),
            Self::same_config(*old(self), *final(self)),
    {
        let ghost pre = *self;
        let mut tmp: Vec<Commit> = Vec::new();
        core::mem::swap(&mut tmp, &mut self.commits);
        let kept = filter_rows(
            tmp,
            (|x: &Commit| -> (b: bool)
                ensures
                    b == (x.branch_id != branch_id),
                { x.branch_id != branch_id }),
            Ghost(commit_not_in_branch(branch_id)),
        );
        self.commits = kept;
        proof {
            let drop = commit_not_in_branch(branch_id);
            lemma_filter_pairwise(pre.commits@, drop, rel_commit_ids_differ());
            lemma_filter_pairwise(pre.commits@, drop, rel_commit_keys_differ());
            lemma_filter_all(pre.commits@, drop, commit_id_in_range(pre.next_id));
            lemma_filter_all(pre.commits@, drop, commit_branch_exists(pre.branches@));
        }
        Ok(())
    }
}

/// Rows that will become one repository's branch set carry distinct
/// names.
pub open spec fn rel_branch_names_differ() -> spec_fn(Branch, Branch) -> bool {
    |a: Branch, b: Branch| a.name@ != b.name@
}

/// Rows that will become one repository's pull-request set carry
/// distinct numbers.
pub open spec fn rel_pr_numbers_differ() -> spec_fn(PullRequest, PullRequest) -> bool {
    |a: PullRequest, b: PullRequest| a.number != b.number
}

/// Rows that will become one branch's commit set carry distinct hashes.
pub open spec fn rel_commit_shas_differ() -> spec_fn(Commit, Commit) -> bool {
    |a: Commit, b: Commit| a.sha@ != b.sha@
}

/// `row` is the freshly numbered copy of `src` inserted for repository
/// `rid` at offset `i` of a wholesale replacement starting at `base`.
pub open spec fn inserted_branch_row(
    row: Branch,
    base: i64,
    i: int,
    src: Branch,
    rid: Seq<char>,
) -> bool {
    &&& row.id == base + i
    &&& row.repo_id@ == rid
    &&& row.name@ == src.name@
    &&& row.sha@ == src.sha@
    &&& row.ahead_by == src.ahead_by
    &&& row.behind_by == src.behind_by
    &&& row.status == src.status
    &&& row.last_commit_date == src.last_commit_date
}

impl Database {
    /// Deletes all branches of the repository and inserts the given set
    /// in its place, each with a fresh identity; the returned identities
    /// are usable to attach commits. Commits of the deleted branches are
    /// removed with them.
    pub fn replace_branches(&mut self, repo_id: &str, branches: Vec<Branch>) -> (r: Result<
        Vec<i64>,
        Error,
    >)
        requires
            old(self).wf(),
            pairwise(branches@, rel_branch_names_differ()),
            old(self).next_id + branches@.len() <= i64::MAX,
        ensures
            final(self).wf(),
            r is Ok,
            r->Ok_0@.len() == branches@.len(),
            forall|i: int| 0 <= i < branches@.len() ==> r->Ok_0@[i] == old(self).next_id + i,
            final(self).branches@.len() == old(self).branches@.filter(
                branch_not_in_repo(repo_id@),
            ).len() + branches@.len(),
            forall|i: int|
                0 <= i < old(self).branches@.filter(branch_not_in_repo(repo_id@)).len()
                    ==> #[trigger] final(self).branches@[i] == old(self).branches@.filter(
                    branch_not_in_repo(repo_id@),
                )[i],
            forall|i: int|
                0 <= i < branches@.len() ==> inserted_branch_row(
                    #[trigger] final(self).branches@[old(self).branches@.filter(
                        branch_not_in_repo(repo_id@),
                    ).len() + i],
                    old(self).next_id,
                    i,
                    branches@[i],
                    repo_id@,
                ),
            final(self).commits@ == old(self).commits@.filter(
                commit_not_in_repo_branches(old(self).branches@, repo_id@),
            ),
            final(self).next_id == old(self).next_id + branches@.len(),
            Self::same_repos(*old(self), *final(self)),
            Self::same_pull_requests(*old(self), *final(self)),
            Self::same_groups(*old(self), *final(self)),
            Self::same_memberships(*old(self), *final(self)),
            Self::same_local_roots(*old(self), *final(self)),
            Self::same_local_statuses(*old(self), *final(self)),
            Self::same_config(*old(self), *final(self)),
    {
        let ghost pre = *self;
        let ghost n = branches@.len() as int;
        let ghost rid: Seq<char> = repo_id@;
        let ghost kept = pre.branches@.filter(branch_not_in_repo(rid));
        let _cleared = self.clear_branches_for_repo(repo_id);
        proof {
            lemma_filter_pred_holds(pre.branches@, branch_not_in_repo(rid));
        }
        let input = branches;
        let mut ids: Vec<i64> = Vec::new();
        let mut i: usize = 0;
        while i < input.len()
            invariant
                self.wf(),
                pairwise(input@, rel_branch_names_differ()),
                pre.next_id + n <= i64::MAX,
                i <= n,
                n == input@.len(),
                rid == repo_id@,
                kept == pre.branches@.filter(branch_not_in_repo(rid)),
                all_rows(kept, branch_not_in_repo(rid)),
                self.next_id == pre.next_id + i,
                ids@.len() == i,
                forall|j: int| 0 <= j < i ==> ids@[j] == pre.next_id + j,
                self.branches@.len() == kept.len() + i,
                forall|j: int| 0 <= j < kept.len() ==> #[trigger] self.branches@[j] == kept[j],
                forall|j: int|
                    0 <= j < i ==> inserted_branch_row(
                        #[trigger] self.branches@[kept.len() + j],
                        pre.next_id,
                        j,
                        input@[j],
                        rid,
                    ),
                self.commits@ == pre.commits@.filter(
                    commit_not_in_repo_branches(pre.branches@, rid),
                ),
                self.repos@ == pre.repos@,
                self.pull_requests@ == pre.pull_requests@,
                self.groups@ == pre.groups@,
                self.memberships@ == pre.memberships@,
                self.local_roots@ == pre.local_roots@,
                self.local_statuses@ == pre.local_statuses@,
                self.config_entries@ == pre.config_entries@,
            decreases n - i,
        {
            let src = &input[i];
            let row = Branch {
                id: 0,
                repo_id: String::from_str(repo_id),
                name: src.name.clone(),
                sha: src.sha.clone(),
                ahead_by: src.ahead_by,
                behind_by: src.behind_by,
                status: src.status,
                last_commit_date: src.last_commit_date,
            };
            let ghost before = *self;
            proof {
                assert forall|t: int| 0 <= t < before.branches@.len() implies branch_not_key(
                    row.repo_id@,
                    row.name@,
                )(before.branches@[t]) by {
                    if t < kept.len() {
                        assert(branch_not_in_repo(rid)(kept[t]));
                    } else {
                        let j = t - kept.len();
                        assert(inserted_branch_row(
                            before.branches@[kept.len() + j],
                            pre.next_id,
                            j,
                            input@[j],
                            rid,
                        ));
                        assert(rel_branch_names_differ()(input@[j], input@[i as int]));
                    }
                }
            }
            let id = match self.save_branch(&row) {
                Ok(id) => id,
                Err(_) => {
                    proof {
                        assert(false);
                    }
                    0
                },
            };
            proof {
                lemma_filter_id(before.branches@, branch_not_key(row.repo_id@, row.name@));
                assert forall|t: int| 0 <= t < before.commits@.len() implies
                    commit_not_of_branch_key(before.branches@, row.repo_id@, row.name@)(
                    before.commits@[t],
                ) by {
                    let c = before.commits@[t];
                    if exists|k: int|
                        0 <= k < before.branches@.len() && before.branches@[k].repo_id@
                            == row.repo_id@ && before.branches@[k].name@ == row.name@
                            && before.branches@[k].id == c.branch_id {
                        let k = choose|k: int|
                            0 <= k < before.branches@.len() && before.branches@[k].repo_id@
                                == row.repo_id@ && before.branches@[k].name@ == row.name@
                                && before.branches@[k].id == c.branch_id;
                        assert(branch_not_key(row.repo_id@, row.name@)(before.branches@[k]));
                        assert(false);
                    }
                }
                lemma_filter_id(
                    before.commits@,
                    commit_not_of_branch_key(before.branches@, row.repo_id@, row.name@),
                );
            }
            ids.push(id);
            i += 1;
        }
        Ok(ids)
    }
}

/// `row` is the freshly numbered copy of `src` inserted for repository
/// `rid` at offset `i` of a wholesale replacement starting at `base`.
pub open spec fn inserted_pr_row(
    row: PullRequest,
    base: i64,
    i: int,
    src: PullRequest,
    rid: Seq<char>,
) -> bool {
    &&& row.id == base + i
    &&& row.repo_id@ == rid
    &&& row.branch_id == src.branch_id
    &&& row.number == src.number
    &&& row.state == src.state
    &&& row.title@ == src.title@
    &&& row.created_at == src.created_at
    &&& row.updated_at == src.updated_at
}

/// `row` is the freshly numbered copy of `src` inserted for branch
/// `bid` at offset `i` of a wholesale replacement starting at `base`.
pub open spec fn inserted_commit_row(row: Commit, base: i64, i: int, src: Commit, bid: i64) -> bool {
    &&& row.id == base + i
    &&& row.branch_id == bid
    &&& row.sha@ == src.sha@
    &&& row.message@ == src.message@
    &&& row.author_name@ == src.author_name@
    &&& row.author_email@ == src.author_email@
    &&& row.authored_date == src.authored_date
    &&& row.committer_name@ == src.committer_name@
    &&& row.committer_email@ == src.committer_email@
    &&& row.committed_date == src.committed_date
}

impl Database {
    /// Deletes all pull requests of the repository and inserts the given
    /// set in its place, each with a fresh identity.
    pub fn replace_pull_requests(&mut self, repo_id: &str, prs: Vec<PullRequest>) -> (r: Result<
        Vec<i64>,
        Error,
    >)
        requires
            old(self).wf(),
            pairwise(prs@, rel_pr_numbers_differ()),
            old(self).next_id + prs@.len() <= i64::MAX,
        ensures
            final(self).wf(),
            r is Ok,
            r->Ok_0@.len() == prs@.len(),
            forall|i: int| 0 <= i < prs@.len() ==> r->Ok_0@[i] == old(self).next_id + i,
            final(self).pull_requests@.len() == old(self).pull_requests@.filter(
                pr_not_in_repo(repo_id@),
            ).len() + prs@.len(),
            forall|i: int|
                0 <= i < old(self).pull_requests@.filter(pr_not_in_repo(repo_id@)).len()
                    ==> #[trigger] final(self).pull_requests@[i] == old(self).pull_requests@.filter(
                    pr_not_in_repo(repo_id@),
                )[i],
            forall|i: int|
                0 <= i < prs@.len() ==> inserted_pr_row(
                    #[trigger] final(self).pull_requests@[old(self).pull_requests@.filter(
                        pr_not_in_repo(repo_id@),
                    ).len() + i],
                    old(self).next_id,
                    i,
                    prs@[i],
                    repo_id@,
                ),
            final(self).next_id == old(self).next_id + prs@.len(),
            Self::same_repos(*old(self), *final(self)),
            Self::same_branches(*old(self), *final(self)),
            Self::same_commits(*old(self), *final(self)),
            Self::same_groups(*old(self), *final(self)),
            Self::same_memberships(*old(self), *final(self)),
            Self::same_local_roots(*old(self), *final(self)),
            Self::same_local_statuses(*old(self), *final(self)),
            Self::same_config(*old(self), *final(self)),
    {
        let ghost pre = *self;
        let ghost n = prs@.len() as int;
        let ghost rid: Seq<char> = repo_id@;
        let ghost kept = pre.pull_requests@.filter(pr_not_in_repo(rid));
        let _cleared = self.clear_pull_requests_for_repo(repo_id);
        proof {
            lemma_filter_pred_holds(pre.pull_requests@, pr_not_in_repo(rid));
        }
        let input = prs;
        let mut ids: Vec<i64> = Vec::new();
        let mut i: usize = 0;
        while i < input.len()
            invariant
                self.wf(),
                pairwise(input@, rel_pr_numbers_differ()),
                pre.next_id + n <= i64::MAX,
                i <= n,
                n == input@.len(),
                rid == repo_id@,
                kept == pre.pull_requests@.filter(pr_not_in_repo(rid)),
                all_rows(kept, pr_not_in_repo(rid)),
                self.next_id == pre.next_id + i,
                ids@.len() == i,
                forall|j: int| 0 <= j < i ==> ids@[j] == pre.next_id + j,
                self.pull_requests@.len() == kept.len() + i,
                forall|j: int| 0 <= j < kept.len() ==> #[trigger] self.pull_requests@[j] == kept[j],
                forall|j: int|
                    0 <= j < i ==> inserted_pr_row(
                        #[trigger] self.pull_requests@[kept.len() + j],
                        pre.next_id,
                        j,
                        input@[j],
                        rid,
                    ),
                self.repos@ == pre.repos@,
                self.branches@ == pre.branches@,
                self.commits@ == pre.commits@,
                self.groups@ == pre.groups@,
                self.memberships@ == pre.memberships@,
                self.local_roots@ == pre.local_roots@,
                self.local_statuses@ == pre.local_statuses@,
                self.config_entries@ == pre.config_entries@,
            decreases n - i,
        {
            let src = &input[i];
            let row = PullRequest {
                id: 0,
                repo_id: String::from_str(repo_id),
                branch_id: src.branch_id,
                number: src.number,
                state: src.state,
                title: src.title.clone(),
                created_at: src.created_at,
                updated_at: src.updated_at,
            };
            let ghost before = *self;
            proof {
                assert forall|t: int| 0 <= t < before.pull_requests@.len() implies pr_not_key(
                    row.repo_id@,
                    row.number,
                )(before.pull_requests@[t]) by {
                    if t < kept.len() {
                        assert(pr_not_in_repo(rid)(kept[t]));
                    } else {
                        let j = t - kept.len();
                        assert(inserted_pr_row(
                            before.pull_requests@[kept.len() + j],
                            pre.next_id,
                            j,
                            input@[j],
                            rid,
                        ));
                        assert(rel_pr_numbers_differ()(input@[j], input@[i as int]));
                    }
                }
            }
            let id = match self.save_pull_request(&row) {
                Ok(id) => id,
                Err(_) => {
                    proof {
                        assert(false);
                    }
                    0
                },
            };
            proof {
                lemma_filter_id(before.pull_requests@, pr_not_key(row.repo_id@, row.number));
            }
            ids.push(id);
            i += 1;
        }
        Ok(ids)
    }

    /// Deletes all commits of the branch and inserts the given set in
    /// its place, each with a fresh identity; fails if the branch does
    /// not exist.
    pub fn replace_commits(&mut self, branch_id: i64, commits: Vec<Commit>) -> (r: Result<
        Vec<i64>,
        Error,
    >)
        requires
            old(self).wf(),
            pairwise(commits@, rel_commit_shas_differ()),
            old(self).next_id + commits@.len() <= i64::MAX,
        ensures
            final(self).wf(),
            !branch_id_exists(old(self).branches@, branch_id) ==> {
                &&& r is Err
                &&& final(self).commits@ == old(self).commits@
                &&& final(self).next_id == old(self).next_id
            },
            branch_id_exists(old(self).branches@, branch_id) ==> {
                &&& r is Ok
                &&& r->Ok_0@.len() == commits@.len()
                &&& forall|i: int| 0 <= i < commits@.len() ==> r->Ok_0@[i] == old(self).next_id + i
                &&& final(self).commits@.len() == old(self).commits@.filter(
                    commit_not_in_branch(branch_id),
                ).len() + commits@.len()
                &&& forall|i: int|
                    0 <= i < old(self).commits@.filter(commit_not_in_branch(branch_id)).len()
                        ==> #[trigger] final(self).commits@[i] == old(self).commits@.filter(
                        commit_not_in_branch(branch_id),
                    )[i]
                &&& forall|i: int|
                    0 <= i < commits@.len() ==> inserted_commit_row(
                        #[trigger] final(self).commits@[old(self).commits@.filter(
                            commit_not_in_branch(branch_id),
                        ).len() + i],
                        old(self).next_id,
                        i,
                        commits@[i],
                        branch_id,
                    )
                &&& final(self).next_id == old(self).next_id + commits@.len()
            },
            Self::same_repos(*old(self), *final(self)),
            Self::same_branches(*old(self), *final(self)),
            Self::same_pull_requests(*old(self), *final(self)),
            Self::same_groups(*old(self), *final(self)),
            Self::same_memberships(*old(self), *final(self)),
            Self::same_local_roots(*old(self), *final(self)),
            Self::same_local_statuses(*old(self), *final(self)),
            Self::same_config(*old(self), *final(self)),
    {
        let ghost pre = *self;
        let ghost n = commits@.len() as int;
        let ghost kept = pre.commits@.filter(commit_not_in_branch(branch_id));
        let owner = first_match(
            &self.branches,
            (|x: &Branch| -> (b: bool)
                ensures
                    b == (x.id == branch_id),
                { x.id == branch_id }),
            Ghost(|x: Branch| x.id == branch_id),
        );
        if owner.is_none() {
            proof {
                if branch_id_exists(pre.branches@, branch_id) {
                    let k = choose|k: int|
                        0 <= k < pre.branches@.len() && pre.branches@[k].id == branch_id;
                    assert(false);
                }
            }
            return Err(Error::Storage(String::from_str("no such branch")));
        }
        let _cleared = self.clear_commits_for_branch(branch_id);
        proof {
            lemma_filter_pred_holds(pre.commits@, commit_not_in_branch(branch_id));
        }
        let input = commits;
        let mut ids: Vec<i64> = Vec::new();
        let mut i: usize = 0;
        while i < input.len()
            invariant
                self.wf(),
                pairwise(input@, rel_commit_shas_differ()),
                pre.next_id + n <= i64::MAX,
                i <= n,
                n == input@.len(),
                branch_id_exists(self.branches@, branch_id),
                kept == pre.commits@.filter(commit_not_in_branch(branch_id)),
                all_rows(kept, commit_not_in_branch(branch_id)),
                self.next_id == pre.next_id + i,
                ids@.len() == i,
                forall|j: int| 0 <= j < i ==> ids@[j] == pre.next_id + j,
                self.commits@.len() == kept.len() + i,
                forall|j: int| 0 <= j < kept.len() ==> #[trigger] self.commits@[j] == kept[j],
                forall|j: int|
                    0 <= j < i ==> inserted_commit_row(
                        #[trigger] self.commits@[kept.len() + j],
                        pre.next_id,
                        j,
                        input@[j],
                        branch_id,
                    ),
                self.repos@ == pre.repos@,
                self.branches@ == pre.branches@,
                self.pull_requests@ == pre.pull_requests@,
                self.groups@ == pre.groups@,
                self.memberships@ == pre.memberships@,
                self.local_roots@ == pre.local_roots@,
                self.local_statuses@ == pre.local_statuses@,
                self.config_entries@ == pre.config_entries@,
            decreases n - i,
        {
            let src = &input[i];
            let row = Commit {
                id: 0,
                branch_id,
                sha: src.sha.clone(),
                message: src.message.clone(),
                author_name: src.author_name.clone(),
                author_email: src.author_email.clone(),
                authored_date: src.authored_date,
                committer_name: src.committer_name.clone(),
                committer_email: src.committer_email.clone(),
                committed_date: src.committed_date,
            };
            let ghost before = *self;
            proof {
                assert forall|t: int| 0 <= t < before.commits@.len() implies commit_not_key(
                    branch_id,
                    row.sha@,
                )(before.commits@[t]) by {
                    if t < kept.len() {
                        assert(commit_not_in_branch(branch_id)(kept[t]));
                    } else {
                        let j = t - kept.len();
                        assert(inserted_commit_row(
                            before.commits@[kept.len() + j],
                            pre.next_id,
                            j,
                            input@[j],
                            branch_id,
                        ));
                        assert(rel_commit_shas_differ()(input@[j], input@[i as int]));
                    }
                }
            }
            let id = match self.save_commit(&row) {
                Ok(id) => id,
                Err(_) => {
                    proof {
                        assert(false);
                    }
                    0
                },
            };
            proof {
                lemma_filter_id(before.commits@, commit_not_key(branch_id, row.sha@));
            }
            ids.push(id);
            i += 1;
        }
        Ok(ids)
    }
}

/// The greatest display order among the groups, or -1 of none.
pub open spec fn max_display_order(gs: Seq<Group>) -> int
    decreases gs.len(),
{
    if gs.len() == 0 {
        -1
    } else {
        let m = max_display_order(gs.drop_last());
        if gs.last().display_order >= m {
            gs.last().display_order as int
        } else {
            m
        }
    }
}

impl Database {
    /// Overwrites the cached status of the branch with this identity, if
    /// present; the status is a cache recomputed on every sync, never
    /// authoritative input.
    pub fn set_branch_status(&mut self, branch_id: i64, status: BranchStatus) -> (r: Result<
        (),
        Error,
    >)
        requires
            old(self).wf(),
        ensures
            final(self).wf(),
            r is Ok,
            final(self).branches@.len() == old(self).branches@.len(),
            forall|i: int|
                0 <= i < old(self).branches@.len() ==> #[trigger] final(self).branches@[i] == if old(
                    self,
                ).branches@[i].id == branch_id {
                    Branch { status, ..old(self).branches@[i] }
                } else {
                    old(self).branches@[i]
                },
            final(self).next_id == old(self).next_id,
            Self::same_repos(*old(self), *final(self)),
            Self::same_pull_requests(*old(self), *final(self)),
            Self::same_commits(*old(self), *final(self)),
            Self::same_groups(*old(self), *final(self)),
            Self::same_memberships(*old(self), *final(self)),
            Self::same_local_roots(*old(self), *final(self)),
            Self::same_local_statuses(*old(self), *final(self)),
            Self::same_config(*old(self), *final(self)),
    {
        let ghost pre = *self;
        let mut out: Vec<Branch> = Vec::new();
        let mut i: usize = 0;
        while i < self.branches.len()
            invariant
                i <= self.branches@.len(),
                out@.len() == i,
                forall|j: int|
                    0 <= j < i ==> #[trigger] out@[j] == if self.branches@[j].id == branch_id {
                        Branch { status, ..self.branches@[j] }
                    } else {
                        self.branches@[j]
                    },
            decreases self.branches@.len() - i,
        {
            let b = &self.branches[i];
            if b.id == branch_id {
                out.push(
                    Branch {
                        id: b.id,
                        repo_id: b.repo_id.clone(),
                        name: b.name.clone(),
                        sha: b.sha.clone(),
                        ahead_by: b.ahead_by,
                        behind_by: b.behind_by,
                        status,
                        last_commit_date: b.last_commit_date,
                    },
                );
            } else {
                out.push(b.clone());
            }
            i += 1;
        }
        self.branches = out;
        proof {
            assert forall|p: int, q: int| 0 <= p < q < self.branches@.len() implies
                rel_branch_ids_differ()(self.branches@[p], self.branches@[q])
                && rel_branch_keys_differ()(self.branches@[p], self.branches@[q]) by {
                assert(rel_branch_ids_differ()(pre.branches@[p], pre.branches@[q]));
                assert(rel_branch_keys_differ()(pre.branches@[p], pre.branches@[q]));
            }
            assert forall|p: int| 0 <= p < self.branches@.len() implies branch_id_in_range(
                self.next_id,
            )(self.branches@[p]) by {
                assert(branch_id_in_range(pre.next_id)(pre.branches@[p]));
            }
            assert forall|p: int| 0 <= p < self.commits@.len() implies commit_branch_exists(
                self.branches@,
            )(self.commits@[p]) by {
                let c = self.commits@[p];
                assert(commit_branch_exists(pre.branches@)(c));
                let k = choose|k: int|
                    0 <= k < pre.branches@.len() && pre.branches@[k].id == c.branch_id;
                assert(self.branches@[k].id == c.branch_id);
            }
        }
        Ok(())
    }

    /// Creates a group under the next display order: one past the
    /// greatest in use, or 0 for the first group. A store whose orders
    /// have reached the greatest representable value is full.
    pub fn create_group_with_next_order(&mut self, name: &str) -> (r: Result<i64, Error>)
        requires
            old(self).wf(),
            old(self).next_id < i64::MAX,
        ensures
            final(self).wf(),
            max_display_order(old(self).groups@) >= i32::MAX ==> {
                &&& r is Err
                &&& final(self).groups@ == old(self).groups@
                &&& final(self).next_id == old(self).next_id
            },
            max_display_order(old(self).groups@) < i32::MAX ==> {
                &&& r is Ok
                &&& r->Ok_0 == old(self).next_id
                &&& final(self).groups@ == old(self).groups@.push(final(self).groups@.last())
                &&& final(self).groups@.last().id == old(self).next_id
                &&& final(self).groups@.last().name@ == name@
                &&& final(self).groups@.last().display_order == max_display_order(
                    old(self).groups@,
                ) + 1
                &&& final(self).next_id == old(self).next_id + 1
            },
            Self::same_repos(*old(self), *final(self)),
            Self::same_branches(*old(self), *final(self)),
            Self::same_pull_requests(*old(self), *final(self)),
            Self::same_commits(*old(self), *final(self)),
            Self::same_memberships(*old(self), *final(self)),
            Self::same_local_roots(*old(self), *final(self)),
            Self::same_local_statuses(*old(self), *final(self)),
            Self::same_config(*old(self), *final(self)),
    {
        let mut max_order: i32 = -1;
        let mut i: usize = 0;
        proof {
            assert(self.groups@.take(0) =~= Seq::<Group>::empty());
        }
        while i < self.groups.len()
            invariant
                i <= self.groups@.len(),
                max_order as int == max_display_order(self.groups@.take(i as int)),
            decreases self.groups@.len() - i,
        {
            proof {
                assert(self.groups@.take(i + 1).drop_last() =~= self.groups@.take(i as int));
                assert(self.groups@.take(i + 1).last() == self.groups@[i as int]);
            }
            let order = self.groups[i].display_order;
            if order > max_order {
                max_order = order;
            }
            i += 1;
        }
        proof {
            assert(self.groups@.take(self.groups@.len() as int) =~= self.groups@);
        }
        if max_order == i32::MAX {
            return Err(Error::Storage(String::from_str("display orders exhausted")));
        }
        self.create_group(name, max_order + 1)
    }
}

/// A repository with this identity is present.
pub open spec fn repo_id_exists(rs: Seq<Repository>, id: Seq<char>) -> bool {
    exists|k: int| 0 <= k < rs.len() && rs[k].id@ == id
}

/// A group with this identity is present.
pub open spec fn group_id_exists(gs: Seq<Group>, gid: i64) -> bool {
    exists|k: int| 0 <= k < gs.len() && gs[k].id == gid
}

/// The repository belongs to some group.
pub open spec fn repo_grouped(ms: Seq<Membership>, rid: Seq<char>) -> bool {
    exists|k: int| 0 <= k < ms.len() && ms[k].repo_id@ == rid
}

/// The repository belongs to this group.
pub open spec fn repo_in_group(ms: Seq<Membership>, rid: Seq<char>, gid: i64) -> bool {
    exists|k: int| 0 <= k < ms.len() && ms[k].repo_id@ == rid && ms[k].group_id == gid
}

/// The repository is a member of group `gid`.
pub open spec fn member_of_group(ms: Seq<Membership>, gid: i64) -> spec_fn(Repository) -> bool {
    |r: Repository| repo_in_group(ms, r.id@, gid)
}

/// The repository belongs to no group.
pub open spec fn ungrouped(ms: Seq<Membership>) -> spec_fn(Repository) -> bool {
    |r: Repository| !repo_grouped(ms, r.id@)
}

impl Database {
    /// Creates a group under the given name and display order; duplicate
    /// names are legal.
    pub fn create_group(&mut self, name: &str, display_order: i32) -> (r: Result<i64, Error>)
        requires
            old(self).wf(),
            old(self).next_id < i64::MAX,
        ensures
            final(self).wf(),
            r is Ok,
            r->Ok_0 == old(self).next_id,
            final(self).groups@ == old(self).groups@.push(final(self).groups@.last()),
            final(self).groups@.last().id == old(self).next_id,
            final(self).groups@.last().name@ == name@,
            final(self).groups@.last().display_order == display_order,
            final(self).next_id == old(self).next_id + 1,
            Self::same_repos(*old(self), *final(self)),
            Self::same_branches(*old(self), *final(self)),
            Self::same_pull_requests(*old(self), *final(self)),
            Self::same_commits(*old(self), *final(self)),
            Self::same_memberships(*old(self), *final(self)),
            Self::same_local_roots(*old(self), *final(self)),
            Self::same_local_statuses(*old(self), *final(self)),
            Self::same_config(*old(self), *final(self)),
    {
        let ghost pre = *self;
        let new_id = self.next_id;
        let created = now_millis();
        self.groups.push(
            Group {
                id: new_id,
                name: String::from_str(name),
                display_order,
                created_at: created,
            },
        );
        self.next_id = self.next_id + 1;
        proof {
            let g = self.groups@.last();
            assert forall|i: int| 0 <= i < pre.groups@.len() implies rel_group_ids_differ()(
                pre.groups@[i],
                g,
            ) by {
                assert(group_id_in_range(pre.next_id)(pre.groups@[i]));
            }
            lemma_pairwise_push(pre.groups@, g, rel_group_ids_differ());
            lemma_all_weaken(
                pre.groups@,
                group_id_in_range(pre.next_id),
                group_id_in_range(self.next_id),
            );
            lemma_all_push(pre.groups@, g, group_id_in_range(self.next_id));
            self.lemma_counter_grew(pre);
            assert forall|i: int| 0 <= i < self.memberships@.len() implies mem_refs_exist(
                self.repos@,
                self.groups@,
            )(self.memberships@[i]) by {
                let m = self.memberships@[i];
                assert(mem_refs_exist(pre.repos@, pre.groups@)(m));
                let j = choose|j: int| 0 <= j < pre.groups@.len() && pre.groups@[j].id == m.group_id;
                assert(self.groups@[j].id == m.group_id);
            }
        }
        Ok(new_id)
    }

    /// All groups, in display order.
    pub fn get_all_groups(&self) -> (r: Result<Vec<Group>, Error>)
        requires
            self.wf(),
        ensures
            r is Ok,
            r->Ok_0@.to_multiset() == self.groups@.to_multiset(),
            sorted_rows(r->Ok_0@),
    {
        Ok(sort_rows(copy_groups(&self.groups)))
    }

    /// Renames the group with this identity, if present.
    pub fn rename_group(&mut self, group_id: i64, new_name: &str) -> (r: Result<(), Error>)
        requires
            old(self).wf(),
        ensures
            final(self).wf(),
            r is Ok,
            final(self).groups@.len() == old(self).groups@.len(),
            forall|i: int|
                0 <= i < old(self).groups@.len() ==> #[trigger] final(self).groups@[i].id == old(
                    self,
                ).groups@[i].id && final(self).groups@[i].display_order == old(
                    self,
                ).groups@[i].display_order && final(self).groups@[i].created_at == old(
                    self,
                ).groups@[i].created_at && final(self).groups@[i].name@ == if old(
                    self,
                ).groups@[i].id == group_id {
                    new_name@
                } else {
                    old(self).groups@[i].name@
                },
            final(self).next_id == old(self).next_id,
            Self::same_repos(*old(self), *final(self)),
            Self::same_branches(*old(self), *final(self)),
            Self::same_pull_requests(*old(self), *final(self)),
            Self::same_commits(*old(self), *final(self)),
            Self::same_memberships(*old(self), *final(self)),
            Self::same_local_roots(*old(self), *final(self)),
            Self::same_local_statuses(*old(self), *final(self)),
            Self::same_config(*old(self), *final(self)),
    {
        let ghost pre = *self;
        let mut out: Vec<Group> = Vec::new();
        let mut i: usize = 0;
        while i < self.groups.len()
            invariant
                i <= self.groups@.len(),
                out@.len() == i,
                forall|j: int|
                    0 <= j < i ==> #[trigger] out@[j].id == self.groups@[j].id
                        && out@[j].display_order == self.groups@[j].display_order
                        && out@[j].created_at == self.groups@[j].created_at && out@[j].name@ == if self.groups@[j].id
                        == group_id {
                        new_name@
                    } else {
                        self.groups@[j].name@
                    },
            decreases self.groups@.len() - i,
        {
            let g = &self.groups[i];
            if g.id == group_id {
                out.push(
                    Group {
                        id: g.id,
                        name: String::from_str(new_name),
                        display_order: g.display_order,
                        created_at: g.created_at,
                    },
                );
            } else {
                out.push(g.clone());
            }
            i += 1;
        }
        self.groups = out;
        proof {
            assert forall|p: int, q: int| 0 <= p < q < self.groups@.len() implies
                rel_group_ids_differ()(self.groups@[p], self.groups@[q]) by {
                assert(rel_group_ids_differ()(pre.groups@[p], pre.groups@[q]));
            }
            assert forall|p: int| 0 <= p < self.groups@.len() implies group_id_in_range(
                self.next_id,
            )(self.groups@[p]) by {
                assert(group_id_in_range(pre.next_id)(pre.groups@[p]));
            }
            assert forall|p: int| 0 <= p < self.memberships@.len() implies mem_refs_exist(
                self.repos@,
                self.groups@,
            )(self.memberships@[p]) by {
                let m = self.memberships@[p];
                assert(mem_refs_exist(pre.repos@, pre.groups@)(m));
                let j = choose|j: int| 0 <= j < pre.groups@.len() && pre.groups@[j].id == m.group_id;
                assert(self.groups@[j].id == m.group_id);
            }
        }
        Ok(())
    }

    /// Adds the repository to the group. A repository already in some
    /// group keeps its existing membership unchanged; a missing
    /// repository or group is a storage error.
    pub fn add_repo_to_group(&mut self, repo_id: &str, group_id: i64) -> (r: Result<(), Error>)
        requires
            old(self).wf(),
        ensures
            final(self).wf(),
            !(repo_id_exists(old(self).repos@, repo_id@) && group_id_exists(
                old(self).groups@,
                group_id,
            )) ==> {
                &&& r is Err
                &&& final(self).memberships@ == old(self).memberships@
            },
            (repo_id_exists(old(self).repos@, repo_id@) && group_id_exists(
                old(self).groups@,
                group_id,
            ) && repo_grouped(old(self).memberships@, repo_id@)) ==> {
                &&& r is Ok
                &&& final(self).memberships@ == old(self).memberships@
            },
            (repo_id_exists(old(self).repos@, repo_id@) && group_id_exists(
                old(self).groups@,
                group_id,
            ) && !repo_grouped(old(self).memberships@, repo_id@)) ==> {
                &&& r is Ok
                &&& final(self).memberships@ == old(self).memberships@.push(
                    final(self).memberships@.last(),
                )
                &&& final(self).memberships@.last().repo_id@ == repo_id@
                &&& final(self).memberships@.last().group_id == group_id
            },
            final(self).next_id == old(self).next_id,
            Self::same_repos(*old(self), *final(self)),
            Self::same_branches(*old(self), *final(self)),
            Self::same_pull_requests(*old(self), *final(self)),
            Self::same_commits(*old(self), *final(self)),
            Self::same_groups(*old(self), *final(self)),
            Self::same_local_roots(*old(self), *final(self)),
            Self::same_local_statuses(*old(self), *final(self)),
            Self::same_config(*old(self), *final(self)),
    {
        let ghost pre = *self;
        if !repo_id_present(&self.repos, repo_id) {
            return Err(Error::Storage(String::from_str("no such repository")));
        }
        if !group_id_present(&self.groups, group_id) {
            return Err(Error::Storage(String::from_str("no such group")));
        }
        if membership_repo_present(&self.memberships, repo_id) {
            return Ok(());
        }
        let added = now_millis();
        self.memberships.push(
            Membership { repo_id: String::from_str(repo_id), group_id, added_at: added },
        );
        proof {
            let m = self.memberships@.last();
            assert forall|i: int| 0 <= i < pre.memberships@.len() implies rel_mem_repos_differ()(
                pre.memberships@[i],
                m,
            ) by {
                assert(!repo_grouped(pre.memberships@, repo_id@));
            }
            lemma_pairwise_push(pre.memberships@, m, rel_mem_repos_differ());
            assert(mem_refs_exist(self.repos@, self.groups@)(m));
            lemma_all_push(pre.memberships@, m, mem_refs_exist(self.repos@, self.groups@));
        }
        Ok(())
    }

    /// Removes the repository's membership in this group, if present.
    pub fn remove_repo_from_group(&mut self, repo_id: &str, group_id: i64) -> (r: Result<(), Error>)
        requires
            old(self).wf(),
        ensures
            final(self).wf(),
            r is Ok,
            final(self).memberships@ == old(self).memberships@.filter(
                mem_not_pair(repo_id@, group_id),
            ),
            final(self).next_id == old(self).next_id,
            Self::same_repos(*old(self), *final(self)),
            Self::same_branches(*old(self), *final(self)),
            Self::same_pull_requests(*old(self), *final(self)),
            Self::same_commits(*old(self), *final(self)),
            Self::same_groups(*old(self), *final(self)),
            Self::same_local_roots(*old(self), *final(self)),
            Self::same_local_statuses(*old(self), *final(self)),
            Self::same_config(*old(self), *final(self)),
    {
        let ghost pre = *self;
        let mut tmp: Vec<Membership> = Vec::new();
        core::mem::swap(&mut tmp, &mut self.memberships);
        let kept = filter_rows(
            tmp,
            (|x: &Membership| -> (b: bool)
                ensures
                    b == !(x.repo_id@ == repo_id@ && x.group_id == group_id),
                { !(str_eq(x.repo_id.as_str(), repo_id) && x.group_id == group_id) }),
            Ghost(mem_not_pair(repo_id@, group_id)),
        );
        self.memberships = kept;
        proof {
            lemma_filter_pairwise(pre.memberships@, mem_not_pair(repo_id@, group_id), rel_mem_repos_differ());
            lemma_filter_all(
                pre.memberships@,
                mem_not_pair(repo_id@, group_id),
                mem_refs_exist(pre.repos@, pre.groups@),
            );
        }
        Ok(())
    }

    /// Removes the repository from every group.
    pub fn remove_repo_from_all_groups(&mut self, repo_id: &str) -> (r: Result<(), Error>)
        requires
            old(self).wf(),
        ensures
            final(self).wf(),
            r is Ok,
            final(self).memberships@ == old(self).memberships@.filter(mem_not_of_repo(repo_id@)),
            final(self).next_id == old(self).next_id,
            Self::same_repos(*old(self), *final(self)),
            Self::same_branches(*old(self), *final(self)),
            Self::same_pull_requests(*old(self), *final(self)),
            Self::same_commits(*old(self), *final(self)),
            Self::same_groups(*old(self), *final(self)),
            Self::same_local_roots(*old(self), *final(self)),
            Self::same_local_statuses(*old(self), *final(self)),
            Self::same_config(*old(self), *final(self)),
    {
        let ghost pre = *self;
        let mut tmp: Vec<Membership> = Vec::new();
        core::mem::swap(&mut tmp, &mut self.memberships);
        let kept = filter_rows(
            tmp,
            (|x: &Membership| -> (b: bool)
                ensures
                    b == (x.repo_id@ != repo_id@),
                { !str_eq(x.repo_id.as_str(), repo_id) }),
            Ghost(mem_not_of_repo(repo_id@)),
        );
        self.memberships = kept;
        proof {
            lemma_filter_pairwise(pre.memberships@, mem_not_of_repo(repo_id@), rel_mem_repos_differ());
            lemma_filter_all(
                pre.memberships@,
                mem_not_of_repo(repo_id@),
                mem_refs_exist(pre.repos@, pre.groups@),
            );
        }
        Ok(())
    }

    /// Moves the repository into the target group: it is first removed
    /// from every group, then added to the target. If the repository or
    /// the target group is missing the removal still stands, so a failed
    /// move leaves the repository ungrouped, the safer state.
    pub fn move_repo_to_group(&mut self, repo_id: &str, target_group_id: i64) -> (r: Result<
        (),
        Error,
    >)
        requires
            old(self).wf(),
        ensures
            final(self).wf(),
            !(repo_id_exists(old(self).repos@, repo_id@) && group_id_exists(
                old(self).groups@,
                target_group_id,
            )) ==> {
                &&& r is Err
                &&& final(self).memberships@ == old(self).memberships@.filter(
                    mem_not_of_repo(repo_id@),
                )
            },
            (repo_id_exists(old(self).repos@, repo_id@) && group_id_exists(
                old(self).groups@,
                target_group_id,
            )) ==> {
                &&& r is Ok
                &&& final(self).memberships@ == old(self).memberships@.filter(
                    mem_not_of_repo(repo_id@),
                ).push(final(self).memberships@.last())
                &&& final(self).memberships@.last().repo_id@ == repo_id@
                &&& final(self).memberships@.last().group_id == target_group_id
            },
            final(self).next_id == old(self).next_id,
            Self::same_repos(*old(self), *final(self)),
            Self::same_branches(*old(self), *final(self)),
            Self::same_pull_requests(*old(self), *final(self)),
            Self::same_commits(*old(self), *final(self)),
            Self::same_groups(*old(self), *final(self)),
            Self::same_local_roots(*old(self), *final(self)),
            Self::same_local_statuses(*old(self), *final(self)),
            Self::same_config(*old(self), *final(self)),
    {
        let ghost pre = *self;
        let mut tmp: Vec<Membership> = Vec::new();
        core::mem::swap(&mut tmp, &mut self.memberships);
        let kept = filter_rows(
            tmp,
            (|x: &Membership| -> (b: bool)
                ensures
                    b == (x.repo_id@ != repo_id@),
                { !str_eq(x.repo_id.as_str(), repo_id) }),
            Ghost(mem_not_of_repo(repo_id@)),
        );
        self.memberships = kept;
        proof {
            lemma_filter_pairwise(pre.memberships@, mem_not_of_repo(repo_id@), rel_mem_repos_differ());
            lemma_filter_all(
                pre.memberships@,
                mem_not_of_repo(repo_id@),
                mem_refs_exist(pre.repos@, pre.groups@),
            );
            lemma_filter_pred_holds(pre.memberships@, mem_not_of_repo(repo_id@));
        }
        if !repo_id_present(&self.repos, repo_id) {
            return Err(Error::Storage(String::from_str("no such repository")));
        }
        if !group_id_present(&self.groups, target_group_id) {
            return Err(Error::Storage(String::from_str("no such group")));
        }
        let ghost mid = *self;
        let added = now_millis();
        self.memberships.push(
            Membership {
                repo_id: String::from_str(repo_id),
                group_id: target_group_id,
                added_at: added,
            },
        );
        proof {
            let m = self.memberships@.last();
            assert forall|i: int| 0 <= i < mid.memberships@.len() implies rel_mem_repos_differ()(
                mid.memberships@[i],
                m,
            ) by {
                assert(mem_not_of_repo(repo_id@)(mid.memberships@[i]));
            }
            lemma_pairwise_push(mid.memberships@, m, rel_mem_repos_differ());
            assert(mem_refs_exist(self.repos@, self.groups@)(m));
            lemma_all_push(mid.memberships@, m, mem_refs_exist(self.repos@, self.groups@));
        }
        Ok(())
    }

    /// Deletes the group; the memberships of its members go with it,
    /// leaving them ungrouped, while their repository rows stay.
    pub fn delete_group(&mut self, group_id: i64) -> (r: Result<(), Error>)
        requires
            old(self).wf(),
        ensures
            final(self).wf(),
            r is Ok,
            final(self).groups@ == old(self).groups@.filter(group_not_id(group_id)),
            final(self).memberships@ == old(self).memberships@.filter(mem_not_of_group(group_id)),
            final(self).next_id == old(self).next_id,
            Self::same_repos(*old(self), *final(self)),
            Self::same_branches(*old(self), *final(self)),
            Self::same_pull_requests(*old(self), *final(self)),
            Self::same_commits(*old(self), *final(self)),
            Self::same_local_roots(*old(self), *final(self)),
            Self::same_local_statuses(*old(self), *final(self)),
            Self::same_config(*old(self), *final(self)),
    {
        let ghost pre = *self;
        let mut tmpm: Vec<Membership> = Vec::new();
        core::mem::swap(&mut tmpm, &mut self.memberships);
        let keptm = filter_rows(
            tmpm,
            (|x: &Membership| -> (b: bool)
                ensures
                    b == (x.group_id != group_id),
                { x.group_id != group_id }),
            Ghost(mem_not_of_group(group_id)),
        );
        self.memberships = keptm;
        let mut tmpg: Vec<Group> = Vec::new();
        core::mem::swap(&mut tmpg, &mut self.groups);
        let keptg = filter_rows(
            tmpg,
            (|x: &Group| -> (b: bool)
                ensures
                    b == (x.id != group_id),
                { x.id != group_id }),
            Ghost(group_not_id(group_id)),
        );
        self.groups = keptg;
        proof {
            lemma_filter_pairwise(pre.memberships@, mem_not_of_group(group_id), rel_mem_repos_differ());
            lemma_filter_pairwise(pre.groups@, group_not_id(group_id), rel_group_ids_differ());
            lemma_filter_all(pre.groups@, group_not_id(group_id), group_id_in_range(pre.next_id));
            lemma_filter_pred_holds(pre.memberships@, mem_not_of_group(group_id));
            lemma_filter_all(
                pre.memberships@,
                mem_not_of_group(group_id),
                mem_refs_exist(pre.repos@, pre.groups@),
            );
            assert forall|i: int| 0 <= i < self.memberships@.len() implies mem_refs_exist(
                self.repos@,
                self.groups@,
            )(self.memberships@[i]) by {
                let m = self.memberships@[i];
                assert(mem_refs_exist(pre.repos@, pre.groups@)(m));
                assert(mem_not_of_group(group_id)(m));
                let j = choose|j: int| 0 <= j < pre.groups@.len() && pre.groups@[j].id == m.group_id;
                assert(group_not_id(group_id)(pre.groups@[j]));
                lemma_filter_retains(pre.groups@, group_not_id(group_id), j);
                let fg = pre.groups@.filter(group_not_id(group_id));
                let k = choose|k: int| 0 <= k < fg.len() && fg[k] == pre.groups@[j];
                assert(self.groups@[k].id == m.group_id);
            }
        }
        Ok(())
    }

    /// The member repositories of one group, most recently pushed first.
    pub fn get_repos_in_group(&self, group_id: i64) -> (r: Result<Vec<Repository>, Error>)
        requires
            self.wf(),
        ensures
            r is Ok,
            r->Ok_0@.to_multiset() == self.repos@.filter(
                member_of_group(self.memberships@, group_id),
            ).to_multiset(),
            sorted_rows(r->Ok_0@),
    {
        let ghost p = member_of_group(self.memberships@, group_id);
        let mut picked: Vec<Repository> = Vec::new();
        let mut i: usize = 0;
        while i < self.repos.len()
            invariant
                self.wf(),
                i <= self.repos@.len(),
                picked@ == self.repos@.take(i as int).filter(p),
                p == member_of_group(self.memberships@, group_id),
            decreases self.repos@.len() - i,
        {
            proof {
                assert(self.repos@.take(i + 1) =~= self.repos@.take(i as int).push(
                    self.repos@[i as int],
                ));
                self.repos@.take(i as int).lemma_filter_push(self.repos@[i as int], p);
            }
            if membership_pair_present(&self.memberships, self.repos[i].id.as_str(), group_id) {
                picked.push(self.repos[i].clone());
            }
            i += 1;
        }
        proof {
            assert(self.repos@.take(self.repos@.len() as int) =~= self.repos@);
        }
        Ok(sort_rows(picked))
    }

    /// The repositories that belong to no group, most recently pushed
    /// first.
    pub fn get_ungrouped_repositories(&self) -> (r: Result<Vec<Repository>, Error>)
        requires
            self.wf(),
        ensures
            r is Ok,
            r->Ok_0@.to_multiset() == self.repos@.filter(ungrouped(self.memberships@)).to_multiset(),
            sorted_rows(r->Ok_0@),
    {
        let ghost p = ungrouped(self.memberships@);
        let mut picked: Vec<Repository> = Vec::new();
        let mut i: usize = 0;
        while i < self.repos.len()
            invariant
                self.wf(),
                i <= self.repos@.len(),
                picked@ == self.repos@.take(i as int).filter(p),
                p == ungrouped(self.memberships@),
            decreases self.repos@.len() - i,
        {
            proof {
                assert(self.repos@.take(i + 1) =~= self.repos@.take(i as int).push(
                    self.repos@[i as int],
                ));
                self.repos@.take(i as int).lemma_filter_push(self.repos@[i as int], p);
            }
            if !membership_repo_present(&self.memberships, self.repos[i].id.as_str()) {
                picked.push(self.repos[i].clone());
            }
            i += 1;
        }
        proof {
            assert(self.repos@.take(self.repos@.len() as int) =~= self.repos@);
        }
        Ok(sort_rows(picked))
    }
}

/// A root with this path is present.
pub open spec fn root_path_exists(rs: Seq<LocalRepoRoot>, path: Seq<char>) -> bool {
    exists|k: int| 0 <= k < rs.len() && rs[k].path@ == path
}

impl Database {
    /// Configures a directory to be scanned; a path configured twice is
    /// the distinguished duplicate-path error.
    pub fn add_local_repo_root(&mut self, path: &str) -> (r: Result<i64, Error>)
        requires
            old(self).wf(),
            old(self).next_id < i64::MAX,
        ensures
            final(self).wf(),
            root_path_exists(old(self).local_roots@, path@) ==> {
                &&& r is Err
                &&& r->Err_0 is DuplicatePath
                &&& final(self).local_roots@ == old(self).local_roots@
                &&& final(self).next_id == old(self).next_id
            },
            !root_path_exists(old(self).local_roots@, path@) ==> {
                &&& r is Ok
                &&& r->Ok_0 == old(self).next_id
                &&& final(self).local_roots@ == old(self).local_roots@.push(
                    final(self).local_roots@.last(),
                )
                &&& final(self).local_roots@.last().id == old(self).next_id
                &&& final(self).local_roots@.last().path@ == path@
                &&& final(self).local_roots@.last().enabled
                &&& final(self).next_id == old(self).next_id + 1
            },
            Self::same_repos(*old(self), *final(self)),
            Self::same_branches(*old(self), *final(self)),
            Self::same_pull_requests(*old(self), *final(self)),
            Self::same_commits(*old(self), *final(self)),
            Self::same_groups(*old(self), *final(self)),
            Self::same_memberships(*old(self), *final(self)),
            Self::same_local_statuses(*old(self), *final(self)),
            Self::same_config(*old(self), *final(self)),
    {
        let ghost pre = *self;
        let found = first_match(
            &self.local_roots,
            (|x: &LocalRepoRoot| -> (b: bool)
                ensures
                    b == (x.path@ == path@),
                { str_eq(x.path.as_str(), path) }),
            Ghost(root_with_path(path@)),
        );
        if let Some(i) = found {
            proof {
                assert(self.local_roots@[i as int].path@ == path@);
            }
            return Err(Error::DuplicatePath(String::from_str(path)));
        }
        proof {
            if root_path_exists(pre.local_roots@, path@) {
                let k = choose|k: int|
                    0 <= k < pre.local_roots@.len() && pre.local_roots@[k].path@ == path@;
                assert(root_with_path(path@)(pre.local_roots@[k]));
            }
        }
        let new_id = self.next_id;
        let created = now_millis();
        self.local_roots.push(
            LocalRepoRoot {
                id: new_id,
                path: String::from_str(path),
                enabled: true,
                created_at: created,
            },
        );
        self.next_id = self.next_id + 1;
        proof {
            let x = self.local_roots@.last();
            assert forall|i: int| 0 <= i < pre.local_roots@.len() implies rel_root_ids_differ()(
                pre.local_roots@[i],
                x,
            ) && rel_root_paths_differ()(pre.local_roots@[i], x) by {
                assert(root_id_in_range(pre.next_id)(pre.local_roots@[i]));
                assert(!root_with_path(path@)(pre.local_roots@[i]));
            }
            lemma_pairwise_push(pre.local_roots@, x, rel_root_ids_differ());
            lemma_pairwise_push(pre.local_roots@, x, rel_root_paths_differ());
            lemma_all_weaken(
                pre.local_roots@,
                root_id_in_range(pre.next_id),
                root_id_in_range(self.next_id),
            );
            lemma_all_push(pre.local_roots@, x, root_id_in_range(self.next_id));
            self.lemma_counter_grew(pre);
        }
        Ok(new_id)
    }

    /// All configured roots, most recently created first.
    pub fn get_all_local_repo_roots(&self) -> (r: Result<Vec<LocalRepoRoot>, Error>)
        requires
            self.wf(),
        ensures
            r is Ok,
            r->Ok_0@.to_multiset() == self.local_roots@.to_multiset(),
            sorted_rows(r->Ok_0@),
    {
        Ok(sort_rows(copy_roots(&self.local_roots)))
    }

    /// Removes the root with this identity, if present.
    pub fn remove_local_repo_root(&mut self, id: i64) -> (r: Result<(), Error>)
        requires
            old(self).wf(),
        ensures
            final(self).wf(),
            r is Ok,
            final(self).local_roots@ == old(self).local_roots@.filter(root_not_id(id)),
            final(self).next_id == old(self).next_id,
            Self::same_repos(*old(self), *final(self)),
            Self::same_branches(*old(self), *final(self)),
            Self::same_pull_requests(*old(self), *final(self)),
            Self::same_commits(*old(self), *final(self)),
            Self::same_groups(*old(self), *final(self)),
            Self::same_memberships(*old(self), *final(self)),
            Self::same_local_statuses(*old(self), *final(self)),
            Self::same_config(*old(self), *final(self)),
    {
        let ghost pre = *self;
        let mut tmp: Vec<LocalRepoRoot> = Vec::new();
        core::mem::swap(&mut tmp, &mut self.local_roots);
        let kept = filter_rows(
            tmp,
            (|x: &LocalRepoRoot| -> (b: bool)
                ensures
                    b == (x.id != id),
                { x.id != id }),
            Ghost(root_not_id(id)),
        );
        self.local_roots = kept;
        proof {
            lemma_filter_pairwise(pre.local_roots@, root_not_id(id), rel_root_ids_differ());
            lemma_filter_pairwise(pre.local_roots@, root_not_id(id), rel_root_paths_differ());
            lemma_filter_all(pre.local_roots@, root_not_id(id), root_id_in_range(pre.next_id));
        }
        Ok(())
    }

    /// Enables or disables the root with this identity, if present.
    pub fn toggle_local_repo_root(&mut self, id: i64, enabled: bool) -> (r: Result<(), Error>)
        requires
            old(self).wf(),
        ensures
            final(self).wf(),
            r is Ok,
            final(self).local_roots@.len() == old(self).local_roots@.len(),
            forall|i: int|
                0 <= i < old(self).local_roots@.len() ==> #[trigger] final(self).local_roots@[i]
                    == if old(self).local_roots@[i].id == id {
                    LocalRepoRoot { enabled, ..old(self).local_roots@[i] }
                } else {
                    old(self).local_roots@[i]
                },
            final(self).next_id == old(self).next_id,
            Self::same_repos(*old(self), *final(self)),
            Self::same_branches(*old(self), *final(self)),
            Self::same_pull_requests(*old(self), *final(self)),
            Self::same_commits(*old(self), *final(self)),
            Self::same_groups(*old(self), *final(self)),
            Self::same_memberships(*old(self), *final(self)),
            Self::same_local_statuses(*old(self), *final(self)),
            Self::same_config(*old(self), *final(self)),
    {
        let ghost pre = *self;
        let mut out: Vec<LocalRepoRoot> = Vec::new();
        let mut i: usize = 0;
        while i < self.local_roots.len()
            invariant
                i <= self.local_roots@.len(),
                out@.len() == i,
                forall|j: int|
                    0 <= j < i ==> #[trigger] out@[j] == if self.local_roots@[j].id == id {
                        LocalRepoRoot { enabled, ..self.local_roots@[j] }
                    } else {
                        self.local_roots@[j]
                    },
            decreases self.local_roots@.len() - i,
        {
            let x = &self.local_roots[i];
            if x.id == id {
                out.push(
                    LocalRepoRoot {
                        id: x.id,
                        path: x.path.clone(),
                        enabled,
                        created_at: x.created_at,
                    },
                );
            } else {
                out.push(x.clone());
            }
            i += 1;
        }
        self.local_roots = out;
        proof {
            assert forall|p: int, q: int| 0 <= p < q < self.local_roots@.len() implies
                rel_root_ids_differ()(self.local_roots@[p], self.local_roots@[q])
                && rel_root_paths_differ()(self.local_roots@[p], self.local_roots@[q]) by {
                assert(rel_root_ids_differ()(pre.local_roots@[p], pre.local_roots@[q]));
                assert(rel_root_paths_differ()(pre.local_roots@[p], pre.local_roots@[q]));
            }
            assert forall|p: int| 0 <= p < self.local_roots@.len() implies root_id_in_range(
                self.next_id,
            )(self.local_roots@[p]) by {
                assert(root_id_in_range(pre.next_id)(pre.local_roots@[p]));
            }
        }
        Ok(())
    }

    /// Records the most recent local-scan result for one repository
    /// identity, replacing any earlier record for it.
    pub fn save_local_repo_status(&mut self, status: &LocalRepoStatus) -> (r: Result<(), Error>)
        requires
            old(self).wf(),
            old(self).next_id < i64::MAX,
        ensures
            final(self).wf(),
            r is Ok,
            final(self).local_statuses@ == old(self).local_statuses@.filter(
                status_not_of_repo(status.repo_id@),
            ).push(LocalRepoStatus { id: old(self).next_id, ..*status }),
            final(self).next_id == old(self).next_id + 1,
            Self::same_repos(*old(self), *final(self)),
            Self::same_branches(*old(self), *final(self)),
            Self::same_pull_requests(*old(self), *final(self)),
            Self::same_commits(*old(self), *final(self)),
            Self::same_groups(*old(self), *final(self)),
            Self::same_memberships(*old(self), *final(self)),
            Self::same_local_roots(*old(self), *final(self)),
            Self::same_config(*old(self), *final(self)),
    {
        let ghost pre = *self;
        let mut tmp: Vec<LocalRepoStatus> = Vec::new();
        core::mem::swap(&mut tmp, &mut self.local_statuses);
        let mut kept = filter_rows(
            tmp,
            (|x: &LocalRepoStatus| -> (b: bool)
                ensures
                    b == (x.repo_id@ != status.repo_id@),
                { !str_eq(x.repo_id.as_str(), status.repo_id.as_str()) }),
            Ghost(status_not_of_repo(status.repo_id@)),
        );
        let new_id = self.next_id;
        kept.push(
            LocalRepoStatus {
                id: new_id,
                repo_id: status.repo_id.clone(),
                local_path: status.local_path.clone(),
                current_branch: match &status.current_branch {
                    Some(b) => Some(b.clone()),
                    None => None,
                },
                uncommitted_files: status.uncommitted_files,
                unpushed_commits: status.unpushed_commits,
                behind_commits: status.behind_commits,
                is_dirty: status.is_dirty,
                last_checked: status.last_checked,
            },
        );
        self.local_statuses = kept;
        self.next_id = self.next_id + 1;
        proof {
            let drop = status_not_of_repo(status.repo_id@);
            let f = pre.local_statuses@.filter(drop);
            let news = LocalRepoStatus { id: pre.next_id, ..*status };
            lemma_filter_pairwise(pre.local_statuses@, drop, rel_status_repos_differ());
            lemma_filter_all(pre.local_statuses@, drop, status_id_in_range(pre.next_id));
            lemma_filter_pred_holds(pre.local_statuses@, drop);
            assert forall|i: int| 0 <= i < f.len() implies rel_status_repos_differ()(
                f[i],
                news,
            ) by {
                assert(drop(f[i]));
            }
            lemma_pairwise_push(f, news, rel_status_repos_differ());
            lemma_all_weaken(f, status_id_in_range(pre.next_id), status_id_in_range(self.next_id));
            lemma_all_push(f, news, status_id_in_range(self.next_id));
            self.lemma_counter_grew(pre);
        }
        Ok(())
    }

    /// The most recent local-scan result for one repository identity,
    /// if any.
    pub fn get_local_repo_status(&self, repo_id: &str) -> (r: Result<
        Option<LocalRepoStatus>,
        Error,
    >)
        requires
            self.wf(),
        ensures
            r is Ok,
            match r->Ok_0 {
                Some(s) => exists|i: int|
                    0 <= i < self.local_statuses@.len() && self.local_statuses@[i] == s
                        && s.repo_id@ == repo_id@,
                None => forall|i: int|
                    0 <= i < self.local_statuses@.len() ==> self.local_statuses@[i].repo_id@
                        != repo_id@,
            },
    {
        let found = first_match(
            &self.local_statuses,
            (|x: &LocalRepoStatus| -> (b: bool)
                ensures
                    b == (x.repo_id@ == repo_id@),
                { str_eq(x.repo_id.as_str(), repo_id) }),
            Ghost(status_of_repo(repo_id@)),
        );
        match found {
            Some(i) => {
                proof {
                    assert(self.local_statuses@[i as int].repo_id@ == repo_id@);
                }
                Ok(Some(self.local_statuses[i].clone()))
            },
            None => Ok(None),
        }
    }

    /// All local-scan results, most recently checked first.
    pub fn get_all_local_repo_statuses(&self) -> (r: Result<Vec<LocalRepoStatus>, Error>)
        requires
            self.wf(),
        ensures
            r is Ok,
            r->Ok_0@.to_multiset() == self.local_statuses@.to_multiset(),
            sorted_rows(r->Ok_0@),
    {
        Ok(sort_rows(copy_statuses(&self.local_statuses)))
    }
}

/// A copy of the local-root table, row by row.
fn copy_roots(v: &Vec<LocalRepoRoot>) -> (r: Vec<LocalRepoRoot>)
    ensures
        r@ == v@,
{
    let mut out: Vec<LocalRepoRoot> = Vec::new();
    let mut i: usize = 0;
    while i < v.len()
        invariant
            i <= v@.len(),
            out@ == v@.take(i as int),
        decreases v@.len() - i,
    {
        out.push(v[i].clone());
        proof {
            assert(v@.take(i + 1) =~= v@.take(i as int).push(v@[i as int]));
        }
        i += 1;
    }
    proof {
        assert(v@.take(v@.len() as int) =~= v@);
    }
    out
}

/// A copy of the local-status table, row by row.
fn copy_statuses(v: &Vec<LocalRepoStatus>) -> (r: Vec<LocalRepoStatus>)
    ensures
        r@ == v@,
{
    let mut out: Vec<LocalRepoStatus> = Vec::new();
    let mut i: usize = 0;
    while i < v.len()
        invariant
            i <= v@.len(),
            out@ == v@.take(i as int),
        decreases v@.len() - i,
    {
        out.push(v[i].clone());
        proof {
            assert(v@.take(i + 1) =~= v@.take(i as int).push(v@[i as int]));
        }
        i += 1;
    }
    proof {
        assert(v@.take(v@.len() as int) =~= v@);
    }
    out
}

/// A branch of the repository that carries unmerged work: ahead of the
/// default branch.
pub open spec fn branch_ahead_in(rid: Seq<char>) -> spec_fn(Branch) -> bool {
    |b: Branch| b.repo_id@ == rid && b.ahead_by > 0
}

impl Database {
    /// The branches of the repository with unmerged work — those a pull
    /// request could be opened for — in name order.
    pub fn get_unmerged_branches_for_repo(&self, repo_id: &str) -> (r: Result<Vec<Branch>, Error>)
        requires
            self.wf(),
        ensures
            r is Ok,
            r->Ok_0@.to_multiset() == self.branches@.filter(branch_ahead_in(repo_id@)).to_multiset(),
            sorted_rows(r->Ok_0@),
    {
        let matching = filter_rows(
            copy_branches(&self.branches),
            (|x: &Branch| -> (b: bool)
                ensures
                    b == (x.repo_id@ == repo_id@ && x.ahead_by > 0),
                { str_eq(x.repo_id.as_str(), repo_id) && x.ahead_by > 0 }),
            Ghost(branch_ahead_in(repo_id@)),
        );
        Ok(sort_rows(matching))
    }
}

/// Whether a repository with this identity is present.
fn repo_id_present(v: &Vec<Repository>, id: &str) -> (r: bool)
    ensures
        r == repo_id_exists(v@, id@),
{
    let found = first_match(
        v,
        (|x: &Repository| -> (b: bool)
            ensures
                b == (x.id@ == id@),
            { str_eq(x.id.as_str(), id) }),
        Ghost(has_repo_id(id@)),
    );
    match found {
        Some(i) => {
            proof {
                assert(v@[i as int].id@ == id@);
            }
            true
        },
        None => {
            proof {
                if repo_id_exists(v@, id@) {
                    let k = choose|k: int| 0 <= k < v@.len() && v@[k].id@ == id@;
                    assert(has_repo_id(id@)(v@[k]));
                }
            }
            false
        },
    }
}

/// Whether a group with this identity is present.
fn group_id_present(v: &Vec<Group>, gid: i64) -> (r: bool)
    ensures
        r == group_id_exists(v@, gid),
{
    let found = first_match(
        v,
        (|x: &Group| -> (b: bool)
            ensures
                b == (x.id == gid),
            { x.id == gid }),
        Ghost(group_with_id(gid)),
    );
    match found {
        Some(i) => {
            proof {
                assert(v@[i as int].id == gid);
            }
            true
        },
        None => {
            proof {
                if group_id_exists(v@, gid) {
                    let k = choose|k: int| 0 <= k < v@.len() && v@[k].id == gid;
                    assert(group_with_id(gid)(v@[k]));
                }
            }
            false
        },
    }
}

/// Whether the repository belongs to some group.
fn membership_repo_present(v: &Vec<Membership>, rid: &str) -> (r: bool)
    ensures
        r == repo_grouped(v@, rid@),
{
    let found = first_match(
        v,
        (|x: &Membership| -> (b: bool)
            ensures
                b == (x.repo_id@ == rid@),
            { str_eq(x.repo_id.as_str(), rid) }),
        Ghost(mem_of_repo(rid@)),
    );
    match found {
        Some(i) => {
            proof {
                assert(v@[i as int].repo_id@ == rid@);
            }
            true
        },
        None => {
            proof {
                if repo_grouped(v@, rid@) {
                    let k = choose|k: int| 0 <= k < v@.len() && v@[k].repo_id@ == rid@;
                    assert(mem_of_repo(rid@)(v@[k]));
                }
            }
            false
        },
    }
}

/// Whether the repository belongs to this group.
fn membership_pair_present(v: &Vec<Membership>, rid: &str, gid: i64) -> (r: bool)
    ensures
        r == repo_in_group(v@, rid@, gid),
{
    let found = first_match(
        v,
        (|x: &Membership| -> (b: bool)
            ensures
                b == (x.repo_id@ == rid@ && x.group_id == gid),
            { str_eq(x.repo_id.as_str(), rid) && x.group_id == gid }),
        Ghost(|x: Membership| x.repo_id@ == rid@ && x.group_id == gid),
    );
    match found {
        Some(i) => {
            proof {
                assert(v@[i as int].repo_id@ == rid@ && v@[i as int].group_id == gid);
            }
            true
        },
        None => {
            proof {
                if repo_in_group(v@, rid@, gid) {
                    let k = choose|k: int|
                        0 <= k < v@.len() && v@[k].repo_id@ == rid@ && v@[k].group_id == gid;
                    assert(v@[k].repo_id@ == rid@ && v@[k].group_id == gid);
                }
            }
            false
        },
    }
}

/// A copy of the group table, row by row.
fn copy_groups(v: &Vec<Group>) -> (r: Vec<Group>)
    ensures
        r@ == v@,
{
    let mut out: Vec<Group> = Vec::new();
    let mut i: usize = 0;
    while i < v.len()
        invariant
            i <= v@.len(),
            out@ == v@.take(i as int),
        decreases v@.len() - i,
    {
        out.push(v[i].clone());
        proof {
            assert(v@.take(i + 1) =~= v@.take(i as int).push(v@[i as int]));
        }
        i += 1;
    }
    proof {
        assert(v@.take(v@.len() as int) =~= v@);
    }
    out
}

/// A copy of the pull-request table, row by row.
pub(crate) fn copy_prs(v: &Vec<PullRequest>) -> (r: Vec<PullRequest>)
    ensures
        r@ == v@,
{
    let mut out: Vec<PullRequest> = Vec::new();
    let mut i: usize = 0;
    while i < v.len()
        invariant
            i <= v@.len(),
            out@ == v@.take(i as int),
        decreases v@.len() - i,
    {
        out.push(v[i].clone());
        proof {
            assert(v@.take(i + 1) =~= v@.take(i as int).push(v@[i as int]));
        }
        i += 1;
    }
    proof {
        assert(v@.take(v@.len() as int) =~= v@);
    }
    out
}

/// A copy of the commit table, row by row.
fn copy_commits(v: &Vec<Commit>) -> (r: Vec<Commit>)
    ensures
        r@ == v@,
{
    let mut out: Vec<Commit> = Vec::new();
    let mut i: usize = 0;
    while i < v.len()
        invariant
            i <= v@.len(),
            out@ == v@.take(i as int),
        decreases v@.len() - i,
    {
        out.push(v[i].clone());
        proof {
            assert(v@.take(i + 1) =~= v@.take(i as int).push(v@[i as int]));
        }
        i += 1;
    }
    proof {
        assert(v@.take(v@.len() as int) =~= v@);
    }
    out
}

/// Whether `v` holds a branch of repository `rid` with identity `id`.
fn branch_key_present(v: &Vec<Branch>, id: i64, rid: &str) -> (r: bool)
    ensures
        r == exists|k: int| 0 <= k < v@.len() && v@[k].id == id && v@[k].repo_id@ == rid@,
{
    let found = first_match(
        v,
        (|x: &Branch| -> (b: bool)
            ensures
                b == (x.id == id && x.repo_id@ == rid@),
            { x.id == id && str_eq(x.repo_id.as_str(), rid) }),
        Ghost(|x: Branch| x.id == id && x.repo_id@ == rid@),
    );
    match found {
        Some(i) => {
            proof {
                assert(v@[i as int].id == id && v@[i as int].repo_id@ == rid@);
            }
            true
        },
        None => false,
    }
}

/// A copy of the branch table, row by row.
fn copy_branches(v: &Vec<Branch>) -> (r: Vec<Branch>)
    ensures
        r@ == v@,
{
    let mut out: Vec<Branch> = Vec::new();
    let mut i: usize = 0;
    while i < v.len()
        invariant
            i <= v@.len(),
            out@ == v@.take(i as int),
        decreases v@.len() - i,
    {
        out.push(v[i].clone());
        proof {
            assert(v@.take(i + 1) =~= v@.take(i as int).push(v@[i as int]));
        }
        i += 1;
    }
    proof {
        assert(v@.take(v@.len() as int) =~= v@);
    }
    out
}

/// A copy of the repository table, row by row.
fn copy_repos(v: &Vec<Repository>) -> (r: Vec<Repository>)
    ensures
        r@ == v@,
{
    let mut out: Vec<Repository> = Vec::new();
    let mut i: usize = 0;
    while i < v.len()
        invariant
            i <= v@.len(),
            out@ == v@.take(i as int),
        decreases v@.len() - i,
    {
        out.push(v[i].clone());
        proof {
            assert(v@.take(i + 1) =~= v@.take(i as int).push(v@[i as int]));
        }
        i += 1;
    }
    proof {
        assert(v@.take(v@.len() as int) =~= v@);
    }
    out
}

} // verus!
