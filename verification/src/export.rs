//! The export snapshot builder: deterministically reduces the store's
//! current state to the nested read model the presentation layer
//! consumes — each group with its member repositories, each repository
//! with its branches, nested commits and pull requests, two derived
//! counters, and a separate list of ungrouped repositories. The builder
//! performs no writes.

use crate::error::Error;
use crate::models::{Branch, BranchStatus, Commit, Group, PRState, PullRequest, Repository};
use crate::order::sorted_rows;
use crate::store::{branch_in_repo, commit_in_branch, member_of_group, pr_in_repo, ungrouped,
    Database};
use crate::table::count_matching;
use vstd::prelude::*;
use vstd::string::StringExecFns;

verus! {

/// One commit of the read model.
#[derive(Debug)]
pub struct CommitExport {
    pub sha: String,
    pub message: String,
    pub author_name: String,
    pub author_email: String,
    pub authored_date: i64,
    pub committer_name: String,
    pub committer_email: String,
    pub committed_date: i64,
}

/// One pull request of the read model.
#[derive(Debug)]
pub struct PullRequestExport {
    pub number: u32,
    pub title: String,
    pub state: PRState,
    pub created_at: i64,
    pub updated_at: i64,
}

/// One branch of the read model, with its nested commits.
#[derive(Debug)]
pub struct BranchExport {
    pub name: String,
    pub sha: String,
    pub ahead_by: u32,
    pub behind_by: u32,
    pub status: BranchStatus,
    pub last_commit_date: i64,
    pub commits: Vec<CommitExport>,
}

/// One repository of the read model, with derived counters.
#[derive(Debug)]
pub struct RepoExport {
    pub id: String,
    pub owner: String,
    pub name: String,
    pub language: String,
    pub last_push: i64,
    pub branches: Vec<BranchExport>,
    pub pull_requests: Vec<PullRequestExport>,
    pub unmerged_count: usize,
    pub pr_count: usize,
}

/// One group of the read model, carrying its member repositories.
#[derive(Debug)]
pub struct GroupExport {
    pub id: i64,
    pub name: String,
    pub repos: Vec<RepoExport>,
}

/// The whole read model: every group, and the ungrouped repositories.
#[derive(Debug)]
pub struct ExportSnapshot {
    pub groups: Vec<GroupExport>,
    pub ungrouped: Vec<RepoExport>,
}

/// A branch of the repository counted as unmerged: ahead of the default
/// branch with nothing behind.
pub open spec fn branch_unmerged_in(rid: Seq<char>) -> spec_fn(Branch) -> bool {
    |b: Branch| b.repo_id@ == rid && b.ahead_by > 0 && b.behind_by == 0
}

/// An open pull request of the repository.
pub open spec fn open_pr_in(rid: Seq<char>) -> spec_fn(PullRequest) -> bool {
    |p: PullRequest| p.repo_id@ == rid && p.state == PRState::Open
}

/// The repository's count of branches with unmerged work.
pub open spec fn unmerged_count_of(db: Database, rid: Seq<char>) -> int {
    db.branches@.filter(branch_unmerged_in(rid)).len() as int
}

/// The repository's count of open pull requests.
pub open spec fn open_pr_count_of(db: Database, rid: Seq<char>) -> int {
    db.pull_requests@.filter(open_pr_in(rid)).len() as int
}

/// `cs` is the commit listing of branch `bid`: its commits, newest
/// first.
pub open spec fn commits_listing(db: Database, bid: i64, cs: Seq<Commit>) -> bool {
    &&& cs.to_multiset() == db.commits@.filter(commit_in_branch(bid)).to_multiset()
    &&& sorted_rows(cs)
}

/// `bs` is the branch listing of repository `rid`: its branches in name
/// order.
pub open spec fn branches_listing(db: Database, rid: Seq<char>, bs: Seq<Branch>) -> bool {
    &&& bs.to_multiset() == db.branches@.filter(branch_in_repo(rid)).to_multiset()
    &&& sorted_rows(bs)
}

/// `ps` is the pull-request listing of repository `rid`: highest number
/// first.
pub open spec fn prs_listing(db: Database, rid: Seq<char>, ps: Seq<PullRequest>) -> bool {
    &&& ps.to_multiset() == db.pull_requests@.filter(pr_in_repo(rid)).to_multiset()
    &&& sorted_rows(ps)
}

/// `rs` is the member listing of group `gid`: most recently pushed
/// first.
pub open spec fn group_repos_listing(db: Database, gid: i64, rs: Seq<Repository>) -> bool {
    &&& rs.to_multiset() == db.repos@.filter(member_of_group(db.memberships@, gid)).to_multiset()
    &&& sorted_rows(rs)
}

/// `us` is the listing of repositories in no group: most recently
/// pushed first.
pub open spec fn ungrouped_listing(db: Database, us: Seq<Repository>) -> bool {
    &&& us.to_multiset() == db.repos@.filter(ungrouped(db.memberships@)).to_multiset()
    &&& sorted_rows(us)
}

/// `gs` is the group listing: in display order.
pub open spec fn groups_listing(db: Database, gs: Seq<Group>) -> bool {
    &&& gs.to_multiset() == db.groups@.to_multiset()
    &&& sorted_rows(gs)
}

/// `e` renders commit `c`.
pub open spec fn commit_export_ok(c: Commit, e: CommitExport) -> bool {
    &&& e.sha@ == c.sha@
    &&& e.message@ == c.message@
    &&& e.author_name@ == c.author_name@
    &&& e.author_email@ == c.author_email@
    &&& e.authored_date == c.authored_date
    &&& e.committer_name@ == c.committer_name@
    &&& e.committer_email@ == c.committer_email@
    &&& e.committed_date == c.committed_date
}

/// `e` renders pull request `p`.
pub open spec fn pr_export_ok(p: PullRequest, e: PullRequestExport) -> bool {
    &&& e.number == p.number
    &&& e.title@ == p.title@
    &&& e.state == p.state
    &&& e.created_at == p.created_at
    &&& e.updated_at == p.updated_at
}

/// `e` renders branch `b` with its commit listing nested.
pub open spec fn branch_export_ok(db: Database, b: Branch, e: BranchExport) -> bool {
    &&& e.name@ == b.name@
    &&& e.sha@ == b.sha@
    &&& e.ahead_by == b.ahead_by
    &&& e.behind_by == b.behind_by
    &&& e.status == b.status
    &&& e.last_commit_date == b.last_commit_date
    &&& exists|cs: Seq<Commit>|
        {
            &&& #[trigger] commits_listing(db, b.id, cs)
            &&& e.commits@.len() == cs.len()
            &&& forall|k: int| 0 <= k < cs.len() ==> commit_export_ok(cs[k], #[trigger] e.commits@[k])
        }
}

/// `e` renders repository `rep`: its fields, a missing language shown
/// as Unknown, its branch and pull-request listings nested, and the two
/// derived counters.
pub open spec fn repo_export_ok(db: Database, rep: Repository, e: RepoExport) -> bool {
    &&& e.id@ == rep.id@
    &&& e.owner@ == rep.owner@
    &&& e.name@ == rep.name@
    &&& (match rep.language {
        Some(l) => e.language@ == l@,
        None => e.language@ == "Unknown"@,
    })
    &&& e.last_push == rep.pushed_at
    &&& exists|bs: Seq<Branch>|
        {
            &&& #[trigger] branches_listing(db, rep.id@, bs)
            &&& e.branches@.len() == bs.len()
            &&& forall|k: int|
                0 <= k < bs.len() ==> branch_export_ok(db, bs[k], #[trigger] e.branches@[k])
        }
    &&& exists|ps: Seq<PullRequest>|
        {
            &&& #[trigger] prs_listing(db, rep.id@, ps)
            &&& e.pull_requests@.len() == ps.len()
            &&& forall|k: int|
                0 <= k < ps.len() ==> pr_export_ok(ps[k], #[trigger] e.pull_requests@[k])
        }
    &&& e.unmerged_count == unmerged_count_of(db, rep.id@)
    &&& e.pr_count == open_pr_count_of(db, rep.id@)
}

/// `e` renders group `g` with its member listing nested.
pub open spec fn group_export_ok(db: Database, g: Group, e: GroupExport) -> bool {
    &&& e.id == g.id
    &&& e.name@ == g.name@
    &&& exists|rs: Seq<Repository>|
        {
            &&& #[trigger] group_repos_listing(db, g.id, rs)
            &&& e.repos@.len() == rs.len()
            &&& forall|k: int| 0 <= k < rs.len() ==> repo_export_ok(db, rs[k], #[trigger] e.repos@[k])
        }
}

/// `r` is the read model of the store: every group rendered in display
/// order, and the ungrouped repositories rendered separately.
pub open spec fn snapshot_ok(db: Database, r: ExportSnapshot) -> bool {
    &&& exists|gs: Seq<Group>|
        {
            &&& #[trigger] groups_listing(db, gs)
            &&& r.groups@.len() == gs.len()
            &&& forall|k: int| 0 <= k < gs.len() ==> group_export_ok(db, gs[k], #[trigger] r.groups@[k])
        }
    &&& exists|us: Seq<Repository>|
        {
            &&& #[trigger] ungrouped_listing(db, us)
            &&& r.ungrouped@.len() == us.len()
            &&& forall|k: int|
                0 <= k < us.len() ==> repo_export_ok(db, us[k], #[trigger] r.ungrouped@[k])
        }
}

fn export_commit(c: &Commit) -> (e: CommitExport)
    ensures
        commit_export_ok(*c, e),
{
    CommitExport {
        sha: c.sha.clone(),
        message: c.message.clone(),
        author_name: c.author_name.clone(),
        author_email: c.author_email.clone(),
        authored_date: c.authored_date,
        committer_name: c.committer_name.clone(),
        committer_email: c.committer_email.clone(),
        committed_date: c.committed_date,
    }
}

fn export_pr(p: &PullRequest) -> (e: PullRequestExport)
    ensures
        pr_export_ok(*p, e),
{
    PullRequestExport {
        number: p.number,
        title: p.title.clone(),
        state: p.state,
        created_at: p.created_at,
        updated_at: p.updated_at,
    }
}

fn export_branch(db: &Database, b: &Branch) -> (e: BranchExport)
    requires
        db.wf(),
    ensures
        branch_export_ok(*db, *b, e),
{
    let commits = match db.get_commits_for_branch(b.id) {
        Ok(v) => v,
        Err(_) => {
            proof {
                assert(false);
            }
            Vec::new()
        },
    };
    let mut out: Vec<CommitExport> = Vec::new();
    let mut i: usize = 0;
    while i < commits.len()
        invariant
            i <= commits@.len(),
            out@.len() == i,
            forall|k: int| 0 <= k < i ==> commit_export_ok(commits@[k], #[trigger] out@[k]),
        decreases commits@.len() - i,
    {
        out.push(export_commit(&commits[i]));
        i += 1;
    }
    let e = BranchExport {
        name: b.name.clone(),
        sha: b.sha.clone(),
        ahead_by: b.ahead_by,
        behind_by: b.behind_by,
        status: b.status,
        last_commit_date: b.last_commit_date,
        commits: out,
    };
    proof {
        assert(commits_listing(*db, b.id, commits@));
    }
    e
}

/// Whether the pull request is open.
fn is_open(p: &PullRequest) -> (r: bool)
    ensures
        r == (p.state == PRState::Open),
{
    match p.state {
        PRState::Open => {
            proof {
                assert(p.state == PRState::Open);
            }
            true
        },
        _ => false,
    }
}

fn export_repo(db: &Database, rep: &Repository) -> (e: RepoExport)
    requires
        db.wf(),
    ensures
        repo_export_ok(*db, *rep, e),
{
    let branches = match db.get_branches_for_repo(rep.id.as_str()) {
        Ok(v) => v,
        Err(_) => {
            proof {
                assert(false);
            }
            Vec::new()
        },
    };
    let mut bout: Vec<BranchExport> = Vec::new();
    let mut i: usize = 0;
    while i < branches.len()
        invariant
            db.wf(),
            i <= branches@.len(),
            bout@.len() == i,
            forall|k: int| 0 <= k < i ==> branch_export_ok(*db, branches@[k], #[trigger] bout@[k]),
        decreases branches@.len() - i,
    {
        bout.push(export_branch(db, &branches[i]));
        i += 1;
    }
    let prs = match db.get_pull_requests_for_repo(rep.id.as_str()) {
        Ok(v) => v,
        Err(_) => {
            proof {
                assert(false);
            }
            Vec::new()
        },
    };
    let mut pout: Vec<PullRequestExport> = Vec::new();
    let mut j: usize = 0;
    while j < prs.len()
        invariant
            j <= prs@.len(),
            pout@.len() == j,
            forall|k: int| 0 <= k < j ==> pr_export_ok(prs@[k], #[trigger] pout@[k]),
        decreases prs@.len() - j,
    {
        pout.push(export_pr(&prs[j]));
        j += 1;
    }
    let unmerged_count = count_matching(
        &db.branches,
        (|x: &Branch| -> (b: bool)
            ensures
                b == (x.repo_id@ == rep.id@ && x.ahead_by > 0 && x.behind_by == 0),
            {
                crate::strutil::str_eq(x.repo_id.as_str(), rep.id.as_str()) && x.ahead_by > 0
                    && x.behind_by == 0
            }),
        Ghost(branch_unmerged_in(rep.id@)),
    );
    let pr_count = count_matching(
        &db.pull_requests,
        (|x: &PullRequest| -> (b: bool)
            ensures
                b == (x.repo_id@ == rep.id@ && x.state == PRState::Open),
            { crate::strutil::str_eq(x.repo_id.as_str(), rep.id.as_str()) && is_open(x) }),
        Ghost(open_pr_in(rep.id@)),
    );
    let language = match &rep.language {
        Some(l) => l.clone(),
        None => String::from_str("Unknown"),
    };
    let e = RepoExport {
        id: rep.id.clone(),
        owner: rep.owner.clone(),
        name: rep.name.clone(),
        language,
        last_push: rep.pushed_at,
        branches: bout,
        pull_requests: pout,
        unmerged_count,
        pr_count,
    };
    proof {
        assert(branches_listing(*db, rep.id@, branches@));
        assert(prs_listing(*db, rep.id@, prs@));
    }
    e
}

fn export_group(db: &Database, g: &Group) -> (e: GroupExport)
    requires
        db.wf(),
    ensures
        group_export_ok(*db, *g, e),
{
    let repos = match db.get_repos_in_group(g.id) {
        Ok(v) => v,
        Err(_) => {
            proof {
                assert(false);
            }
            Vec::new()
        },
    };
    let mut rout: Vec<RepoExport> = Vec::new();
    let mut i: usize = 0;
    while i < repos.len()
        invariant
            db.wf(),
            i <= repos@.len(),
            rout@.len() == i,
            forall|k: int| 0 <= k < i ==> repo_export_ok(*db, repos@[k], #[trigger] rout@[k]),
        decreases repos@.len() - i,
    {
        rout.push(export_repo(db, &repos[i]));
        i += 1;
    }
    let e = GroupExport { id: g.id, name: g.name.clone(), repos: rout };
    proof {
        assert(group_repos_listing(*db, g.id, repos@));
    }
    e
}

/// Builds the read model of the store's current state; a read-only
/// reduction.
pub fn build_snapshot(db: &Database) -> (r: ExportSnapshot)
    requires
        db.wf(),
    ensures
        snapshot_ok(*db, r),
{
    let groups = match db.get_all_groups() {
        Ok(v) => v,
        Err(_) => {
            proof {
                assert(false);
            }
            Vec::new()
        },
    };
    let mut gout: Vec<GroupExport> = Vec::new();
    let mut i: usize = 0;
    while i < groups.len()
        invariant
            db.wf(),
            i <= groups@.len(),
            gout@.len() == i,
            forall|k: int| 0 <= k < i ==> group_export_ok(*db, groups@[k], #[trigger] gout@[k]),
        decreases groups@.len() - i,
    {
        gout.push(export_group(db, &groups[i]));
        i += 1;
    }
    let ungrouped_repos = match db.get_ungrouped_repositories() {
        Ok(v) => v,
        Err(_) => {
            proof {
                assert(false);
            }
            Vec::new()
        },
    };
    let mut uout: Vec<RepoExport> = Vec::new();
    let mut j: usize = 0;
    while j < ungrouped_repos.len()
        invariant
            db.wf(),
            j <= ungrouped_repos@.len(),
            uout@.len() == j,
            forall|k: int|
                0 <= k < j ==> repo_export_ok(*db, ungrouped_repos@[k], #[trigger] uout@[k]),
        decreases ungrouped_repos@.len() - j,
    {
        uout.push(export_repo(db, &ungrouped_repos[j]));
        j += 1;
    }
    let r = ExportSnapshot { groups: gout, ungrouped: uout };
    proof {
        assert(groups_listing(*db, groups@));
        assert(ungrouped_listing(*db, ungrouped_repos@));
    }
    r
}

} // verus!
