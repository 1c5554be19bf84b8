//! The engine's cross-cutting guarantees, stated and proved over the
//! store's contracts: wholesale replacement replaces rather than merges,
//! a repository is never in two groups, deleting a group leaves its
//! members ungrouped, and replaying a replacement against an unchanged
//! input reproduces the same rows.

use crate::models::{Branch, Commit, PullRequest};
use crate::store::{branch_in_repo, branch_not_in_repo, commit_in_branch, commit_not_in_branch,
    group_not_id, inserted_branch_row, inserted_commit_row, inserted_pr_row, mem_not_of_group,
    pr_in_repo, pr_not_in_repo, repo_grouped, repo_id_exists, repo_in_group, rel_mem_repos_differ,
    ungrouped, Database};
use crate::table::{lemma_filter_id, lemma_filter_none, lemma_filter_pred_holds,
    lemma_filter_retains, lemma_filter_sub};
use vstd::prelude::*;

verus! {

/// The shape `replace_branches` leaves the branch table in: the rows of
/// other repositories first, unchanged, then a freshly numbered row per
/// input row.
pub open spec fn branches_replaced(
    pre: Database,
    post: Database,
    rid: Seq<char>,
    input: Seq<Branch>,
    base: i64,
) -> bool {
    let kept = pre.branches@.filter(branch_not_in_repo(rid));
    &&& post.branches@.len() == kept.len() + input.len()
    &&& forall|i: int| 0 <= i < kept.len() ==> #[trigger] post.branches@[i] == kept[i]
    &&& forall|i: int|
        0 <= i < input.len() ==> inserted_branch_row(
            #[trigger] post.branches@[kept.len() + i],
            base,
            i,
            input[i],
            rid,
        )
}

/// The shape `replace_pull_requests` leaves the pull-request table in.
pub open spec fn prs_replaced(
    pre: Database,
    post: Database,
    rid: Seq<char>,
    input: Seq<PullRequest>,
    base: i64,
) -> bool {
    let kept = pre.pull_requests@.filter(pr_not_in_repo(rid));
    &&& post.pull_requests@.len() == kept.len() + input.len()
    &&& forall|i: int| 0 <= i < kept.len() ==> #[trigger] post.pull_requests@[i] == kept[i]
    &&& forall|i: int|
        0 <= i < input.len() ==> inserted_pr_row(
            #[trigger] post.pull_requests@[kept.len() + i],
            base,
            i,
            input[i],
            rid,
        )
}

/// The shape `replace_commits` leaves the commit table in.
pub open spec fn commits_replaced(
    pre: Database,
    post: Database,
    bid: i64,
    input: Seq<Commit>,
    base: i64,
) -> bool {
    let kept = pre.commits@.filter(commit_not_in_branch(bid));
    &&& post.commits@.len() == kept.len() + input.len()
    &&& forall|i: int| 0 <= i < kept.len() ==> #[trigger] post.commits@[i] == kept[i]
    &&& forall|i: int|
        0 <= i < input.len() ==> inserted_commit_row(
            #[trigger] post.commits@[kept.len() + i],
            base,
            i,
            input[i],
            bid,
        )
}

/// After a wholesale replacement of one repository's branch set, a
/// query for that repository finds exactly the fresh rows, one per
/// input row and in input order — nothing of any earlier set survives,
/// whatever the store held before.
pub proof fn lemma_branches_query_after_replace(
    pre: Database,
    post: Database,
    rid: Seq<char>,
    input: Seq<Branch>,
    base: i64,
)
    requires
        branches_replaced(pre, post, rid, input, base),
    ensures
        post.branches@.filter(branch_in_repo(rid)).len() == input.len(),
        forall|i: int|
            0 <= i < input.len() ==> inserted_branch_row(
                #[trigger] post.branches@.filter(branch_in_repo(rid))[i],
                base,
                i,
                input[i],
                rid,
            ),
{
    let kept = pre.branches@.filter(branch_not_in_repo(rid));
    let ins = post.branches@.skip(kept.len() as int);
    assert(post.branches@ =~= kept + ins);
    Seq::filter_distributes_over_add(kept, ins, branch_in_repo(rid));
    lemma_filter_pred_holds(pre.branches@, branch_not_in_repo(rid));
    assert forall|i: int| 0 <= i < kept.len() implies !branch_in_repo(rid)(kept[i]) by {
        assert(branch_not_in_repo(rid)(kept[i]));
    }
    lemma_filter_none(kept, branch_in_repo(rid));
    assert forall|i: int| 0 <= i < ins.len() implies branch_in_repo(rid)(ins[i]) by {
        assert(ins[i] == post.branches@[kept.len() + i]);
        assert(inserted_branch_row(post.branches@[kept.len() + i], base, i, input[i], rid));
    }
    lemma_filter_id(ins, branch_in_repo(rid));
    assert(post.branches@.filter(branch_in_repo(rid)) =~= ins);
    assert forall|i: int| 0 <= i < input.len() implies inserted_branch_row(
        #[trigger] post.branches@.filter(branch_in_repo(rid))[i],
        base,
        i,
        input[i],
        rid,
    ) by {
        assert(ins[i] == post.branches@[kept.len() + i]);
    }
}

/// Replace, not merge: after replacing one repository's branch set and
/// then replacing it again, a query finds exactly the second set,
/// regardless of any overlap between the two.
pub proof fn lemma_replace_not_merge(
    db0: Database,
    db1: Database,
    db2: Database,
    rid: Seq<char>,
    first_set: Seq<Branch>,
    second_set: Seq<Branch>,
    base1: i64,
    base2: i64,
)
    requires
        branches_replaced(db0, db1, rid, first_set, base1),
        branches_replaced(db1, db2, rid, second_set, base2),
    ensures
        db2.branches@.filter(branch_in_repo(rid)).len() == second_set.len(),
        forall|i: int|
            0 <= i < second_set.len() ==> inserted_branch_row(
                #[trigger] db2.branches@.filter(branch_in_repo(rid))[i],
                base2,
                i,
                second_set[i],
                rid,
            ),
{
    lemma_branches_query_after_replace(db1, db2, rid, second_set, base2);
}

/// Two branch rows carry the same content if they agree on everything
/// but the synthetic identity.
pub open spec fn branch_content_eq(a: Branch, b: Branch) -> bool {
    &&& a.repo_id@ == b.repo_id@
    &&& a.name@ == b.name@
    &&& a.sha@ == b.sha@
    &&& a.ahead_by == b.ahead_by
    &&& a.behind_by == b.behind_by
    &&& a.status == b.status
    &&& a.last_commit_date == b.last_commit_date
}

/// Two pull-request rows carry the same content if they agree on
/// everything but the synthetic identity.
pub open spec fn pr_content_eq(a: PullRequest, b: PullRequest) -> bool {
    &&& a.repo_id@ == b.repo_id@
    &&& a.branch_id == b.branch_id
    &&& a.number == b.number
    &&& a.state == b.state
    &&& a.title@ == b.title@
    &&& a.created_at == b.created_at
    &&& a.updated_at == b.updated_at
}

/// Two commit rows carry the same content if they agree on everything
/// but the synthetic identities of themselves and their branch.
pub open spec fn commit_content_eq(a: Commit, b: Commit) -> bool {
    &&& a.sha@ == b.sha@
    &&& a.message@ == b.message@
    &&& a.author_name@ == b.author_name@
    &&& a.author_email@ == b.author_email@
    &&& a.authored_date == b.authored_date
    &&& a.committer_name@ == b.committer_name@
    &&& a.committer_email@ == b.committer_email@
    &&& a.committed_date == b.committed_date
}

/// Idempotence of the branch step: replaying a replacement with the
/// same fetched input, from any two store states, leaves the repository
/// with row-for-row identical branch content; only the synthetic
/// identities may differ.
pub proof fn lemma_branch_replace_idempotent(
    pre_a: Database,
    post_a: Database,
    pre_b: Database,
    post_b: Database,
    rid: Seq<char>,
    input: Seq<Branch>,
    base_a: i64,
    base_b: i64,
)
    requires
        branches_replaced(pre_a, post_a, rid, input, base_a),
        branches_replaced(pre_b, post_b, rid, input, base_b),
    ensures
        post_a.branches@.filter(branch_in_repo(rid)).len() == post_b.branches@.filter(
            branch_in_repo(rid),
        ).len(),
        forall|i: int|
            0 <= i < input.len() ==> branch_content_eq(
                #[trigger] post_a.branches@.filter(branch_in_repo(rid))[i],
                post_b.branches@.filter(branch_in_repo(rid))[i],
            ),
{
    lemma_branches_query_after_replace(pre_a, post_a, rid, input, base_a);
    lemma_branches_query_after_replace(pre_b, post_b, rid, input, base_b);
    assert forall|i: int| 0 <= i < input.len() implies branch_content_eq(
        #[trigger] post_a.branches@.filter(branch_in_repo(rid))[i],
        post_b.branches@.filter(branch_in_repo(rid))[i],
    ) by {
        assert(inserted_branch_row(
            post_a.branches@.filter(branch_in_repo(rid))[i],
            base_a,
            i,
            input[i],
            rid,
        ));
        assert(inserted_branch_row(
            post_b.branches@.filter(branch_in_repo(rid))[i],
            base_b,
            i,
            input[i],
            rid,
        ));
    }
}

/// Idempotence of the pull-request step, in the same sense.
pub proof fn lemma_pr_replace_idempotent(
    pre_a: Database,
    post_a: Database,
    pre_b: Database,
    post_b: Database,
    rid: Seq<char>,
    input: Seq<PullRequest>,
    base_a: i64,
    base_b: i64,
)
    requires
        prs_replaced(pre_a, post_a, rid, input, base_a),
        prs_replaced(pre_b, post_b, rid, input, base_b),
    ensures
        post_a.pull_requests@.filter(pr_in_repo(rid)).len() == post_b.pull_requests@.filter(
            pr_in_repo(rid),
        ).len(),
        forall|i: int|
            0 <= i < input.len() ==> pr_content_eq(
                #[trigger] post_a.pull_requests@.filter(pr_in_repo(rid))[i],
                post_b.pull_requests@.filter(pr_in_repo(rid))[i],
            ),
{
    lemma_prs_query_after_replace(pre_a, post_a, rid, input, base_a);
    lemma_prs_query_after_replace(pre_b, post_b, rid, input, base_b);
    assert forall|i: int| 0 <= i < input.len() implies pr_content_eq(
        #[trigger] post_a.pull_requests@.filter(pr_in_repo(rid))[i],
        post_b.pull_requests@.filter(pr_in_repo(rid))[i],
    ) by {
        assert(inserted_pr_row(
            post_a.pull_requests@.filter(pr_in_repo(rid))[i],
            base_a,
            i,
            input[i],
            rid,
        ));
        assert(inserted_pr_row(
            post_b.pull_requests@.filter(pr_in_repo(rid))[i],
            base_b,
            i,
            input[i],
            rid,
        ));
    }
}

/// After a wholesale replacement of one repository's pull-request set,
/// a query for that repository finds exactly the fresh rows.
pub proof fn lemma_prs_query_after_replace(
    pre: Database,
    post: Database,
    rid: Seq<char>,
    input: Seq<PullRequest>,
    base: i64,
)
    requires
        prs_replaced(pre, post, rid, input, base),
    ensures
        post.pull_requests@.filter(pr_in_repo(rid)).len() == input.len(),
        forall|i: int|
            0 <= i < input.len() ==> inserted_pr_row(
                #[trigger] post.pull_requests@.filter(pr_in_repo(rid))[i],
                base,
                i,
                input[i],
                rid,
            ),
{
    let kept = pre.pull_requests@.filter(pr_not_in_repo(rid));
    let ins = post.pull_requests@.skip(kept.len() as int);
    assert(post.pull_requests@ =~= kept + ins);
    Seq::filter_distributes_over_add(kept, ins, pr_in_repo(rid));
    lemma_filter_pred_holds(pre.pull_requests@, pr_not_in_repo(rid));
    assert forall|i: int| 0 <= i < kept.len() implies !pr_in_repo(rid)(kept[i]) by {
        assert(pr_not_in_repo(rid)(kept[i]));
    }
    lemma_filter_none(kept, pr_in_repo(rid));
    assert forall|i: int| 0 <= i < ins.len() implies pr_in_repo(rid)(ins[i]) by {
        assert(ins[i] == post.pull_requests@[kept.len() + i]);
        assert(inserted_pr_row(post.pull_requests@[kept.len() + i], base, i, input[i], rid));
    }
    lemma_filter_id(ins, pr_in_repo(rid));
    assert(post.pull_requests@.filter(pr_in_repo(rid)) =~= ins);
    assert forall|i: int| 0 <= i < input.len() implies inserted_pr_row(
        #[trigger] post.pull_requests@.filter(pr_in_repo(rid))[i],
        base,
        i,
        input[i],
        rid,
    ) by {
        assert(ins[i] == post.pull_requests@[kept.len() + i]);
    }
}

/// Idempotence of the commit step: replaying a branch's commit
/// replacement with the same fetched input leaves row-for-row identical
/// commit content under whichever identity the branch carries in each
/// run.
pub proof fn lemma_commit_replace_idempotent(
    pre_a: Database,
    post_a: Database,
    pre_b: Database,
    post_b: Database,
    bid_a: i64,
    bid_b: i64,
    input: Seq<Commit>,
    base_a: i64,
    base_b: i64,
)
    requires
        commits_replaced(pre_a, post_a, bid_a, input, base_a),
        commits_replaced(pre_b, post_b, bid_b, input, base_b),
    ensures
        post_a.commits@.filter(commit_in_branch(bid_a)).len() == post_b.commits@.filter(
            commit_in_branch(bid_b),
        ).len(),
        forall|i: int|
            0 <= i < input.len() ==> commit_content_eq(
                #[trigger] post_a.commits@.filter(commit_in_branch(bid_a))[i],
                post_b.commits@.filter(commit_in_branch(bid_b))[i],
            ),
{
    lemma_commits_query_after_replace(pre_a, post_a, bid_a, input, base_a);
    lemma_commits_query_after_replace(pre_b, post_b, bid_b, input, base_b);
    assert forall|i: int| 0 <= i < input.len() implies commit_content_eq(
        #[trigger] post_a.commits@.filter(commit_in_branch(bid_a))[i],
        post_b.commits@.filter(commit_in_branch(bid_b))[i],
    ) by {
        assert(inserted_commit_row(
            post_a.commits@.filter(commit_in_branch(bid_a))[i],
            base_a,
            i,
            input[i],
            bid_a,
        ));
        assert(inserted_commit_row(
            post_b.commits@.filter(commit_in_branch(bid_b))[i],
            base_b,
            i,
            input[i],
            bid_b,
        ));
    }
}

/// After a wholesale replacement of one branch's commit set, a query
/// for that branch finds exactly the fresh rows.
pub proof fn lemma_commits_query_after_replace(
    pre: Database,
    post: Database,
    bid: i64,
    input: Seq<Commit>,
    base: i64,
)
    requires
        commits_replaced(pre, post, bid, input, base),
    ensures
        post.commits@.filter(commit_in_branch(bid)).len() == input.len(),
        forall|i: int|
            0 <= i < input.len() ==> inserted_commit_row(
                #[trigger] post.commits@.filter(commit_in_branch(bid))[i],
                base,
                i,
                input[i],
                bid,
            ),
{
    let kept = pre.commits@.filter(commit_not_in_branch(bid));
    let ins = post.commits@.skip(kept.len() as int);
    assert(post.commits@ =~= kept + ins);
    Seq::filter_distributes_over_add(kept, ins, commit_in_branch(bid));
    lemma_filter_pred_holds(pre.commits@, commit_not_in_branch(bid));
    assert forall|i: int| 0 <= i < kept.len() implies !commit_in_branch(bid)(kept[i]) by {
        assert(commit_not_in_branch(bid)(kept[i]));
    }
    lemma_filter_none(kept, commit_in_branch(bid));
    assert forall|i: int| 0 <= i < ins.len() implies commit_in_branch(bid)(ins[i]) by {
        assert(ins[i] == post.commits@[kept.len() + i]);
        assert(inserted_commit_row(post.commits@[kept.len() + i], base, i, input[i], bid));
    }
    lemma_filter_id(ins, commit_in_branch(bid));
    assert(post.commits@.filter(commit_in_branch(bid)) =~= ins);
    assert forall|i: int| 0 <= i < input.len() implies inserted_commit_row(
        #[trigger] post.commits@.filter(commit_in_branch(bid))[i],
        base,
        i,
        input[i],
        bid,
    ) by {
        assert(ins[i] == post.commits@[kept.len() + i]);
    }
}

/// The single-group invariant: in any well-formed store, a repository
/// has at most one membership, so it belongs to at most one group.
/// Every group operation requires and re-establishes well-formedness,
/// so this holds at every point of any sequence of calls.
pub proof fn lemma_single_group(db: Database, rid: Seq<char>, i: int, j: int)
    requires
        db.wf(),
        0 <= i < db.memberships@.len(),
        0 <= j < db.memberships@.len(),
        db.memberships@[i].repo_id@ == rid,
        db.memberships@[j].repo_id@ == rid,
    ensures
        i == j,
{
    if i < j {
        assert(rel_mem_repos_differ()(db.memberships@[i], db.memberships@[j]));
    } else if j < i {
        assert(rel_mem_repos_differ()(db.memberships@[j], db.memberships@[i]));
    }
}

/// Cascade on delete: deleting a group removes its members'
/// memberships, so a repository that was in the group belongs to no
/// group afterwards — it appears in the ungrouped listing and in no
/// group's member list — while its repository row survives.
pub proof fn lemma_delete_group_cascades(pre: Database, post: Database, gid: i64, rid: Seq<char>)
    requires
        pre.wf(),
        post.groups@ == pre.groups@.filter(group_not_id(gid)),
        post.memberships@ == pre.memberships@.filter(mem_not_of_group(gid)),
        post.repos@ == pre.repos@,
        repo_in_group(pre.memberships@, rid, gid),
    ensures
        !repo_grouped(post.memberships@, rid),
        forall|g2: i64| !repo_in_group(post.memberships@, rid, g2),
        forall|k: int|
            0 <= k < post.repos@.len() && post.repos@[k].id@ == rid ==> ungrouped(
                post.memberships@,
            )(post.repos@[k]),
        repo_id_exists(pre.repos@, rid) ==> repo_id_exists(post.repos@, rid),
{
    let m0 = choose|k: int|
        0 <= k < pre.memberships@.len() && pre.memberships@[k].repo_id@ == rid
            && pre.memberships@[k].group_id == gid;
    if repo_grouped(post.memberships@, rid) {
        let t = choose|t: int|
            0 <= t < post.memberships@.len() && post.memberships@[t].repo_id@ == rid;
        let m = post.memberships@[t];
        lemma_filter_pred_holds(pre.memberships@, mem_not_of_group(gid));
        assert(mem_not_of_group(gid)(m));
        lemma_filter_sub(pre.memberships@, mem_not_of_group(gid));
        assert(pre.memberships@.contains(m));
        let u = choose|u: int| 0 <= u < pre.memberships@.len() && pre.memberships@[u] == m;
        // Two memberships of one repository violate well-formedness.
        if u < m0 {
            assert(rel_mem_repos_differ()(pre.memberships@[u], pre.memberships@[m0]));
        } else if m0 < u {
            assert(rel_mem_repos_differ()(pre.memberships@[m0], pre.memberships@[u]));
        } else {
            assert(m.group_id == gid);
        }
        assert(false);
    }
    assert forall|g2: i64| !repo_in_group(post.memberships@, rid, g2) by {
        if repo_in_group(post.memberships@, rid, g2) {
            let t = choose|t: int|
                0 <= t < post.memberships@.len() && post.memberships@[t].repo_id@ == rid
                    && post.memberships@[t].group_id == g2;
            assert(repo_grouped(post.memberships@, rid));
        }
    }
}

} // verus!
