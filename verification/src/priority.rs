//! The traffic-light priority scorer: merges local working-copy status
//! and remote branch divergence into one ordinal urgency class, lower
//! meaning more urgent.

use crate::models::{Branch, LocalRepoStatus};
use crate::table::first_match;
use vstd::prelude::*;

verus! {

/// Some branch diverges from the default branch.
pub open spec fn any_diverged(bs: Seq<Branch>) -> bool {
    exists|i: int| 0 <= i < bs.len() && (bs[i].ahead_by > 0 || bs[i].behind_by > 0)
}

/// Some branch carries unmerged work: ahead of the default branch with
/// nothing behind.
pub open spec fn any_unmerged(bs: Seq<Branch>) -> bool {
    exists|i: int| 0 <= i < bs.len() && bs[i].ahead_by > 0 && bs[i].behind_by == 0
}

/// The priority class of one repository. Evaluated in order, first match
/// wins: unpushed or behind-upstream commits locally, or any diverged
/// branch on the remote, is class 0 (needs sync); uncommitted local
/// files alone are class 1 (local changes); a stale unmerged branch is
/// class 2 (cleanup); otherwise class 3 (complete).
pub open spec fn priority_spec(bs: Seq<Branch>, ls: Option<LocalRepoStatus>) -> u8 {
    if (match ls {
        Some(s) => s.unpushed_commits > 0 || s.behind_commits > 0,
        None => false,
    }) || any_diverged(bs) {
        0
    } else if (match ls {
        Some(s) => s.uncommitted_files > 0,
        None => false,
    }) {
        1
    } else if any_unmerged(bs) {
        2
    } else {
        3
    }
}

/// Scores one repository from its branches and, if one was recorded, its
/// most recent local-scan result.
pub fn calculate_repo_status_priority(
    branches: &Vec<Branch>,
    local_status: &Option<LocalRepoStatus>,
) -> (r: u8)
    ensures
        r == priority_spec(branches@, *local_status),
{
    if let Some(s) = local_status {
        if s.unpushed_commits > 0 || s.behind_commits > 0 {
            return 0;
        }
    }
    let diverged = first_match(
        branches,
        (|x: &Branch| -> (b: bool)
            ensures
                b == (x.ahead_by > 0 || x.behind_by > 0),
            { x.ahead_by > 0 || x.behind_by > 0 }),
        Ghost(|x: Branch| x.ahead_by > 0 || x.behind_by > 0),
    );
    if let Some(i) = diverged {
        proof {
            assert(branches@[i as int].ahead_by > 0 || branches@[i as int].behind_by > 0);
        }
        return 0;
    }
    proof {
        if any_diverged(branches@) {
            let k = choose|k: int|
                0 <= k < branches@.len() && (branches@[k].ahead_by > 0 || branches@[k].behind_by
                    > 0);
            assert(false);
        }
    }
    if let Some(s) = local_status {
        if s.uncommitted_files > 0 {
            return 1;
        }
    }
    let unmerged = first_match(
        branches,
        (|x: &Branch| -> (b: bool)
            ensures
                b == (x.ahead_by > 0 && x.behind_by == 0),
            { x.ahead_by > 0 && x.behind_by == 0 }),
        Ghost(|x: Branch| x.ahead_by > 0 && x.behind_by == 0),
    );
    if let Some(i) = unmerged {
        proof {
            assert(branches@[i as int].ahead_by > 0 && branches@[i as int].behind_by == 0);
        }
        return 2;
    }
    proof {
        if any_unmerged(branches@) {
            let k = choose|k: int|
                0 <= k < branches@.len() && branches@[k].ahead_by > 0 && branches@[k].behind_by
                    == 0;
            assert(false);
        }
    }
    3
}

/// The worst (lowest) class among the given scores, or 3 of none: the
/// single indicator shown for a group of repositories.
pub open spec fn worst_of(s: Seq<u8>) -> u8
    decreases s.len(),
{
    if s.len() == 0 {
        3
    } else {
        let rest = worst_of(s.drop_first());
        if s[0] <= rest {
            s[0]
        } else {
            rest
        }
    }
}

proof fn lemma_worst_of_push_front(s: Seq<u8>, i: int)
    requires
        0 <= i <= s.len(),
    ensures
        worst_of(s.skip(i)) == if i == s.len() {
            3int as u8
        } else if s[i] <= worst_of(s.skip(i + 1)) {
            s[i]
        } else {
            worst_of(s.skip(i + 1))
        },
    decreases s.len() - i,
{
    if i == s.len() {
        assert(s.skip(i).len() == 0);
    } else {
        assert(s.skip(i).len() > 0);
        assert(s.skip(i)[0] == s[i]);
        assert(s.skip(i).drop_first() =~= s.skip(i + 1));
    }
}

/// The worst class among the given scores.
pub fn worst_priority(scores: &Vec<u8>) -> (r: u8)
    ensures
        r == worst_of(scores@),
{
    let mut i: usize = scores.len();
    let mut acc: u8 = 3;
    while i > 0
        invariant
            i <= scores@.len(),
            acc == worst_of(scores@.skip(i as int)),
        decreases i,
    {
        proof {
            lemma_worst_of_push_front(scores@, i - 1);
        }
        i -= 1;
        let x = scores[i];
        if x <= acc {
            acc = x;
        }
    }
    proof {
        assert(scores@.skip(0) =~= scores@);
    }
    acc
}

} // verus!
