//! The remote-gateway side of the engine: owner validation, timestamp
//! parsing, the branch-status classifier, and the pure assembly of model
//! rows from fetched gateway data. The gateway itself — the process that
//! talks to the remote code-hosting service — stands behind the
//! [`GitHubClient`] trait and is supplied by the caller.

use crate::error::Error;
use crate::models::{Branch, BranchStatus, Commit, PRState, PullRequest, Repository};
use crate::strutil::{char_alnum, is_unicode_alphanumeric, last_line_of, seq_contains,
    seq_starts_with, str_contains, str_contains_char, str_eq, str_last_line, str_starts_with,
    str_trim, trim_view};
use vstd::prelude::*;
use vstd::string::{StrSliceExecFns, StringExecFns, StringSliceAdditionalSpecFns};

verus! {

/// The operations the engine asks of the remote gateway. The real
/// implementation shells out to external tooling; tests supply a fake
/// that records its calls.
pub trait GitHubClient {
    fn list_repos(&mut self, owner: &str, limit: usize) -> Result<Vec<Repository>, Error>;

    fn fetch_branches(&mut self, repo_id: &str) -> Result<Vec<Branch>, Error>;

    fn fetch_pull_requests(&mut self, repo_id: &str) -> Result<Vec<PullRequest>, Error>;

    fn fetch_commits(&mut self, repo_id: &str, branch_name: &str, branch_id: i64) -> Result<
        Vec<Commit>,
        Error,
    >;

    fn classify_branch_status(
        &self,
        branch: &Branch,
        prs: &Vec<PullRequest>,
        default_branch: &str,
    ) -> BranchStatus;

    fn create_pull_request(
        &mut self,
        repo_id: &str,
        branch_name: &str,
        title: Option<&str>,
        body: Option<&str>,
    ) -> Result<String, Error>;
}

/// A well-formed owner name: non-empty, at most 39 bytes, all characters
/// alphanumeric or hyphens.
pub open spec fn valid_owner(s: &str) -> bool {
    &&& s@.len() > 0
    &&& s.spec_bytes().len() as usize <= 39
    &&& forall|i: int| 0 <= i < s@.len() ==> is_unicode_alphanumeric(#[trigger] s@[i]) || s@[i] == '-'
}

/// Rejects malformed owner names before any gateway call.
pub fn validate_owner(owner: &str) -> (r: Result<(), Error>)
    ensures
        r is Ok <==> valid_owner(owner),
{
    if owner.is_empty() {
        return Err(Error::InvalidOwner(String::from_str("owner cannot be empty")));
    }
    let n = owner.unicode_len();
    let mut i: usize = 0;
    while i < n
        invariant
            i <= n,
            n == owner@.len(),
            forall|j: int|
                0 <= j < i ==> is_unicode_alphanumeric(#[trigger] owner@[j]) || owner@[j] == '-',
        decreases n - i,
    {
        let c = owner.get_char(i);
        if !(char_alnum(c) || c == '-') {
            return Err(Error::InvalidOwner(String::from_str(owner)));
        }
        i += 1;
    }
    if owner.len() > 39 {
        return Err(Error::InvalidOwner(String::from_str(owner)));
    }
    Ok(())
}

/// The value an RFC 3339 date-and-time string denotes, as milliseconds
/// since the Unix epoch, or nothing if the string is not one. The result
/// depends on the characters alone.
pub uninterp spec fn rfc3339_millis_of(s: Seq<char>) -> Option<i64>;

/// Relies on `chrono::DateTime::parse_from_rfc3339` to parse the string
/// and `DateTime::timestamp_millis` to read the instant it denotes.
#[verifier::external_body]
fn parse_rfc3339_millis(s: &str) -> (r: Option<i64>)
    ensures
        r == rfc3339_millis_of(s@),
{
    match chrono::DateTime::parse_from_rfc3339(s) {
        Ok(dt) => Some(dt.timestamp_millis()),
        Err(_) => None,
    }
}

/// Parses a timestamp as the remote service formats them; a string that
/// is not RFC 3339 is a gateway error.
pub fn parse_github_timestamp(timestamp: &str) -> (r: Result<i64, Error>)
    ensures
        r is Ok <==> rfc3339_millis_of(timestamp@) is Some,
        r is Ok ==> rfc3339_millis_of(timestamp@) == Some(r->Ok_0),
        r is Err ==> r->Err_0 is GitHubCLI,
{
    match parse_rfc3339_millis(timestamp) {
        Some(t) => Ok(t),
        None => Err(
            Error::GitHubCLI(
                String::from_str("failed to parse timestamp: ").concat(timestamp),
            ),
        ),
    }
}

/// The pull request the classifier associates with a branch: the first
/// one whose branch link is unset. This keeps the engine's observed
/// matching, under which a link by name is never established.
pub open spec fn associated_pr(prs: Seq<PullRequest>) -> Option<PullRequest>
    decreases prs.len(),
{
    if prs.len() == 0 {
        None
    } else if prs[0].branch_id is None {
        Some(prs[0])
    } else {
        associated_pr(prs.drop_first())
    }
}

proof fn lemma_associated_pr_skip(prs: Seq<PullRequest>, i: int)
    requires
        0 <= i <= prs.len(),
        forall|j: int| 0 <= j < i ==> prs[j].branch_id is Some,
    ensures
        associated_pr(prs) == associated_pr(prs.skip(i)),
    decreases i,
{
    if i == 0 {
        assert(prs.skip(0) =~= prs);
    } else {
        lemma_associated_pr_skip(prs.drop_first(), i - 1);
        assert(prs.drop_first() =~= prs.skip(1));
        assert(prs.skip(1).skip(i - 1) =~= prs.skip(i));
    }
}

/// The review-state label of a branch, given the repository's pull
/// requests and default branch name. Evaluated in order, first match
/// wins: the default branch itself never needs a pull request; an open
/// associated pull request means the branch is in review, or needs an
/// update if it is behind; a merged one marks a stale, already landed
/// branch; otherwise the branch is ready for a pull request.
pub open spec fn classify_spec(
    branch: Branch,
    prs: Seq<PullRequest>,
    default_branch: Seq<char>,
) -> BranchStatus {
    if branch.name@ == default_branch {
        BranchStatus::ReadyForPR
    } else {
        match associated_pr(prs) {
            Some(pr) => if pr.state == PRState::Open {
                if branch.behind_by > 0 {
                    BranchStatus::NeedsUpdate
                } else {
                    BranchStatus::InReview
                }
            } else {
                BranchStatus::ReadyForPR
            },
            None => BranchStatus::ReadyForPR,
        }
    }
}

/// Classifies a branch's review state; a pure function of its inputs.
pub fn classify_branch_status(
    branch: &Branch,
    prs: &Vec<PullRequest>,
    default_branch: &str,
) -> (r: BranchStatus)
    ensures
        r == classify_spec(*branch, prs@, default_branch@),
{
    if str_eq(branch.name.as_str(), default_branch) {
        return BranchStatus::ReadyForPR;
    }
    let mut i: usize = 0;
    while i < prs.len()
        invariant
            i <= prs@.len(),
            branch.name@ != default_branch@,
            forall|j: int| 0 <= j < i ==> prs@[j].branch_id is Some,
        decreases prs@.len() - i,
    {
        proof {
            lemma_associated_pr_skip(prs@, i as int);
        }
        if prs[i].branch_id.is_none() {
            proof {
                assert(prs@.skip(i as int)[0] == prs@[i as int]);
                assert(associated_pr(prs@) == Some(prs@[i as int]));
            }
            let pr = &prs[i];
            match pr.state {
                PRState::Open => {
                    proof {
                        assert(pr.state == PRState::Open);
                    }
                    if branch.behind_by > 0 {
                        return BranchStatus::NeedsUpdate;
                    } else {
                        return BranchStatus::InReview;
                    }
                },
                _ => {
                    return BranchStatus::ReadyForPR;
                },
            }
        }
        i += 1;
    }
    proof {
        lemma_associated_pr_skip(prs@, prs@.len() as int);
        assert(prs@.skip(prs@.len() as int).len() == 0);
    }
    BranchStatus::ReadyForPR
}

/// One repository row as fetched from the remote service, before
/// timestamps are parsed and the identity is assembled.
pub struct RepoFetch {
    pub name: String,
    pub owner_login: String,
    pub pushed_at: String,
    pub created_at: String,
    pub updated_at: String,
    pub language: Option<String>,
    pub description: Option<String>,
    pub is_fork: bool,
}

/// One branch row as fetched: its tip, the raw date of its last commit,
/// and the ahead/behind comparison against the default branch, when one
/// succeeded.
pub struct BranchFetch {
    pub name: String,
    pub sha: String,
    pub commit_date: String,
    pub compare: Option<(u32, u32)>,
}

/// One commit row as fetched, with raw dates.
pub struct CommitFetch {
    pub sha: String,
    pub message: String,
    pub author_name: String,
    pub author_email: String,
    pub authored_date: String,
    pub committer_name: String,
    pub committer_email: String,
    pub committed_date: String,
}

/// One pull-request row as fetched, with the service's state word and
/// raw dates.
pub struct PullRequestFetch {
    pub number: u32,
    pub state: String,
    pub title: String,
    pub created_at: String,
    pub updated_at: String,
}

pub open spec fn opt_view(o: Option<String>) -> Option<Seq<char>> {
    match o {
        Some(s) => Some(s@),
        None => None,
    }
}

pub open spec fn repo_fetch_parses(f: RepoFetch) -> bool {
    &&& rfc3339_millis_of(f.pushed_at@) is Some
    &&& rfc3339_millis_of(f.created_at@) is Some
    &&& rfc3339_millis_of(f.updated_at@) is Some
}

/// `r` is the model row assembled from `f`: identity `owner/name`,
/// parsed timestamps, default ranking weight.
pub open spec fn repo_matches_fetch(r: Repository, f: RepoFetch) -> bool {
    &&& r.id@ == f.owner_login@ + "/"@ + f.name@
    &&& r.owner@ == f.owner_login@
    &&& r.name@ == f.name@
    &&& opt_view(r.language) == opt_view(f.language)
    &&& opt_view(r.description) == opt_view(f.description)
    &&& rfc3339_millis_of(f.pushed_at@) == Some(r.pushed_at)
    &&& rfc3339_millis_of(f.created_at@) == Some(r.created_at)
    &&& rfc3339_millis_of(f.updated_at@) == Some(r.updated_at)
    &&& r.is_fork == f.is_fork
    &&& r.priority == 0
}

/// Assembles repository rows from fetched data; fails on the first
/// malformed timestamp. The caller orders the result as it needs.
pub fn assemble_repositories(raw: Vec<RepoFetch>) -> (r: Result<Vec<Repository>, Error>)
    ensures
        r is Ok <==> (forall|i: int| 0 <= i < raw@.len() ==> repo_fetch_parses(#[trigger] raw@[i])),
        r is Ok ==> r->Ok_0@.len() == raw@.len() && forall|i: int|
            0 <= i < raw@.len() ==> repo_matches_fetch(#[trigger] r->Ok_0@[i], raw@[i]),
        r is Err ==> r->Err_0 is GitHubCLI,
{
    let mut out: Vec<Repository> = Vec::new();
    let mut i: usize = 0;
    while i < raw.len()
        invariant
            i <= raw@.len(),
            out@.len() == i,
            forall|j: int| 0 <= j < i ==> repo_fetch_parses(#[trigger] raw@[j]),
            forall|j: int| 0 <= j < i ==> repo_matches_fetch(#[trigger] out@[j], raw@[j]),
        decreases raw@.len() - i,
    {
        let f = &raw[i];
        let pushed_at = match parse_github_timestamp(f.pushed_at.as_str()) {
            Ok(t) => t,
            Err(e) => {
                proof {
                    assert(!repo_fetch_parses(raw@[i as int]));
                }
                return Err(e);
            },
        };
        let created_at = match parse_github_timestamp(f.created_at.as_str()) {
            Ok(t) => t,
            Err(e) => {
                proof {
                    assert(!repo_fetch_parses(raw@[i as int]));
                }
                return Err(e);
            },
        };
        let updated_at = match parse_github_timestamp(f.updated_at.as_str()) {
            Ok(t) => t,
            Err(e) => {
                proof {
                    assert(!repo_fetch_parses(raw@[i as int]));
                }
                return Err(e);
            },
        };
        let id = f.owner_login.clone().concat("/").concat(f.name.as_str());
        out.push(
            Repository {
                id,
                owner: f.owner_login.clone(),
                name: f.name.clone(),
                language: clone_opt(&f.language),
                description: clone_opt(&f.description),
                pushed_at,
                created_at,
                updated_at,
                is_fork: f.is_fork,
                priority: 0,
            },
        );
        i += 1;
    }
    Ok(out)
}

fn clone_opt(o: &Option<String>) -> (r: Option<String>)
    ensures
        r == *o,
{
    match o {
        Some(s) => Some(s.clone()),
        None => None,
    }
}

pub open spec fn branch_fetch_parses(f: BranchFetch) -> bool {
    rfc3339_millis_of(f.commit_date@) is Some
}

/// The divergence recorded for a fetched branch: the default branch
/// never diverges from itself, and a failed comparison counts as no
/// divergence.
pub open spec fn fetch_divergence(f: BranchFetch, default_branch: Seq<char>) -> (u32, u32) {
    if f.name@ == default_branch {
        (0u32, 0u32)
    } else {
        match f.compare {
            Some(c) => c,
            None => (0u32, 0u32),
        }
    }
}

/// `b` is the model row assembled from `f` at position `i`.
pub open spec fn branch_matches_fetch(
    b: Branch,
    f: BranchFetch,
    i: int,
    rid: Seq<char>,
    default_branch: Seq<char>,
) -> bool {
    &&& b.id == i
    &&& b.repo_id@ == rid
    &&& b.name@ == f.name@
    &&& b.sha@ == f.sha@
    &&& b.ahead_by == fetch_divergence(f, default_branch).0
    &&& b.behind_by == fetch_divergence(f, default_branch).1
    &&& b.status == BranchStatus::ReadyForPR
    &&& rfc3339_millis_of(f.commit_date@) == Some(b.last_commit_date)
}

/// Assembles branch rows from fetched data; fails on the first
/// malformed commit date. Statuses start at `ReadyForPR` and are set by
/// the classifier once pull requests are known.
pub fn assemble_branches(repo_id: &str, default_branch: &str, raw: Vec<BranchFetch>) -> (r: Result<
    Vec<Branch>,
    Error,
>)
    requires
        raw@.len() <= i64::MAX,
    ensures
        r is Ok <==> (forall|i: int|
            0 <= i < raw@.len() ==> branch_fetch_parses(#[trigger] raw@[i])),
        r is Ok ==> r->Ok_0@.len() == raw@.len() && forall|i: int|
            0 <= i < raw@.len() ==> branch_matches_fetch(
                #[trigger] r->Ok_0@[i],
                raw@[i],
                i,
                repo_id@,
                default_branch@,
            ),
        r is Err ==> r->Err_0 is GitHubCLI,
{
    let mut out: Vec<Branch> = Vec::new();
    let mut i: usize = 0;
    while i < raw.len()
        invariant
            i <= raw@.len(),
            raw@.len() <= i64::MAX,
            out@.len() == i,
            forall|j: int| 0 <= j < i ==> branch_fetch_parses(#[trigger] raw@[j]),
            forall|j: int|
                0 <= j < i ==> branch_matches_fetch(
                    #[trigger] out@[j],
                    raw@[j],
                    j,
                    repo_id@,
                    default_branch@,
                ),
        decreases raw@.len() - i,
    {
        let f = &raw[i];
        let last_commit_date = match parse_github_timestamp(f.commit_date.as_str()) {
            Ok(t) => t,
            Err(e) => {
                proof {
                    assert(!branch_fetch_parses(raw@[i as int]));
                }
                return Err(e);
            },
        };
        let (ahead_by, behind_by) = if str_eq(f.name.as_str(), default_branch) {
            (0u32, 0u32)
        } else {
            match f.compare {
                Some(c) => c,
                None => (0u32, 0u32),
            }
        };
        out.push(
            Branch {
                id: i as i64,
                repo_id: String::from_str(repo_id),
                name: f.name.clone(),
                sha: f.sha.clone(),
                ahead_by,
                behind_by,
                status: BranchStatus::ReadyForPR,
                last_commit_date,
            },
        );
        i += 1;
    }
    Ok(out)
}

pub open spec fn commit_fetch_parses(f: CommitFetch) -> bool {
    &&& rfc3339_millis_of(f.authored_date@) is Some
    &&& rfc3339_millis_of(f.committed_date@) is Some
}

/// `c` is the model row assembled from `f` at position `i`.
pub open spec fn commit_matches_fetch(c: Commit, f: CommitFetch, i: int, bid: i64) -> bool {
    &&& c.id == i
    &&& c.branch_id == bid
    &&& c.sha@ == f.sha@
    &&& c.message@ == f.message@
    &&& c.author_name@ == f.author_name@
    &&& c.author_email@ == f.author_email@
    &&& rfc3339_millis_of(f.authored_date@) == Some(c.authored_date)
    &&& c.committer_name@ == f.committer_name@
    &&& c.committer_email@ == f.committer_email@
    &&& rfc3339_millis_of(f.committed_date@) == Some(c.committed_date)
}

/// How many fetched commits are kept: commit history is display-only,
/// so it is bounded to the most recent 50.
pub open spec fn commit_keep_count(n: int) -> int {
    if n <= 50 {
        n
    } else {
        50
    }
}

/// Assembles commit rows for one branch from fetched data, keeping only
/// the first 50; fails on the first malformed date among those kept.
pub fn assemble_commits(branch_id: i64, raw: Vec<CommitFetch>) -> (r: Result<Vec<Commit>, Error>)
    ensures
        r is Ok <==> (forall|i: int|
            0 <= i < commit_keep_count(raw@.len() as int) ==> commit_fetch_parses(
                #[trigger] raw@[i],
            )),
        r is Ok ==> r->Ok_0@.len() == commit_keep_count(raw@.len() as int) && forall|i: int|
            0 <= i < commit_keep_count(raw@.len() as int) ==> commit_matches_fetch(
                #[trigger] r->Ok_0@[i],
                raw@[i],
                i,
                branch_id,
            ),
        r is Err ==> r->Err_0 is GitHubCLI,
{
    let keep: usize = if raw.len() <= 50 {
        raw.len()
    } else {
        50
    };
    let mut out: Vec<Commit> = Vec::new();
    let mut i: usize = 0;
    while i < keep
        invariant
            i <= keep,
            keep == commit_keep_count(raw@.len() as int),
            out@.len() == i,
            forall|j: int| 0 <= j < i ==> commit_fetch_parses(#[trigger] raw@[j]),
            forall|j: int|
                0 <= j < i ==> commit_matches_fetch(#[trigger] out@[j], raw@[j], j, branch_id),
        decreases keep - i,
    {
        let f = &raw[i];
        let authored_date = match parse_github_timestamp(f.authored_date.as_str()) {
            Ok(t) => t,
            Err(e) => {
                proof {
                    assert(!commit_fetch_parses(raw@[i as int]));
                }
                return Err(e);
            },
        };
        let committed_date = match parse_github_timestamp(f.committed_date.as_str()) {
            Ok(t) => t,
            Err(e) => {
                proof {
                    assert(!commit_fetch_parses(raw@[i as int]));
                }
                return Err(e);
            },
        };
        out.push(
            Commit {
                id: i as i64,
                branch_id,
                sha: f.sha.clone(),
                message: f.message.clone(),
                author_name: f.author_name.clone(),
                author_email: f.author_email.clone(),
                authored_date,
                committer_name: f.committer_name.clone(),
                committer_email: f.committer_email.clone(),
                committed_date,
            },
        );
        i += 1;
    }
    Ok(out)
}

pub open spec fn pr_fetch_parses(f: PullRequestFetch) -> bool {
    &&& rfc3339_millis_of(f.created_at@) is Some
    &&& rfc3339_millis_of(f.updated_at@) is Some
}

/// The model state a fetched state word denotes; an unrecognized word
/// counts as closed.
pub open spec fn pr_state_of_api(s: Seq<char>) -> PRState {
    if s == "OPEN"@ {
        PRState::Open
    } else if s == "CLOSED"@ {
        PRState::Closed
    } else if s == "MERGED"@ {
        PRState::Merged
    } else {
        PRState::Closed
    }
}

/// `p` is the model row assembled from `f` at position `i`; the branch
/// link starts unset.
pub open spec fn pr_matches_fetch(p: PullRequest, f: PullRequestFetch, i: int, rid: Seq<char>) -> bool {
    &&& p.id == i
    &&& p.repo_id@ == rid
    &&& p.branch_id is None
    &&& p.number == f.number
    &&& p.state == pr_state_of_api(f.state@)
    &&& p.title@ == f.title@
    &&& rfc3339_millis_of(f.created_at@) == Some(p.created_at)
    &&& rfc3339_millis_of(f.updated_at@) == Some(p.updated_at)
}

/// Assembles pull-request rows from fetched data; fails on the first
/// malformed timestamp.
pub fn assemble_pull_requests(repo_id: &str, raw: Vec<PullRequestFetch>) -> (r: Result<
    Vec<PullRequest>,
    Error,
>)
    requires
        raw@.len() <= i64::MAX,
    ensures
        r is Ok <==> (forall|i: int| 0 <= i < raw@.len() ==> pr_fetch_parses(#[trigger] raw@[i])),
        r is Ok ==> r->Ok_0@.len() == raw@.len() && forall|i: int|
            0 <= i < raw@.len() ==> pr_matches_fetch(#[trigger] r->Ok_0@[i], raw@[i], i, repo_id@),
        r is Err ==> r->Err_0 is GitHubCLI,
{
    let mut out: Vec<PullRequest> = Vec::new();
    let mut i: usize = 0;
    while i < raw.len()
        invariant
            i <= raw@.len(),
            raw@.len() <= i64::MAX,
            out@.len() == i,
            forall|j: int| 0 <= j < i ==> pr_fetch_parses(#[trigger] raw@[j]),
            forall|j: int|
                0 <= j < i ==> pr_matches_fetch(#[trigger] out@[j], raw@[j], j, repo_id@),
        decreases raw@.len() - i,
    {
        let f = &raw[i];
        let created_at = match parse_github_timestamp(f.created_at.as_str()) {
            Ok(t) => t,
            Err(e) => {
                proof {
                    assert(!pr_fetch_parses(raw@[i as int]));
                }
                return Err(e);
            },
        };
        let updated_at = match parse_github_timestamp(f.updated_at.as_str()) {
            Ok(t) => t,
            Err(e) => {
                proof {
                    assert(!pr_fetch_parses(raw@[i as int]));
                }
                return Err(e);
            },
        };
        let state = if str_eq(f.state.as_str(), "OPEN") {
            PRState::Open
        } else if str_eq(f.state.as_str(), "CLOSED") {
            PRState::Closed
        } else if str_eq(f.state.as_str(), "MERGED") {
            PRState::Merged
        } else {
            PRState::Closed
        };
        out.push(
            PullRequest {
                id: i as i64,
                repo_id: String::from_str(repo_id),
                branch_id: None,
                number: f.number,
                state,
                title: f.title.clone(),
                created_at,
                updated_at,
            },
        );
        i += 1;
    }
    Ok(out)
}

/// How a branch name is turned into a default pull-request title:
/// dashes and underscores become spaces.
pub open spec fn title_char(c: char) -> char {
    if c == '-' || c == '_' {
        ' '
    } else {
        c
    }
}

/// The default pull-request title derived from a branch name.
pub fn default_pr_title(branch_name: &str) -> (r: String)
    ensures
        r@.len() == branch_name@.len(),
        forall|i: int| 0 <= i < branch_name@.len() ==> r@[i] == title_char(branch_name@[i]),
{
    let n = branch_name.unicode_len();
    let mut out = String::new();
    let mut i: usize = 0;
    while i < n
        invariant
            i <= n,
            n == branch_name@.len(),
            out@.len() == i,
            forall|j: int| 0 <= j < i ==> out@[j] == title_char(branch_name@[j]),
        decreases n - i,
    {
        let c = branch_name.get_char(i);
        if c == '-' || c == '_' {
            out.append(" ");
            proof {
                reveal_strlit(" ");
            }
        } else {
            let piece = branch_name.substring_char(i, i + 1);
            out.append(piece);
        }
        i += 1;
    }
    out
}

/// The body used when the caller supplies none.
pub fn default_pr_body() -> (r: String)
    ensures
        r@ == "Created via Overall"@,
{
    String::from_str("Created via Overall")
}

/// A repository identity acceptable to the pull-request command: it
/// holds a slash.
pub open spec fn repo_id_shaped(s: Seq<char>) -> bool {
    exists|i: int| 0 <= i < s.len() && s[i] == '/'
}

/// Rejects a repository identity that is not `owner/name`-shaped before
/// the gateway is asked to create a pull request.
pub fn validate_pr_repo_id(repo_id: &str) -> (r: Result<(), Error>)
    ensures
        r is Ok <==> repo_id_shaped(repo_id@),
        r is Err ==> r->Err_0 is GitHubCLI,
{
    if str_contains_char(repo_id, '/') {
        Ok(())
    } else {
        Err(Error::GitHubCLI(String::from_str("invalid repository id: ").concat(repo_id)))
    }
}

/// What the gateway's create-pull-request call is judged to have
/// produced. On success the trimmed output is the new pull request's
/// address. On failure, a complaint that the pull request already
/// exists whose last line is an address of the hosting service is still
/// success — creation and discovery are not distinguished — and the
/// existing address is returned; anything else is a gateway error.
pub fn pr_creation_outcome(success: bool, stdout: &str, stderr: &str) -> (r: Result<String, Error>)
    ensures
        success ==> r is Ok && r->Ok_0@ == trim_view(stdout@),
        !success ==> {
            if seq_contains(stderr@, "already exists"@) && stderr@.len() > 0 && seq_starts_with(
                trim_view(last_line_of(stderr@)),
                "https://github.com"@,
            ) {
                r is Ok && r->Ok_0@ == trim_view(last_line_of(stderr@))
            } else {
                r is Err && r->Err_0 is GitHubCLI
            }
        },
{
    if success {
        return Ok(str_trim(stdout));
    }
    if str_contains(stderr, "already exists") {
        if let Some(url_line) = str_last_line(stderr) {
            let url = str_trim(url_line.as_str());
            if str_starts_with(url.as_str(), "https://github.com") {
                return Ok(url);
            }
        }
    }
    Err(Error::GitHubCLI(String::from_str("failed to create pull request: ").concat(stderr)))
}

/// The classifier is deterministic: it is a function of the branch, the
/// pull requests and the default branch name alone, so identical inputs
/// always yield the same status; and for the default branch itself the
/// status is always `ReadyForPR`.
pub proof fn lemma_classifier_deterministic(
    branch: Branch,
    prs: Seq<PullRequest>,
    default_branch: Seq<char>,
    r1: BranchStatus,
    r2: BranchStatus,
)
    requires
        r1 == classify_spec(branch, prs, default_branch),
        r2 == classify_spec(branch, prs, default_branch),
    ensures
        r1 == r2,
        branch.name@ == default_branch ==> r1 == BranchStatus::ReadyForPR,
{
}

} // verus!
