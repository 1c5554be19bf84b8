//! The pure side of local repository scanning: extracting a repository
//! identity from a checkout path, reading the ahead/behind counts and
//! status listing that the version-control tool prints, and deriving the
//! recorded status. The tool itself is run by the caller.

use crate::clock::now_millis;
use crate::error::Error;
use crate::models::LocalRepoStatus;
use crate::strutil::{char_ws, first_matching, is_unicode_whitespace, lemma_first_matching_at,
    lemma_first_matching_bounds, nonempty_segments, parse_u32, split_segments, u32_parse_of};
use vstd::prelude::*;
use vstd::string::{StrSliceExecFns, StringExecFns};

verus! {

/// Path separator.
pub open spec fn sep_slash() -> spec_fn(char) -> bool {
    |c: char| c == '/'
}

/// Whitespace separator.
pub open spec fn sep_ws() -> spec_fn(char) -> bool {
    |c: char| is_unicode_whitespace(c)
}

/// The repository identity `owner/name` read from a checkout path: its
/// last two path segments. A path with fewer than two segments names no
/// repository.
pub fn extract_repo_id(local_path: &str) -> (r: Option<String>)
    ensures
        ({
            let segs = nonempty_segments(local_path@, sep_slash());
            &&& r is Some <==> segs.len() >= 2
            &&& r is Some ==> r->0@ == segs[segs.len() - 2] + "/"@ + segs[segs.len() - 1]
        }),
{
    let segs = split_segments(
        local_path,
        (|c: char| -> (b: bool)
            ensures
                b == (c == '/'),
            { c == '/' }),
        Ghost(sep_slash()),
    );
    if segs.len() >= 2 {
        let owner = segs[segs.len() - 2].clone();
        let name = &segs[segs.len() - 1];
        let id = owner.concat("/").concat(name.as_str());
        proof {
            let m = segs@.map_values(|x: String| x@);
            assert(m[m.len() - 2] == segs@[segs@.len() - 2]@);
            assert(m[m.len() - 1] == segs@[segs@.len() - 1]@);
        }
        Some(id)
    } else {
        None
    }
}

/// The ahead/behind pair read from the counts line the tool prints:
/// two whitespace-separated numbers; anything else, or an unparsable
/// number, counts as zero.
pub fn parse_ahead_behind_counts(counts: &str) -> (r: (u32, u32))
    ensures
        ({
            let parts = nonempty_segments(counts@, sep_ws());
            if parts.len() == 2 {
                &&& r.0 == match u32_parse_of(parts[0]) {
                    Some(v) => v,
                    None => 0u32,
                }
                &&& r.1 == match u32_parse_of(parts[1]) {
                    Some(v) => v,
                    None => 0u32,
                }
            } else {
                r == (0u32, 0u32)
            }
        }),
{
    let parts = split_segments(
        counts,
        (|c: char| -> (b: bool)
            ensures
                b == is_unicode_whitespace(c),
            { char_ws(c) }),
        Ghost(sep_ws()),
    );
    if parts.len() == 2 {
        proof {
            let m = parts@.map_values(|x: String| x@);
            assert(m[0] == parts@[0]@);
            assert(m[1] == parts@[1]@);
        }
        let ahead = match parse_u32(parts[0].as_str()) {
            Some(v) => v,
            None => 0,
        };
        let behind = match parse_u32(parts[1].as_str()) {
            Some(v) => v,
            None => 0,
        };
        (ahead, behind)
    } else {
        (0, 0)
    }
}

/// A line with one trailing carriage return removed, as the line
/// splitter reports it.
pub open spec fn strip_cr(l: Seq<char>) -> Seq<char> {
    if l.len() > 0 && l[l.len() - 1] == '\r' {
        l.drop_last()
    } else {
        l
    }
}

/// Line-break separator.
pub open spec fn sep_nl() -> spec_fn(char) -> bool {
    |c: char| c == '\n'
}

/// The number of non-empty lines of `s`, as counting the lines of a
/// status listing does.
pub open spec fn count_nonempty_lines(s: Seq<char>) -> int
    decreases s.len(),
    via count_nonempty_lines_decreases
{
    if s.len() == 0 {
        0
    } else {
        let k = first_matching(s, sep_nl());
        let c: int = if strip_cr(s.subrange(0, k)).len() > 0 {
            1
        } else {
            0
        };
        if k == s.len() {
            c
        } else {
            c + count_nonempty_lines(s.skip(k + 1))
        }
    }
}

#[via_fn]
proof fn count_nonempty_lines_decreases(s: Seq<char>) {
    if s.len() > 0 {
        lemma_first_matching_bounds(s, sep_nl());
    }
}

/// Counts the non-empty lines of a status listing: one changed file per
/// line.
pub fn count_status_lines(s: &str) -> (r: u32)
    requires
        s@.len() <= u32::MAX,
    ensures
        r == count_nonempty_lines(s@),
{
    let n = s.unicode_len();
    let mut acc: u32 = 0;
    let mut pos: usize = 0;
    proof {
        assert(s@.skip(0) =~= s@);
    }
    while pos < n
        invariant
            pos <= n,
            n == s@.len(),
            n <= u32::MAX,
            acc <= pos,
            acc + count_nonempty_lines(s@.skip(pos as int)) == count_nonempty_lines(s@),
        decreases n - pos,
    {
        let start = pos;
        let mut e = pos;
        while e < n && s.get_char(e) != '\n'
            invariant
                start <= e <= n,
                n == s@.len(),
                forall|j: int| start <= j < e ==> s@[j] != '\n',
            decreases n - e,
        {
            e += 1;
        }
        proof {
            let tail = s@.skip(start as int);
            let k = (e - start) as int;
            assert forall|j: int| 0 <= j < k implies !sep_nl()(tail[j]) by {
                assert(tail[j] == s@[start + j]);
            }
            if k < tail.len() {
                assert(tail[k] == s@[e as int]);
            }
            lemma_first_matching_at(tail, sep_nl(), k);
            assert(tail.subrange(0, k) =~= s@.subrange(start as int, e as int));
            if e < n {
                assert(tail.skip(k + 1) =~= s@.skip(e + 1));
            }
        }
        let nonempty = if e > start {
            let lastc = s.get_char(e - 1);
            e - start > 1 || lastc != '\r'
        } else {
            false
        };
        proof {
            let line = s@.subrange(start as int, e as int);
            if e > start {
                assert(line[line.len() - 1] == s@[e - 1]);
            }
            assert(nonempty == (strip_cr(line).len() > 0));
        }
        if nonempty {
            acc += 1;
        }
        if e < n {
            pos = e + 1;
        } else {
            pos = n;
        }
    }
    proof {
        assert(s@.skip(n as int).len() == 0);
    }
    acc
}

/// The recorded status for one discovered checkout, derived from what
/// the scan observed: the identity comes from the path, the
/// ahead/behind counts apply only when a current branch was found, and
/// the dirty flag means uncommitted or unpushed work. A path that names
/// no repository is a tool error.
pub fn assemble_repo_status(
    repo_path: &str,
    current_branch: Option<String>,
    uncommitted_files: u32,
    ahead_behind: Option<(u32, u32)>,
) -> (r: Result<LocalRepoStatus, Error>)
    ensures
        r is Ok <==> nonempty_segments(repo_path@, sep_slash()).len() >= 2,
        r is Ok ==> ({
            let segs = nonempty_segments(repo_path@, sep_slash());
            let counts = match (current_branch, ahead_behind) {
                (Some(b), Some(c)) => c,
                _ => (0u32, 0u32),
            };
            &&& r->Ok_0.id == 0
            &&& r->Ok_0.repo_id@ == segs[segs.len() - 2] + "/"@ + segs[segs.len() - 1]
            &&& r->Ok_0.local_path@ == repo_path@
            &&& r->Ok_0.current_branch == current_branch
            &&& r->Ok_0.uncommitted_files == uncommitted_files
            &&& r->Ok_0.unpushed_commits == counts.0
            &&& r->Ok_0.behind_commits == counts.1
            &&& r->Ok_0.is_dirty == (uncommitted_files > 0 || counts.0 > 0)
        }),
        r is Err ==> r->Err_0 is GitCommand,
{
    let repo_id = match extract_repo_id(repo_path) {
        Some(id) => id,
        None => {
            return Err(Error::GitCommand(String::from_str("failed to extract repo id")));
        },
    };
    let has_branch = current_branch.is_some();
    let (unpushed_commits, behind_commits) = if has_branch {
        match ahead_behind {
            Some(c) => c,
            None => (0, 0),
        }
    } else {
        (0, 0)
    };
    let is_dirty = uncommitted_files > 0 || unpushed_commits > 0;
    let last_checked = now_millis();
    Ok(
        LocalRepoStatus {
            id: 0,
            repo_id,
            local_path: String::from_str(repo_path),
            current_branch,
            uncommitted_files,
            unpushed_commits,
            behind_commits,
            is_dirty,
            last_checked,
        },
    )
}

} // verus!
