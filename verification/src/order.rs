//! Orderings used when rows are read back from the store, and a verified
//! insertion sort over them.
//!
//! Each read operation of the store returns its rows sorted by a fixed key;
//! the key is described by the [`RowOrder`] trait, a total preorder with an
//! executable comparison.

use crate::models::{Branch, Commit, Group, LocalRepoRoot, LocalRepoStatus, PullRequest,
    Repository};
use vstd::prelude::*;
use vstd::multiset::Multiset;
use vstd::string::StrSliceExecFns;

verus! {

broadcast use vstd::seq_lib::group_to_multiset_ensures, vstd::multiset::group_multiset_axioms;

/// The code point of a character, the key branches and names are ordered by.
pub open spec fn code(c: char) -> u32 {
    c as u32
}

/// Lexicographic order on character sequences by code point, consistent
/// with the byte order of their UTF-8 encodings.
pub open spec fn lex_le(a: Seq<char>, b: Seq<char>) -> bool
    decreases a.len(),
{
    if a.len() == 0 {
        true
    } else if b.len() == 0 {
        false
    } else if code(a[0]) == code(b[0]) {
        lex_le(a.skip(1), b.skip(1))
    } else {
        code(a[0]) < code(b[0])
    }
}

pub proof fn lemma_lex_le_total(a: Seq<char>, b: Seq<char>)
    ensures
        lex_le(a, b) || lex_le(b, a),
    decreases a.len(),
{
    if a.len() == 0 {
        assert(lex_le(a, b));
    } else if b.len() == 0 {
        assert(lex_le(b, a));
    } else if code(a[0]) == code(b[0]) {
        lemma_lex_le_total(a.skip(1), b.skip(1));
    } else if code(a[0]) < code(b[0]) {
        assert(lex_le(a, b));
    } else {
        assert(lex_le(b, a));
    }
}

pub proof fn lemma_lex_le_trans(a: Seq<char>, b: Seq<char>, c: Seq<char>)
    requires
        lex_le(a, b),
        lex_le(b, c),
    ensures
        lex_le(a, c),
    decreases a.len(),
{
    if a.len() == 0 {
    } else {
        // lex_le(a, b) and a is non-empty, so b is non-empty; likewise c.
        if code(a[0]) == code(b[0]) {
            if code(b[0]) == code(c[0]) {
                lemma_lex_le_trans(a.skip(1), b.skip(1), c.skip(1));
            }
        }
    }
}

/// Two sequences whose first `i` characters agree by code point compare
/// the same way as their suffixes from `i` on.
proof fn lemma_lex_le_skip(a: Seq<char>, b: Seq<char>, i: int)
    requires
        0 <= i <= a.len(),
        i <= b.len(),
        forall|j: int| 0 <= j < i ==> code(a[j]) == code(b[j]),
    ensures
        lex_le(a, b) == lex_le(a.skip(i), b.skip(i)),
    decreases i,
{
    if i == 0 {
        assert(a.skip(0) =~= a);
        assert(b.skip(0) =~= b);
    } else {
        lemma_lex_le_skip(a.skip(1), b.skip(1), i - 1);
        assert(a.skip(1).skip(i - 1) =~= a.skip(i));
        assert(b.skip(1).skip(i - 1) =~= b.skip(i));
        assert(lex_le(a, b) == lex_le(a.skip(1), b.skip(1)));
    }
}

/// Decides `lex_le` over the views of two string slices.
pub fn str_lex_le(a: &str, b: &str) -> (r: bool)
    ensures
        r == lex_le(a@, b@),
{
    let alen = a.unicode_len();
    let blen = b.unicode_len();
    let mut i: usize = 0;
    loop
        invariant
            i <= alen,
            i <= blen,
            alen == a@.len(),
            blen == b@.len(),
            forall|j: int| 0 <= j < i ==> code(a@[j]) == code(b@[j]),
        decreases alen - i,
    {
        proof {
            lemma_lex_le_skip(a@, b@, i as int);
        }
        if i >= alen {
            proof {
                assert(a@.skip(i as int).len() == 0);
            }
            return true;
        }
        if i >= blen {
            proof {
                assert(b@.skip(i as int).len() == 0);
                assert(a@.skip(i as int).len() > 0);
            }
            return false;
        }
        let ca = a.get_char(i) as u32;
        let cb = b.get_char(i) as u32;
        if ca != cb {
            proof {
                assert(code(a@.skip(i as int)[0]) == ca);
                assert(code(b@.skip(i as int)[0]) == cb);
            }
            return ca < cb;
        }
        i += 1;
    }
}

/// A total preorder on rows of one table, with an executable comparison.
pub trait RowOrder: Sized {
    spec fn row_le(self, other: Self) -> bool;

    proof fn lemma_row_le_total(a: Self, b: Self)
        ensures
            a.row_le(b) || b.row_le(a),
    ;

    proof fn lemma_row_le_trans(a: Self, b: Self, c: Self)
        requires
            a.row_le(b),
            b.row_le(c),
        ensures
            a.row_le(c),
    ;

    fn row_le_exec(&self, other: &Self) -> (r: bool)
        ensures
            r == self.row_le(*other),
    ;
}

/// The rows of `s` are pairwise in order.
pub open spec fn sorted_rows<T: RowOrder>(s: Seq<T>) -> bool {
    forall|i: int, j: int| 0 <= i < j < s.len() ==> s[i].row_le(s[j])
}

/// Inserting an element anywhere in a sequence inserts it into the
/// sequence's multiset.
proof fn lemma_insert_to_multiset<T>(s: Seq<T>, i: int, x: T)
    requires
        0 <= i <= s.len(),
    ensures
        s.insert(i, x).to_multiset() == s.to_multiset().insert(x),
{
    let t = s.insert(i, x);
    s.insert_ensures(i, x);
    t.remove_ensures(i);
    assert(t.remove(i) =~= s);
    assert(t[i] == x);
    assert(t.to_multiset().remove(x) =~= s.to_multiset());
    assert(t.contains(x));
    assert(t.to_multiset().count(x) > 0);
    assert(t.to_multiset() =~= s.to_multiset().insert(x));
}

/// Inserting `x` just before the first row it does not dominate keeps the
/// rows pairwise ordered.
proof fn lemma_sorted_insert<T: RowOrder>(s: Seq<T>, j: int, x: T)
    requires
        sorted_rows(s),
        0 <= j <= s.len(),
        forall|k: int| 0 <= k < j ==> s[k].row_le(x),
        j < s.len() ==> !s[j].row_le(x),
    ensures
        sorted_rows(s.insert(j, x)),
{
    s.insert_ensures(j, x);
    if j < s.len() {
        T::lemma_row_le_total(s[j], x);
    }
    let t = s.insert(j, x);
    assert forall|p: int, q: int| 0 <= p < q < t.len() implies t[p].row_le(t[q]) by {
        if q < j {
            assert(t[p] == s[p]);
            assert(t[q] == s[q]);
        } else if q == j {
            assert(t[p] == s[p]);
            assert(t[q] == x);
        } else if p < j {
            assert(t[p] == s[p]);
            assert(t[q] == s[q - 1]);
            assert(p < q - 1);
        } else if p == j {
            assert(t[p] == x);
            assert(t[q] == s[q - 1]);
            assert(x.row_le(s[j]));
            if q - 1 > j {
                assert(s[j].row_le(s[q - 1]));
                T::lemma_row_le_trans(x, s[j], s[q - 1]);
            }
        } else {
            assert(t[p] == s[p - 1]);
            assert(t[q] == s[q - 1]);
        }
    }
}

/// Moving one element from the right summand to the left leaves the union
/// unchanged.
proof fn lemma_multiset_shift<T>(a: Multiset<T>, b: Multiset<T>, t: Multiset<T>, x: T)
    requires
        a.add(b.insert(x)) == t,
    ensures
        a.insert(x).add(b) == t,
{
    assert(a.insert(x).add(b) =~= a.add(b.insert(x)));
}

/// Sorts rows by the table's order; the result is a permutation of the
/// input and pairwise ordered.
pub fn sort_rows<T: RowOrder>(rows: Vec<T>) -> (r: Vec<T>)
    ensures
        r@.to_multiset() == rows@.to_multiset(),
        sorted_rows(r@),
{
    let ghost rows0: Seq<T> = rows@;
    let mut rows = rows;
    let mut out: Vec<T> = Vec::new();
    while rows.len() > 0
        invariant
            out@.to_multiset().add(rows@.to_multiset()) == rows0.to_multiset(),
            sorted_rows(out@),
        decreases rows@.len(),
    {
        let ghost rows_before: Seq<T> = rows@;
        let x = rows.pop().unwrap();
        proof {
            assert(rows_before =~= rows@.push(x));
            assert(rows_before.to_multiset() == rows@.to_multiset().insert(x));
        }
        let mut j: usize = 0;
        while j < out.len() && out[j].row_le_exec(&x)
            invariant
                j <= out@.len(),
                forall|k: int| 0 <= k < j ==> out@[k].row_le(x),
            decreases out@.len() - j,
        {
            j += 1;
        }
        let ghost out_before: Seq<T> = out@;
        let ghost jj = j as int;
        out.insert(j, x);
        proof {
            lemma_insert_to_multiset(out_before, jj, x);
            lemma_sorted_insert(out_before, jj, x);
            lemma_multiset_shift(
                out_before.to_multiset(),
                rows@.to_multiset(),
                rows0.to_multiset(),
                x,
            );
        }
    }
    proof {
        assert(rows@.to_multiset() =~= Multiset::<T>::empty());
        assert(out@.to_multiset() =~= rows0.to_multiset());
    }
    out
}

impl RowOrder for Branch {
    /// Branches are listed in name order.
    open spec fn row_le(self, other: Self) -> bool {
        lex_le(self.name@, other.name@)
    }

    proof fn lemma_row_le_total(a: Self, b: Self) {
        lemma_lex_le_total(a.name@, b.name@);
    }

    proof fn lemma_row_le_trans(a: Self, b: Self, c: Self) {
        lemma_lex_le_trans(a.name@, b.name@, c.name@);
    }

    fn row_le_exec(&self, other: &Self) -> (r: bool) {
        str_lex_le(self.name.as_str(), other.name.as_str())
    }
}

impl RowOrder for PullRequest {
    /// Pull requests are listed by descending number.
    open spec fn row_le(self, other: Self) -> bool {
        self.number >= other.number
    }

    proof fn lemma_row_le_total(a: Self, b: Self) {
    }

    proof fn lemma_row_le_trans(a: Self, b: Self, c: Self) {
    }

    fn row_le_exec(&self, other: &Self) -> (r: bool) {
        self.number >= other.number
    }
}

impl RowOrder for Group {
    /// Groups are listed by ascending display order.
    open spec fn row_le(self, other: Self) -> bool {
        self.display_order <= other.display_order
    }

    proof fn lemma_row_le_total(a: Self, b: Self) {
    }

    proof fn lemma_row_le_trans(a: Self, b: Self, c: Self) {
    }

    fn row_le_exec(&self, other: &Self) -> (r: bool) {
        self.display_order <= other.display_order
    }
}

impl RowOrder for Commit {
    /// Commits are listed newest first by commit date.
    open spec fn row_le(self, other: Self) -> bool {
        self.committed_date >= other.committed_date
    }

    proof fn lemma_row_le_total(a: Self, b: Self) {
    }

    proof fn lemma_row_le_trans(a: Self, b: Self, c: Self) {
    }

    fn row_le_exec(&self, other: &Self) -> (r: bool) {
        self.committed_date >= other.committed_date
    }
}

impl RowOrder for LocalRepoRoot {
    /// Roots are listed newest first by creation time.
    open spec fn row_le(self, other: Self) -> bool {
        self.created_at >= other.created_at
    }

    proof fn lemma_row_le_total(a: Self, b: Self) {
    }

    proof fn lemma_row_le_trans(a: Self, b: Self, c: Self) {
    }

    fn row_le_exec(&self, other: &Self) -> (r: bool) {
        self.created_at >= other.created_at
    }
}

impl RowOrder for LocalRepoStatus {
    /// Statuses are listed most recently checked first.
    open spec fn row_le(self, other: Self) -> bool {
        self.last_checked >= other.last_checked
    }

    proof fn lemma_row_le_total(a: Self, b: Self) {
    }

    proof fn lemma_row_le_trans(a: Self, b: Self, c: Self) {
    }

    fn row_le_exec(&self, other: &Self) -> (r: bool) {
        self.last_checked >= other.last_checked
    }
}

impl RowOrder for Repository {
    /// Repositories are listed by the most recent push first.
    open spec fn row_le(self, other: Self) -> bool {
        self.pushed_at >= other.pushed_at
    }

    proof fn lemma_row_le_total(a: Self, b: Self) {
    }

    proof fn lemma_row_le_trans(a: Self, b: Self, c: Self) {
    }

    fn row_le_exec(&self, other: &Self) -> (r: bool) {
        self.pushed_at >= other.pushed_at
    }
}

/// The ranking order of the full repository listing: higher priority first,
/// then the most recent push first.
pub open spec fn repo_rank_le(a: Repository, b: Repository) -> bool {
    a.priority > b.priority || (a.priority == b.priority && a.pushed_at >= b.pushed_at)
}

/// The rows of `s` are pairwise in ranking order.
pub open spec fn sorted_by_rank(s: Seq<Repository>) -> bool {
    forall|i: int, j: int| 0 <= i < j < s.len() ==> repo_rank_le(s[i], s[j])
}

fn repo_rank_le_exec(a: &Repository, b: &Repository) -> (r: bool)
    ensures
        r == repo_rank_le(*a, *b),
{
    a.priority > b.priority || (a.priority == b.priority && a.pushed_at >= b.pushed_at)
}

/// Inserting a repository just before the first row it does not dominate
/// keeps the rows pairwise in ranking order.
#[verifier::rlimit(30)]
proof fn lemma_rank_sorted_insert(s: Seq<Repository>, j: int, x: Repository)
    requires
        sorted_by_rank(s),
        0 <= j <= s.len(),
        forall|k: int| 0 <= k < j ==> repo_rank_le(s[k], x),
        j < s.len() ==> !repo_rank_le(s[j], x),
    ensures
        sorted_by_rank(s.insert(j, x)),
{
    s.insert_ensures(j, x);
    let t = s.insert(j, x);
    assert forall|p: int, q: int| 0 <= p < q < t.len() implies repo_rank_le(t[p], t[q]) by {
        if q < j {
            assert(t[p] == s[p]);
            assert(t[q] == s[q]);
        } else if q == j {
            assert(t[p] == s[p]);
            assert(t[q] == x);
        } else if p < j {
            assert(t[p] == s[p]);
            assert(t[q] == s[q - 1]);
            assert(p < q - 1);
        } else if p == j {
            assert(t[p] == x);
            assert(t[q] == s[q - 1]);
            assert(!repo_rank_le(s[j], x));
            assert(repo_rank_le(x, s[j]));
            if q - 1 > j {
                assert(repo_rank_le(s[j], s[q - 1]));
            }
            assert(repo_rank_le(x, s[q - 1]));
        } else {
            assert(t[p] == s[p - 1]);
            assert(t[q] == s[q - 1]);
        }
    }
}

/// Sorts repositories by ranking order; a permutation, pairwise ordered.
pub fn sort_repos_by_rank(rows: Vec<Repository>) -> (r: Vec<Repository>)
    ensures
        r@.to_multiset() == rows@.to_multiset(),
        sorted_by_rank(r@),
{
    let ghost rows0: Seq<Repository> = rows@;
    let mut rows = rows;
    let mut out: Vec<Repository> = Vec::new();
    while rows.len() > 0
        invariant
            out@.to_multiset().add(rows@.to_multiset()) == rows0.to_multiset(),
            sorted_by_rank(out@),
        decreases rows@.len(),
    {
        let ghost rows_before: Seq<Repository> = rows@;
        let x = rows.pop().unwrap();
        proof {
            assert(rows_before =~= rows@.push(x));
            assert(rows_before.to_multiset() == rows@.to_multiset().insert(x));
        }
        let mut j: usize = 0;
        while j < out.len() && repo_rank_le_exec(&out[j], &x)
            invariant
                j <= out@.len(),
                forall|k: int| 0 <= k < j ==> repo_rank_le(out@[k], x),
            decreases out@.len() - j,
        {
            j += 1;
        }
        let ghost out_before: Seq<Repository> = out@;
        let ghost jj = j as int;
        out.insert(j, x);
        proof {
            lemma_insert_to_multiset(out_before, jj, x);
            lemma_rank_sorted_insert(out_before, jj, x);
            lemma_multiset_shift(
                out_before.to_multiset(),
                rows@.to_multiset(),
                rows0.to_multiset(),
                x,
            );
        }
    }
    proof {
        assert(rows@.to_multiset() =~= Multiset::<Repository>::empty());
        assert(out@.to_multiset() =~= rows0.to_multiset());
    }
    out
}

} // verus!
