//! Generic row operations shared by the store's tables: filtering and
//! searching a `Vec` of rows against an executable predicate, and lemmas
//! about what `Seq::filter` preserves.

use vstd::prelude::*;

verus! {

broadcast use vstd::seq_lib::group_filter_ensures;

/// Every ordered pair of rows satisfies `r`.
pub open spec fn pairwise<T>(s: Seq<T>, r: spec_fn(T, T) -> bool) -> bool {
    forall|i: int, j: int| 0 <= i < j < s.len() ==> r(s[i], s[j])
}

/// Every row satisfies `q`.
pub open spec fn all_rows<T>(s: Seq<T>, q: spec_fn(T) -> bool) -> bool {
    forall|i: int| 0 <= i < s.len() ==> q(s[i])
}

/// Every row of a filtered sequence occurs in the original.
pub proof fn lemma_filter_sub<T>(s: Seq<T>, p: spec_fn(T) -> bool)
    ensures
        forall|i: int| 0 <= i < s.filter(p).len() ==> s.contains(#[trigger] s.filter(p)[i]),
    decreases s.len(),
{
    reveal(Seq::filter);
    if s.len() > 0 {
        let s1 = s.drop_last();
        lemma_filter_sub(s1, p);
        assert forall|i: int| 0 <= i < s.filter(p).len() implies s.contains(
            #[trigger] s.filter(p)[i],
        ) by {
            if i < s1.filter(p).len() {
                let y = s1.filter(p)[i];
                assert(s1.contains(y));
                let k = choose|k: int| 0 <= k < s1.len() && s1[k] == y;
                assert(s[k] == y);
            } else {
                assert(s.filter(p)[i] == s.last());
            }
        }
    }
}

/// Filtering preserves any pairwise property of the rows.
pub proof fn lemma_filter_pairwise<T>(s: Seq<T>, p: spec_fn(T) -> bool, r: spec_fn(T, T) -> bool)
    requires
        pairwise(s, r),
    ensures
        pairwise(s.filter(p), r),
    decreases s.len(),
{
    reveal(Seq::filter);
    if s.len() > 0 {
        let s1 = s.drop_last();
        let x = s.last();
        assert forall|i: int, j: int| 0 <= i < j < s1.len() implies r(s1[i], s1[j]) by {
            assert(s1[i] == s[i]);
            assert(s1[j] == s[j]);
        }
        lemma_filter_pairwise(s1, p, r);
        lemma_filter_sub(s1, p);
        let f = s.filter(p);
        let f1 = s1.filter(p);
        assert forall|i: int, j: int| 0 <= i < j < f.len() implies r(f[i], f[j]) by {
            if p(x) {
                assert(f == f1.push(x));
                if j < f1.len() {
                    assert(f[i] == f1[i]);
                    assert(f[j] == f1[j]);
                } else {
                    assert(f[j] == x);
                    assert(f[i] == f1[i]);
                    assert(s1.contains(f1[i]));
                    let k = choose|k: int| 0 <= k < s1.len() && s1[k] == f1[i];
                    assert(s[k] == f1[i]);
                    assert(r(s[k], s[s.len() - 1]));
                }
            } else {
                assert(f == f1);
            }
        }
    }
}

/// Filtering preserves any elementwise property of the rows.
pub proof fn lemma_filter_all<T>(s: Seq<T>, p: spec_fn(T) -> bool, q: spec_fn(T) -> bool)
    requires
        all_rows(s, q),
    ensures
        all_rows(s.filter(p), q),
{
    lemma_filter_sub(s, p);
    assert forall|i: int| 0 <= i < s.filter(p).len() implies q(#[trigger] s.filter(p)[i]) by {
        let y = s.filter(p)[i];
        assert(s.contains(y));
        let k = choose|k: int| 0 <= k < s.len() && s[k] == y;
        assert(q(s[k]));
    }
}

/// Every row of a filtered sequence satisfies the filter's predicate.
pub proof fn lemma_filter_pred_holds<T>(s: Seq<T>, p: spec_fn(T) -> bool)
    ensures
        all_rows(s.filter(p), p),
{
}

/// A row that satisfies the predicate survives the filter.
pub proof fn lemma_filter_retains<T>(s: Seq<T>, p: spec_fn(T) -> bool, k: int)
    requires
        0 <= k < s.len(),
        p(s[k]),
    ensures
        s.filter(p).contains(s[k]),
{
}

/// An elementwise property may be weakened.
pub proof fn lemma_all_weaken<T>(s: Seq<T>, q1: spec_fn(T) -> bool, q2: spec_fn(T) -> bool)
    requires
        all_rows(s, q1),
        forall|x: T| #[trigger] q1(x) ==> q2(x),
    ensures
        all_rows(s, q2),
{
    assert forall|i: int| 0 <= i < s.len() implies q2(s[i]) by {
        assert(q1(s[i]));
    }
}

/// Two predicates that agree on every row filter a sequence identically.
pub proof fn lemma_filter_congruent<T>(s: Seq<T>, p: spec_fn(T) -> bool, q: spec_fn(T) -> bool)
    requires
        forall|i: int| 0 <= i < s.len() ==> p(s[i]) == q(s[i]),
    ensures
        s.filter(p) == s.filter(q),
    decreases s.len(),
{
    reveal(Seq::filter);
    if s.len() > 0 {
        let s1 = s.drop_last();
        assert forall|i: int| 0 <= i < s1.len() implies p(s1[i]) == q(s1[i]) by {
            assert(s1[i] == s[i]);
        }
        lemma_filter_congruent(s1, p, q);
        assert(p(s.last()) == q(s.last()));
    }
}

/// A predicate that holds on no row filters everything away.
pub proof fn lemma_filter_none<T>(s: Seq<T>, p: spec_fn(T) -> bool)
    requires
        forall|i: int| 0 <= i < s.len() ==> !p(s[i]),
    ensures
        s.filter(p) == Seq::<T>::empty(),
    decreases s.len(),
{
    reveal(Seq::filter);
    if s.len() > 0 {
        let s1 = s.drop_last();
        assert forall|i: int| 0 <= i < s1.len() implies !p(s1[i]) by {
            assert(s1[i] == s[i]);
        }
        lemma_filter_none(s1, p);
        assert(!p(s.last()));
    }
}

/// A predicate that holds on every row filters nothing away.
pub proof fn lemma_filter_id<T>(s: Seq<T>, p: spec_fn(T) -> bool)
    requires
        forall|i: int| 0 <= i < s.len() ==> p(s[i]),
    ensures
        s.filter(p) == s,
    decreases s.len(),
{
    reveal(Seq::filter);
    if s.len() > 0 {
        let s1 = s.drop_last();
        assert forall|i: int| 0 <= i < s1.len() implies p(s1[i]) by {
            assert(s1[i] == s[i]);
        }
        lemma_filter_id(s1, p);
        assert(p(s.last()));
        assert(s1.push(s.last()) =~= s);
    }
}

/// Appending a row that relates to every present row keeps the rows
/// pairwise related.
pub proof fn lemma_pairwise_push<T>(s: Seq<T>, x: T, r: spec_fn(T, T) -> bool)
    requires
        pairwise(s, r),
        forall|i: int| 0 <= i < s.len() ==> r(s[i], x),
    ensures
        pairwise(s.push(x), r),
{
    let t = s.push(x);
    assert forall|i: int, j: int| 0 <= i < j < t.len() implies r(t[i], t[j]) by {
        if j < s.len() {
            assert(t[i] == s[i]);
            assert(t[j] == s[j]);
        } else {
            assert(t[j] == x);
            assert(t[i] == s[i]);
        }
    }
}

/// Appending a row that satisfies the property keeps every row
/// satisfying it.
pub proof fn lemma_all_push<T>(s: Seq<T>, x: T, q: spec_fn(T) -> bool)
    requires
        all_rows(s, q),
        q(x),
    ensures
        all_rows(s.push(x), q),
{
    let t = s.push(x);
    assert forall|i: int| 0 <= i < t.len() implies q(t[i]) by {
        if i < s.len() {
            assert(t[i] == s[i]);
        } else {
            assert(t[i] == x);
        }
    }
}

/// Keeps exactly the rows on which `f` answers true; `f` must decide the
/// ghost predicate `p`.
pub fn filter_rows<T, F: Fn(&T) -> bool>(v: Vec<T>, f: F, Ghost(p): Ghost<spec_fn(T) -> bool>) -> (r:
    Vec<T>)
    requires
        forall|x: T| #[trigger] f.requires((&x,)),
        forall|x: T, b: bool| #[trigger] f.ensures((&x,), b) ==> b == p(x),
    ensures
        r@ == v@.filter(p),
{
    let ghost orig: Seq<T> = v@;
    let mut v = v;
    let mut out: Vec<T> = Vec::new();
    while v.len() > 0
        invariant
            forall|x: T| #[trigger] f.requires((&x,)),
            forall|x: T, b: bool| #[trigger] f.ensures((&x,), b) ==> b == p(x),
            v@.len() <= orig.len(),
            v@ == orig.skip(orig.len() - v@.len()),
            out@ == orig.take(orig.len() - v@.len()).filter(p),
        decreases v@.len(),
    {
        let ghost k = orig.len() - v@.len();
        let ghost old_v: Seq<T> = v@;
        let x = v.remove(0);
        proof {
            assert(old_v == orig.skip(k));
            assert(0 <= k < orig.len());
            assert(old_v[0] == orig[k]);
            assert(orig.take(k + 1) =~= orig.take(k).push(orig[k]));
            assert(v@ == old_v.remove(0));
            assert forall|i: int| 0 <= i < v@.len() implies v@[i] == orig.skip(k + 1)[i] by {
                old_v.remove_ensures(0);
            }
            assert(v@ =~= orig.skip(k + 1));
            orig.take(k).lemma_filter_push(orig[k], p);
        }
        if f(&x) {
            out.push(x);
        }
    }
    proof {
        assert(orig.take(orig.len() as int) =~= orig);
    }
    out
}

/// The index of the first row on which `f` answers true, if any; `f` must
/// decide the ghost predicate `p`.
pub fn first_match<T, F: Fn(&T) -> bool>(
    v: &Vec<T>,
    f: F,
    Ghost(p): Ghost<spec_fn(T) -> bool>,
) -> (r: Option<usize>)
    requires
        forall|x: T| #[trigger] f.requires((&x,)),
        forall|x: T, b: bool| #[trigger] f.ensures((&x,), b) ==> b == p(x),
    ensures
        match r {
            Some(i) => i < v@.len() && p(v@[i as int]) && forall|j: int| 0 <= j < i ==> !p(v@[j]),
            None => forall|j: int| 0 <= j < v@.len() ==> !p(v@[j]),
        },
{
    let mut i: usize = 0;
    while i < v.len()
        invariant
            forall|x: T| #[trigger] f.requires((&x,)),
            forall|x: T, b: bool| #[trigger] f.ensures((&x,), b) ==> b == p(x),
            i <= v@.len(),
            forall|j: int| 0 <= j < i ==> !p(v@[j]),
        decreases v@.len() - i,
    {
        if f(&v[i]) {
            return Some(i);
        }
        i += 1;
    }
    None
}

/// The number of rows on which `f` answers true; `f` must decide the
/// ghost predicate `p`.
pub fn count_matching<T, F: Fn(&T) -> bool>(
    v: &Vec<T>,
    f: F,
    Ghost(p): Ghost<spec_fn(T) -> bool>,
) -> (r: usize)
    requires
        forall|x: T| #[trigger] f.requires((&x,)),
        forall|x: T, b: bool| #[trigger] f.ensures((&x,), b) ==> b == p(x),
    ensures
        r == v@.filter(p).len(),
{
    let mut i: usize = 0;
    let mut n: usize = 0;
    while i < v.len()
        invariant
            forall|x: T| #[trigger] f.requires((&x,)),
            forall|x: T, b: bool| #[trigger] f.ensures((&x,), b) ==> b == p(x),
            i <= v@.len(),
            n == v@.take(i as int).filter(p).len(),
            n <= i,
        decreases v@.len() - i,
    {
        proof {
            assert(v@.take(i + 1) =~= v@.take(i as int).push(v@[i as int]));
            v@.take(i as int).lemma_filter_push(v@[i as int], p);
        }
        if f(&v[i]) {
            n += 1;
        }
        i += 1;
    }
    proof {
        assert(v@.take(v@.len() as int) =~= v@);
    }
    n
}

} // verus!
