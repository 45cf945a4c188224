//! Facts about sorted sequences and sums that the analytics rely on.
use vstd::prelude::*;
use vstd::relations::{sorted_by, total_ordering};

verus! {

pub open spec fn leq_i32() -> spec_fn(i32, i32) -> bool {
    |x: i32, y: i32| x <= y
}

pub open spec fn is_sorted(s: Seq<i32>) -> bool {
    forall|i: int, j: int| 0 <= i < j < s.len() ==> s[i] <= s[j]
}

/// The ascending arrangement of `s`.
pub open spec fn sort_days(s: Seq<i32>) -> Seq<i32> {
    s.sort_by(leq_i32())
}

pub proof fn lemma_sort_days(s: Seq<i32>)
    ensures
        is_sorted(sort_days(s)),
        sort_days(s).to_multiset() == s.to_multiset(),
        sort_days(s).len() == s.len(),
{
    assert(total_ordering(leq_i32()));
    s.lemma_sort_by_ensures(leq_i32());
    let t = sort_days(s);
    assert(sorted_by(t, leq_i32()));
    assert forall|i: int, j: int| 0 <= i < j < t.len() implies t[i] <= t[j] by {
        assert(leq_i32()(t[i], t[j]));
    }
    t.to_multiset_ensures();
    s.to_multiset_ensures();
}

/// Two ascending sequences with the same elements are equal.
pub proof fn lemma_sorted_unique(a: Seq<i32>, b: Seq<i32>)
    requires
        is_sorted(a),
        is_sorted(b),
        a.to_multiset() == b.to_multiset(),
    ensures
        a == b,
    decreases a.len(),
{
    a.to_multiset_ensures();
    b.to_multiset_ensures();
    if a.len() == 0 {
        assert(b.len() == 0);
        assert(a =~= b);
    } else {
        assert(b.len() == a.len());
        let x = a.last();
        let y = b.last();
        assert(a.to_multiset().count(x) > 0) by {
            assert(a.contains(x)) by { assert(a[a.len() - 1] == x); }
        }
        assert(b.contains(x));
        assert(b.to_multiset().count(y) > 0) by {
            assert(b.contains(y)) by { assert(b[b.len() - 1] == y); }
        }
        assert(a.contains(y));
        let jx = choose|j: int| 0 <= j < b.len() && b[j] == x;
        let jy = choose|j: int| 0 <= j < a.len() && a[j] == y;
        assert(x <= y);
        assert(y <= x);
        let a2 = a.drop_last();
        let b2 = b.drop_last();
        assert(a =~= a2.push(x));
        assert(b =~= b2.push(x));
        a2.to_multiset_ensures();
        b2.to_multiset_ensures();
        assert(a2.to_multiset() =~= a.to_multiset().remove(x));
        assert(b2.to_multiset() =~= b.to_multiset().remove(x));
        lemma_sorted_unique(a2, b2);
        assert(a =~= b);
    }
}

/// An ascending sequence is its own ascending arrangement.
pub proof fn lemma_sort_of_sorted(s: Seq<i32>)
    requires
        is_sorted(s),
    ensures
        sort_days(s) == s,
{
    lemma_sort_days(s);
    lemma_sorted_unique(sort_days(s), s);
}

/// Relies on itertools' `Itertools::sorted`: the same values, ascending.
#[verifier::external_body]
pub(crate) fn sorted_values(v: Vec<i32>) -> (r: Vec<i32>)
    ensures
        is_sorted(r@),
        r@.to_multiset() == v@.to_multiset(),
{
    itertools::Itertools::sorted(v.into_iter()).collect()
}

/// The ascending arrangement of `v`.
pub fn sort_values(v: Vec<i32>) -> (r: Vec<i32>)
    ensures
        r@ == sort_days(v@),
{
    let ghost orig = v@;
    let r = sorted_values(v);
    proof {
        lemma_sort_days(orig);
        lemma_sorted_unique(r@, sort_days(orig));
    }
    r
}

/// Sum of a sequence of integers.
pub open spec fn sum_ints(s: Seq<int>) -> int
    decreases s.len(),
{
    if s.len() == 0 {
        0
    } else {
        sum_ints(s.drop_last()) + s.last()
    }
}

pub proof fn lemma_sum_remove(s: Seq<int>, j: int)
    requires
        0 <= j < s.len(),
    ensures
        sum_ints(s) == sum_ints(s.remove(j)) + s[j],
    decreases s.len(),
{
    if j == s.len() - 1 {
        assert(s.remove(j) =~= s.drop_last());
    } else {
        assert(s.remove(j).drop_last() =~= s.drop_last().remove(j));
        assert(s.remove(j).last() == s.last());
        lemma_sum_remove(s.drop_last(), j);
    }
}

/// Taking one element out of both of two sequences with the same elements
/// leaves two sequences with the same elements.
pub proof fn lemma_perm_take_last<A>(a: Seq<A>, b: Seq<A>) -> (j: int)
    requires
        a.to_multiset() == b.to_multiset(),
        a.len() > 0,
    ensures
        0 <= j < b.len(),
        b[j] == a.last(),
        a.drop_last().to_multiset() == b.remove(j).to_multiset(),
{
    a.to_multiset_ensures();
    b.to_multiset_ensures();
    let x = a.last();
    assert(a.contains(x)) by {
        assert(a[a.len() - 1] == x);
    }
    assert(a.to_multiset().count(x) > 0);
    assert(b.to_multiset().count(x) > 0);
    assert(b.contains(x));
    let j = choose|j: int| 0 <= j < b.len() && b[j] == x;
    let a2 = a.drop_last();
    assert(a =~= a2.push(x));
    a2.to_multiset_ensures();
    assert(a2.to_multiset() =~= a.to_multiset().remove(x));
    j
}

/// Sums do not depend on the order of the elements.
pub proof fn lemma_sum_perm(a: Seq<int>, b: Seq<int>)
    requires
        a.to_multiset() == b.to_multiset(),
    ensures
        sum_ints(a) == sum_ints(b),
    decreases a.len(),
{
    a.to_multiset_ensures();
    b.to_multiset_ensures();
    if a.len() == 0 {
        assert(b.len() == 0);
    } else {
        let j = lemma_perm_take_last(a, b);
        lemma_sum_perm(a.drop_last(), b.remove(j));
        lemma_sum_remove(b, j);
    }
}

/// Mapping keeps two sequences with the same elements alike.
pub proof fn lemma_map_perm<A, B>(a: Seq<A>, b: Seq<A>, f: spec_fn(A) -> B)
    requires
        a.to_multiset() == b.to_multiset(),
    ensures
        a.map_values(f).to_multiset() == b.map_values(f).to_multiset(),
    decreases a.len(),
{
    a.to_multiset_ensures();
    b.to_multiset_ensures();
    if a.len() == 0 {
        assert(b.len() == 0);
        assert(a.map_values(f) =~= b.map_values(f));
    } else {
        let x = a.last();
        let j = lemma_perm_take_last(a, b);
        let a2 = a.drop_last();
        let b2 = b.remove(j);
        lemma_map_perm(a2, b2, f);
        let ma = a.map_values(f);
        let mb = b.map_values(f);
        assert(ma =~= a2.map_values(f).push(f(x)));
        assert(b2.map_values(f) =~= mb.remove(j));
        a2.map_values(f).to_multiset_ensures();
        mb.to_multiset_ensures();
        assert(mb[j] == f(x));
        assert(mb.contains(f(x)));
        assert(ma.to_multiset() =~= mb.to_multiset().remove(f(x)).insert(f(x)));
        assert(ma.to_multiset() =~= mb.to_multiset());
    }
}

pub proof fn lemma_sum_concat(a: Seq<int>, b: Seq<int>)
    ensures
        sum_ints(a + b) == sum_ints(a) + sum_ints(b),
    decreases b.len(),
{
    if b.len() == 0 {
        assert(a + b =~= a);
    } else {
        assert((a + b).drop_last() =~= a + b.drop_last());
        lemma_sum_concat(a, b.drop_last());
    }
}

} // verus!
