//! Laws that relate the analytics over all inputs.
use vstd::prelude::*;
use crate::bonus::bonus_windows;
use crate::points::points_of;
use crate::seq_facts::{
    is_sorted, lemma_map_perm, lemma_sort_days, lemma_sort_of_sorted, lemma_sum_perm, sort_days,
    sum_ints,
};
use crate::session::{all_dates_valid, day_of, days_of, total_points, Session};
use crate::streak::streak_of;
use crate::trend::{dedup, key_points, pair_key_sum, session_pairs, trend_keys, value_at_key, Period};

verus! {

proof fn lemma_consecutive_at(d: Seq<i32>, i: int)
    requires
        0 <= i < d.len(),
        forall|t: int| 0 <= t < d.len() - 1 ==> #[trigger] d[t + 1] == d[t] + 1,
    ensures
        d[i] == d[0] + i,
    decreases i,
{
    if i > 0 {
        lemma_consecutive_at(d, i - 1);
        assert(d[(i - 1) + 1] == d[i - 1] + 1);
    }
}

proof fn lemma_consecutive_sorted(d: Seq<i32>)
    requires
        forall|i: int| 0 <= i < d.len() - 1 ==> #[trigger] d[i + 1] == d[i] + 1,
    ensures
        is_sorted(d),
{
    assert forall|i: int, j: int| 0 <= i < j < d.len() implies d[i] <= d[j] by {
        lemma_consecutive_at(d, i);
        lemma_consecutive_at(d, j);
    }
}

proof fn lemma_consecutive_streak(d: Seq<i32>)
    requires
        d.len() > 0,
        forall|i: int| 0 <= i < d.len() - 1 ==> #[trigger] d[i + 1] == d[i] + 1,
    ensures
        streak_of(d) == d.len(),
    decreases d.len(),
{
    if d.len() > 1 {
        let d2 = d.drop_last();
        assert forall|i: int| 0 <= i < d2.len() - 1 implies #[trigger] d2[i + 1] == d2[i] + 1 by {
            assert(d[i + 1] == d[i] + 1);
        }
        lemma_consecutive_streak(d2);
        assert(d[(d.len() - 2) + 1] == d[d.len() - 2] + 1);
    }
}

/// Sessions on consecutive days, one per day, have a streak of their number.
pub proof fn law_consecutive_days_streak(s: Seq<Session>)
    requires
        all_dates_valid(s),
        s.len() > 0,
        forall|i: int| 0 <= i < s.len() - 1 ==> #[trigger] day_of(s[i + 1]) == day_of(s[i]) + 1,
    ensures
        streak_of(sort_days(days_of(s))) == s.len(),
{
    let d = days_of(s);
    assert forall|i: int| 0 <= i < d.len() - 1 implies #[trigger] d[i + 1] == d[i] + 1 by {
        assert(day_of(s[i + 1]) == day_of(s[i]) + 1);
    }
    lemma_consecutive_sorted(d);
    lemma_sort_of_sorted(d);
    lemma_consecutive_streak(d);
}

proof fn lemma_streak_after_break(a: Seq<i32>, b: Seq<i32>)
    requires
        a.len() > 0,
        b.len() > 0,
        b[0] - a.last() != 1,
    ensures
        streak_of(a + b) == streak_of(b),
    decreases b.len(),
{
    let c = a + b;
    if b.len() == 1 {
        assert(c.last() == b[0]);
        assert(c[c.len() - 2] == a.last());
    } else {
        assert(c.drop_last() =~= a + b.drop_last());
        lemma_streak_after_break(a, b.drop_last());
        assert(c.last() == b.last());
        assert(c[c.len() - 2] == b[b.len() - 2]);
    }
}

/// After a missing day, only the run that follows it counts: when the
/// sessions' days in order are `a` then `b`, and `b` starts more than one day
/// after `a` ends, the streak is that of `b` alone.
pub proof fn law_gap_resets_streak(s: Seq<Session>, a: Seq<i32>, b: Seq<i32>)
    requires
        all_dates_valid(s),
        days_of(s) == a + b,
        is_sorted(a + b),
        a.len() > 0,
        b.len() > 0,
        b[0] - a.last() >= 2,
    ensures
        streak_of(sort_days(days_of(s))) == streak_of(b),
{
    lemma_sort_of_sorted(a + b);
    lemma_streak_after_break(a, b);
}

pub open spec fn point_values(s: Seq<Session>) -> Seq<int> {
    s.map_values(|x: Session| points_of(x.session_type@) as int)
}

proof fn lemma_total_is_sum(s: Seq<Session>)
    ensures
        total_points(s) == sum_ints(point_values(s)),
    decreases s.len(),
{
    if s.len() > 0 {
        lemma_total_is_sum(s.drop_last());
        assert(point_values(s).drop_last() =~= point_values(s.drop_last()));
    }
}

/// The point total does not depend on the order of the sessions.
pub proof fn law_total_points_order_free(a: Seq<Session>, b: Seq<Session>)
    requires
        a.to_multiset() == b.to_multiset(),
    ensures
        total_points(a) == total_points(b),
{
    lemma_total_is_sum(a);
    lemma_total_is_sum(b);
    lemma_map_perm(a, b, |x: Session| points_of(x.session_type@) as int);
    lemma_sum_perm(point_values(a), point_values(b));
}

/// With no sessions there is no streak, no point, no period and no bonus.
pub proof fn law_empty_sessions(s: Seq<Session>, p: Period)
    requires
        s.len() == 0,
    ensures
        streak_of(sort_days(days_of(s))) == 0,
        total_points(s) == 0,
        trend_keys(p, s).len() == 0,
        bonus_windows(sort_days(days_of(s))).len() == 0,
{
    lemma_sort_days(days_of(s));
    lemma_sort_days(s.map_values(|x: Session| crate::trend::session_key(p, x)));
}

pub open spec fn strictly_ascending(s: Seq<i32>) -> bool {
    forall|i: int, j: int| 0 <= i < j < s.len() ==> s[i] < s[j]
}

proof fn lemma_dedup_sorted(t: Seq<i32>)
    requires
        is_sorted(t),
    ensures
        strictly_ascending(dedup(t)),
        t.len() > 0 ==> dedup(t).len() > 0 && dedup(t).last() == t.last(),
        forall|x: i32| t.contains(x) ==> dedup(t).contains(x),
    decreases t.len(),
{
    if t.len() > 1 {
        let t2 = t.drop_last();
        assert forall|i: int, j: int| 0 <= i < j < t2.len() implies t2[i] <= t2[j] by {
            assert(t2[i] == t[i] && t2[j] == t[j]);
        }
        lemma_dedup_sorted(t2);
        assert(t[t.len() - 2] <= t.last());
        assert(t2.last() == t[t.len() - 2]);
        assert forall|x: i32| t.contains(x) implies dedup(t).contains(x) by {
            let i = choose|i: int| 0 <= i < t.len() && t[i] == x;
            if i < t.len() - 1 {
                assert(t2[i] == x);
                assert(t2.contains(x));
                assert(dedup(t2).contains(x));
                let j = choose|j: int| 0 <= j < dedup(t2).len() && dedup(t2)[j] == x;
                assert(dedup(t)[j] == x);
            } else {
                assert(dedup(t).last() == x);
                assert(dedup(t)[dedup(t).len() - 1] == x);
            }
        }
    } else if t.len() == 1 {
        assert(dedup(t) == t);
    }
}

proof fn lemma_sum_map_add(
    ks: Seq<i32>,
    f: spec_fn(i32) -> int,
    g: spec_fn(i32) -> int,
    h: spec_fn(i32) -> int,
)
    requires
        forall|k: i32| #[trigger] h(k) == f(k) + g(k),
    ensures
        sum_ints(ks.map_values(h)) == sum_ints(ks.map_values(f)) + sum_ints(ks.map_values(g)),
    decreases ks.len(),
{
    if ks.len() > 0 {
        let k2 = ks.drop_last();
        lemma_sum_map_add(k2, f, g, h);
        assert(ks.map_values(h).drop_last() =~= k2.map_values(h));
        assert(ks.map_values(f).drop_last() =~= k2.map_values(f));
        assert(ks.map_values(g).drop_last() =~= k2.map_values(g));
    }
}

proof fn lemma_sum_single(ks: Seq<i32>, x: (i32, usize))
    requires
        ks.no_duplicates(),
    ensures
        sum_ints(ks.map_values(|k: i32| value_at_key(k, x))) == if ks.contains(x.0) {
            x.1 as int
        } else {
            0
        },
    decreases ks.len(),
{
    if ks.len() > 0 {
        let k2 = ks.drop_last();
        assert(k2.no_duplicates());
        lemma_sum_single(k2, x);
        let f = |k: i32| value_at_key(k, x);
        assert(ks.map_values(f).drop_last() =~= k2.map_values(f));
        if ks.last() == x.0 {
            assert(!k2.contains(x.0));
            assert(ks.contains(x.0)) by {
                assert(ks[ks.len() - 1] == x.0);
            }
        } else {
            assert(ks.contains(x.0) == k2.contains(x.0)) by {
                if ks.contains(x.0) {
                    let i = choose|i: int| 0 <= i < ks.len() && ks[i] == x.0;
                    assert(k2[i] == x.0);
                }
                if k2.contains(x.0) {
                    let i = choose|i: int| 0 <= i < k2.len() && k2[i] == x.0;
                    assert(ks[i] == x.0);
                }
            }
        }
    } else {
        assert(!ks.contains(x.0));
    }
}

proof fn lemma_sum_over_keys(ps: Seq<(i32, usize)>, ks: Seq<i32>)
    requires
        ks.no_duplicates(),
        forall|i: int| 0 <= i < ps.len() ==> ks.contains(#[trigger] ps[i].0),
    ensures
        sum_ints(ks.map_values(|k: i32| pair_key_sum(ps, k))) == sum_ints(
            ps.map_values(|q: (i32, usize)| q.1 as int),
        ),
    decreases ps.len(),
{
    let vals = |q: (i32, usize)| q.1 as int;
    if ps.len() == 0 {
        let z = |k: i32| pair_key_sum(ps, k);
        assert forall|k: i32| #[trigger] z(k) == 0 by {
            assert(ps.map_values(|q: (i32, usize)| value_at_key(k, q)) =~= Seq::<int>::empty());
        }
        lemma_sum_map_add(ks, z, z, z);
        assert(ps.map_values(vals) =~= Seq::<int>::empty());
    } else {
        let rest = ps.drop_last();
        let x = ps.last();
        assert forall|i: int| 0 <= i < rest.len() implies ks.contains(#[trigger] rest[i].0) by {
            assert(rest[i] == ps[i]);
        }
        lemma_sum_over_keys(rest, ks);
        let h = |k: i32| pair_key_sum(ps, k);
        let f = |k: i32| pair_key_sum(rest, k);
        let g = |k: i32| value_at_key(k, x);
        assert forall|k: i32| #[trigger] h(k) == f(k) + g(k) by {
            let vk = |q: (i32, usize)| value_at_key(k, q);
            assert(ps.map_values(vk).drop_last() =~= rest.map_values(vk));
        }
        lemma_sum_map_add(ks, f, g, h);
        assert(ks.contains(ps[ps.len() - 1].0));
        lemma_sum_single(ks, x);
        assert(ps.map_values(vals).drop_last() =~= rest.map_values(vals));
    }
}

/// Trend periods come in ascending order, each once, and their points add up
/// to the point total of all sessions.
pub proof fn law_trend_ordered_and_complete(s: Seq<Session>, p: Period)
    ensures
        strictly_ascending(trend_keys(p, s)),
        sum_ints(trend_keys(p, s).map_values(|k: i32| key_points(p, s, k))) == total_points(s),
{
    let keys = s.map_values(|x: Session| crate::trend::session_key(p, x));
    let sorted = sort_days(keys);
    lemma_sort_days(keys);
    lemma_dedup_sorted(sorted);
    let ks = trend_keys(p, s);
    let ps = session_pairs(p, s);
    assert(ks.no_duplicates()) by {
        assert forall|i: int, j: int| 0 <= i < ks.len() && 0 <= j < ks.len() && i != j implies ks[i] != ks[j] by {
            if i < j {
                assert(ks[i] < ks[j]);
            } else {
                assert(ks[j] < ks[i]);
            }
        }
    }
    assert forall|i: int| 0 <= i < ps.len() implies ks.contains(#[trigger] ps[i].0) by {
        keys.to_multiset_ensures();
        sorted.to_multiset_ensures();
        assert(keys[i] == ps[i].0);
        assert(keys.contains(ps[i].0));
        assert(sorted.to_multiset().count(ps[i].0) > 0);
        assert(sorted.contains(ps[i].0));
    }
    lemma_sum_over_keys(ps, ks);
    assert(ks.map_values(|k: i32| key_points(p, s, k)) =~= ks.map_values(|k: i32| pair_key_sum(ps, k)));
    assert(ps.map_values(|q: (i32, usize)| q.1 as int) =~= point_values(s));
    lemma_total_is_sum(s);
}

} // verus!
