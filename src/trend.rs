//! Points per calendar period: sessions grouped by week, month or year.
use vstd::prelude::*;
use crate::date::{date_text, month_of_day, week_start_day, year_of_day, Date};
use crate::decimal::{decimal_text, int_text};
use crate::points::points_of;
use crate::seq_facts::{
    lemma_map_perm, lemma_sort_days, lemma_sorted_unique, lemma_sum_perm, sort_days,
    sum_ints, lemma_sum_concat,
};
use crate::session::{all_dates_valid, count_fits, day_of, session_dates, Session};

verus! {

/// The calendar period that sessions are grouped by.
#[derive(Clone, Copy, PartialEq, Eq, Structural, Debug)]
pub enum Period {
    Week,
    Month,
    Year,
}

/// Points of one period: its label (the week's Monday, `YYYY-MM` or `YYYY`)
/// and the points of the sessions in it.
pub struct WeeklyActivity {
    pub week_start: String,
    pub points: usize,
}

/// The number that orders periods: the Monday's day number for a week, the
/// count of months since year 0 for a month, the year for a year.
pub open spec fn period_key(p: Period, n: int) -> int {
    match p {
        Period::Week => week_start_day(n),
        Period::Month => year_of_day(n) * 12 + month_of_day(n) - 1,
        Period::Year => year_of_day(n),
    }
}

/// `{year}-{month:02}`.
pub open spec fn month_key_text(y: int, m: int) -> Seq<char> {
    decimal_text(y) + seq!['-'] + (if m < 10 { seq!['0'] } else { Seq::empty() }) + decimal_text(m)
}

/// The label of the period with key `k`.
pub open spec fn period_label(p: Period, k: int) -> Seq<char> {
    match p {
        Period::Week => date_text(k),
        Period::Month => month_key_text(k / 12, k % 12 + 1),
        Period::Year => decimal_text(k),
    }
}

pub open spec fn session_key(p: Period, x: Session) -> i32 {
    period_key(p, day_of(x) as int) as i32
}

pub open spec fn session_pair(p: Period, x: Session) -> (i32, usize) {
    (session_key(p, x), points_of(x.session_type@) as usize)
}

pub open spec fn session_pairs(p: Period, s: Seq<Session>) -> Seq<(i32, usize)> {
    s.map_values(|x: Session| session_pair(p, x))
}

pub open spec fn pair_key(q: (i32, usize)) -> i32 {
    q.0
}

/// Sequence with each run of equal neighbours kept once.
pub open spec fn dedup(s: Seq<i32>) -> Seq<i32>
    decreases s.len(),
{
    if s.len() <= 1 {
        s
    } else if s.last() == s[s.len() - 2] {
        dedup(s.drop_last())
    } else {
        dedup(s.drop_last()).push(s.last())
    }
}

/// Keys of the periods that hold a session, ascending, each once.
pub open spec fn trend_keys(p: Period, s: Seq<Session>) -> Seq<i32> {
    dedup(sort_days(s.map_values(|x: Session| session_key(p, x))))
}

/// The value of a pair counted towards key `k`.
pub open spec fn value_at_key(k: i32, q: (i32, usize)) -> int {
    if q.0 == k {
        q.1 as int
    } else {
        0
    }
}

pub open spec fn pair_key_sum(ps: Seq<(i32, usize)>, k: i32) -> int {
    sum_ints(ps.map_values(|q: (i32, usize)| value_at_key(k, q)))
}

/// Points of the sessions that fall in the period with key `k`.
pub open spec fn key_points(p: Period, s: Seq<Session>, k: i32) -> int {
    pair_key_sum(session_pairs(p, s), k)
}

pub open spec fn trend_matches(r: Seq<WeeklyActivity>, p: Period, s: Seq<Session>) -> bool {
    let ks = trend_keys(p, s);
    &&& r.len() == ks.len()
    &&& forall|i: int|
        0 <= i < r.len() ==> (#[trigger] r[i]).week_start@ == period_label(p, ks[i] as int)
            && r[i].points == key_points(p, s, ks[i])
}

pub open spec fn group_pairs(k: i32, vals: Seq<usize>) -> Seq<(i32, usize)> {
    vals.map_values(|v: usize| (k, v))
}

/// The pairs of all groups, in order.
pub open spec fn flat_groups(gs: Seq<(i32, Vec<usize>)>) -> Seq<(i32, usize)>
    decreases gs.len(),
{
    if gs.len() == 0 {
        Seq::empty()
    } else {
        flat_groups(gs.drop_last()) + group_pairs(gs.last().0, gs.last().1@)
    }
}

pub open spec fn sorted_by_key(s: Seq<(i32, usize)>) -> bool {
    forall|i: int, j: int| 0 <= i < j < s.len() ==> s[i].0 <= s[j].0
}

/// Relies on itertools' `Itertools::sorted_by_key`: the same pairs, ascending by key.
#[verifier::external_body]
fn sorted_pairs_by_key(v: Vec<(i32, usize)>) -> (r: Vec<(i32, usize)>)
    ensures
        r@.to_multiset() == v@.to_multiset(),
        sorted_by_key(r@),
{
    itertools::Itertools::sorted_by_key(v.into_iter(), |q| q.0).collect()
}

/// Relies on itertools' `Itertools::chunk_by`: the runs of pairs with equal
/// keys, in order, each with its key and values.
#[verifier::external_body]
fn chunk_pairs_by_key(v: Vec<(i32, usize)>) -> (r: Vec<(i32, Vec<usize>)>)
    ensures
        flat_groups(r@) == v@,
        forall|g: int| 0 <= g < r@.len() ==> (#[trigger] r@[g]).1@.len() > 0,
        forall|g: int| 0 < g < r@.len() ==> (#[trigger] r@[g]).0 != r@[g - 1].0,
{
    let chunks = itertools::Itertools::chunk_by(v.into_iter(), |q| q.0);
    chunks.into_iter().map(|(k, g)| (k, g.map(|q| q.1).collect())).collect()
}

pub open spec fn sum_vals(vals: Seq<usize>) -> int {
    sum_ints(vals.map_values(|v: usize| v as int))
}

pub open spec fn group_keys(gs: Seq<(i32, Vec<usize>)>) -> Seq<i32> {
    gs.map_values(|g: (i32, Vec<usize>)| g.0)
}

pub open spec fn keys_increasing(gs: Seq<(i32, Vec<usize>)>) -> bool {
    forall|i: int, j: int| 0 <= i < j < gs.len() ==> gs[i].0 < gs[j].0
}

pub proof fn lemma_pair_key_sum_concat(a: Seq<(i32, usize)>, b: Seq<(i32, usize)>, k: i32)
    ensures
        pair_key_sum(a + b, k) == pair_key_sum(a, k) + pair_key_sum(b, k),
{
    let f = |q: (i32, usize)| value_at_key(k, q);
    assert((a + b).map_values(f) =~= a.map_values(f) + b.map_values(f));
    lemma_sum_concat(a.map_values(f), b.map_values(f));
}

pub proof fn lemma_group_key_sum(kg: i32, vals: Seq<usize>, k: i32)
    ensures
        pair_key_sum(group_pairs(kg, vals), k) == if kg == k {
            sum_vals(vals)
        } else {
            0
        },
    decreases vals.len(),
{
    let f = |q: (i32, usize)| value_at_key(k, q);
    let g = |v: usize| v as int;
    if vals.len() == 0 {
        assert(group_pairs(kg, vals).map_values(f) =~= Seq::<int>::empty());
        assert(vals.map_values(g) =~= Seq::<int>::empty());
    } else {
        let v2 = vals.drop_last();
        lemma_group_key_sum(kg, v2, k);
        assert(group_pairs(kg, vals).map_values(f).drop_last() =~= group_pairs(kg, v2).map_values(f));
        assert(vals.map_values(g).drop_last() =~= v2.map_values(g));
    }
}

/// Runs of one key appended after a different key add that key once.
pub proof fn lemma_dedup_run(x: Seq<i32>, k: i32, n: nat)
    requires
        n > 0,
        x.len() == 0 || x.last() != k,
    ensures
        dedup(x + Seq::new(n, |i: int| k)) == dedup(x).push(k),
    decreases n,
{
    let y = x + Seq::new(n, |i: int| k);
    if n == 1 {
        assert(y =~= x.push(k));
        assert(y.drop_last() =~= x);
        if x.len() == 0 {
            assert(dedup(y) =~= dedup(x).push(k));
        }
    } else {
        assert(y.drop_last() =~= x + Seq::new((n - 1) as nat, |i: int| k));
        lemma_dedup_run(x, k, (n - 1) as nat);
    }
}

pub proof fn lemma_flat_len(gs: Seq<(i32, Vec<usize>)>, b: int)
    requires
        0 <= b < gs.len(),
    ensures
        gs[b].1@.len() <= flat_groups(gs).len(),
        forall|j: int| 0 <= j < gs[b].1@.len() ==> flat_groups(gs).contains((gs[b].0, #[trigger] gs[b].1@[j])),
    decreases gs.len(),
{
    let gs2 = gs.drop_last();
    let tail = group_pairs(gs.last().0, gs.last().1@);
    assert(flat_groups(gs) == flat_groups(gs2) + tail);
    if b == gs.len() - 1 {
        assert forall|j: int| 0 <= j < gs[b].1@.len() implies flat_groups(gs).contains((gs[b].0, #[trigger] gs[b].1@[j])) by {
            assert(flat_groups(gs)[flat_groups(gs2).len() + j] == tail[j]);
        }
    } else {
        lemma_flat_len(gs2, b);
        assert forall|j: int| 0 <= j < gs[b].1@.len() implies flat_groups(gs).contains((gs[b].0, #[trigger] gs[b].1@[j])) by {
            assert(flat_groups(gs2).contains((gs2[b].0, gs2[b].1@[j])));
            let i = choose|i: int| 0 <= i < flat_groups(gs2).len() && flat_groups(gs2)[i] == (gs2[b].0, gs2[b].1@[j]);
            assert(flat_groups(gs)[i] == flat_groups(gs2)[i]);
        }
    }
}

/// Groups cut from a sequence sorted by key, with neighbouring keys distinct,
/// have ascending keys, and their keys are the sequence's keys, each once.
pub proof fn lemma_flat_groups(gs: Seq<(i32, Vec<usize>)>)
    requires
        sorted_by_key(flat_groups(gs)),
        forall|g: int| 0 <= g < gs.len() ==> (#[trigger] gs[g]).1@.len() > 0,
        forall|g: int| 0 < g < gs.len() ==> (#[trigger] gs[g]).0 != gs[g - 1].0,
    ensures
        keys_increasing(gs),
        gs.len() > 0 ==> flat_groups(gs).len() > 0 && flat_groups(gs).last().0 == gs.last().0,
        dedup(flat_groups(gs).map_values(|q: (i32, usize)| pair_key(q))) == group_keys(gs),
    decreases gs.len(),
{
    let pk = |q: (i32, usize)| pair_key(q);
    if gs.len() == 0 {
        assert(flat_groups(gs).map_values(pk) =~= Seq::<i32>::empty());
        assert(group_keys(gs) =~= Seq::<i32>::empty());
    } else {
        let gs2 = gs.drop_last();
        let last = gs.last();
        let tail = group_pairs(last.0, last.1@);
        let f2 = flat_groups(gs2);
        let f = flat_groups(gs);
        assert(f == f2 + tail);
        assert forall|i: int, j: int| 0 <= i < j < f2.len() implies f2[i].0 <= f2[j].0 by {
            assert(f[i] == f2[i] && f[j] == f2[j]);
        }
        assert forall|g: int| 0 < g < gs2.len() implies (#[trigger] gs2[g]).0 != gs2[g - 1].0 by {
            assert(gs2[g] == gs[g] && gs2[g - 1] == gs[g - 1]);
        }
        assert forall|g: int| 0 <= g < gs2.len() implies (#[trigger] gs2[g]).1@.len() > 0 by {
            assert(gs2[g] == gs[g]);
        }
        lemma_flat_groups(gs2);
        assert(f[f2.len() as int] == tail[0]);
        assert(f.last() == tail[tail.len() - 1]);
        if gs2.len() > 0 {
            assert(f[f2.len() - 1] == f2.last());
            assert(gs2.last().0 <= last.0);
            assert(gs[gs.len() - 2] == gs2.last());
            assert(gs2.last().0 < last.0);
            assert forall|i: int, j: int| 0 <= i < j < gs.len() implies gs[i].0 < gs[j].0 by {
                if j < gs.len() - 1 {
                    assert(gs[i] == gs2[i] && gs[j] == gs2[j]);
                } else {
                    assert(gs[i] == gs2[i]);
                    if i < gs2.len() - 1 {
                        assert(gs2[i].0 < gs2.last().0);
                    }
                }
            }
        }
        let run = Seq::new(last.1@.len(), |i: int| last.0);
        assert(f.map_values(pk) =~= f2.map_values(pk) + run);
        assert(f2.map_values(pk).len() == 0 || f2.map_values(pk).last() != last.0);
        lemma_dedup_run(f2.map_values(pk), last.0, last.1@.len());
        assert(group_keys(gs) =~= group_keys(gs2).push(last.0));
    }
}

/// With ascending keys, the pairs of a key are those of its one group.
pub proof fn lemma_flat_key_sum(gs: Seq<(i32, Vec<usize>)>, k: i32)
    requires
        keys_increasing(gs),
    ensures
        pair_key_sum(flat_groups(gs), k) == if exists|b: int| 0 <= b < gs.len() && gs[b].0 == k {
            sum_vals(gs[choose|b: int| 0 <= b < gs.len() && gs[b].0 == k].1@)
        } else {
            0
        },
    decreases gs.len(),
{
    if gs.len() == 0 {
        assert(flat_groups(gs).map_values(|q: (i32, usize)| value_at_key(k, q)) =~= Seq::<int>::empty());
    } else {
        let gs2 = gs.drop_last();
        let last = gs.last();
        assert(flat_groups(gs) == flat_groups(gs2) + group_pairs(last.0, last.1@));
        lemma_pair_key_sum_concat(flat_groups(gs2), group_pairs(last.0, last.1@), k);
        lemma_group_key_sum(last.0, last.1@, k);
        assert(keys_increasing(gs2)) by {
            assert forall|i: int, j: int| 0 <= i < j < gs2.len() implies gs2[i].0 < gs2[j].0 by {
                assert(gs2[i] == gs[i] && gs2[j] == gs[j]);
            }
        }
        lemma_flat_key_sum(gs2, k);
        if last.0 == k {
            assert forall|b: int| 0 <= b < gs2.len() implies gs2[b].0 != k by {
                assert(gs2[b] == gs[b]);
            }
            let b = choose|b: int| 0 <= b < gs.len() && gs[b].0 == k;
            assert(b == gs.len() - 1);
        } else if exists|b: int| 0 <= b < gs.len() && gs[b].0 == k {
            let b = choose|b: int| 0 <= b < gs.len() && gs[b].0 == k;
            assert(gs2[b] == gs[b]);
            let b2 = choose|b: int| 0 <= b < gs2.len() && gs2[b].0 == k;
            assert(gs[b2] == gs2[b2]);
            assert(b == b2);
        } else {
            assert forall|b: int| 0 <= b < gs2.len() implies gs2[b].0 != k by {
                assert(gs2[b] == gs[b]);
            }
        }
    }
}

/// Keys that the service can label: a day in range for a week, a month or a
/// year within chrono's years.
pub open spec fn key_ok(p: Period, k: int) -> bool {
    match p {
        Period::Week => crate::date::day_in_range(k),
        Period::Month => -3145728 <= k <= 3145727,
        Period::Year => -262144 <= k <= 262143,
    }
}

pub open spec fn pair_ok(p: Period, q: (i32, usize)) -> bool {
    key_ok(p, q.0 as int) && q.1 <= 14
}

pub proof fn lemma_pairs_ok_perm(p: Period, a: Seq<(i32, usize)>, b: Seq<(i32, usize)>)
    requires
        a.to_multiset() == b.to_multiset(),
        forall|i: int| 0 <= i < a.len() ==> pair_ok(p, #[trigger] a[i]),
    ensures
        forall|i: int| 0 <= i < b.len() ==> pair_ok(p, #[trigger] b[i]),
{
    assert forall|i: int| 0 <= i < b.len() implies pair_ok(p, #[trigger] b[i]) by {
        a.to_multiset_ensures();
        b.to_multiset_ensures();
        assert(b.contains(b[i]));
        assert(b.to_multiset().count(b[i]) > 0);
        assert(a.to_multiset().count(b[i]) > 0);
        assert(a.contains(b[i]));
    }
}

fn period_key_of(p: Period, d: Date) -> (r: i32)
    requires
        d.wf(),
    ensures
        r == period_key(p, d.day as int),
        key_ok(p, r as int),
{
    match p {
        Period::Week => d.week_start().day,
        Period::Month => d.year() * 12 + d.month() as i32 - 1,
        Period::Year => d.year(),
    }
}

fn period_label_of(p: Period, k: i32) -> (r: String)
    requires
        key_ok(p, k as int),
    ensures
        r@ == period_label(p, k as int),
{
    match p {
        Period::Week => Date { day: k }.to_text(),
        Period::Month => {
            let y: i32 = (k + 3145728) / 12 - 262144;
            let m: i32 = k - y * 12 + 1;
            assert(y == k / 12 && m == k % 12 + 1);
            proof {
                reveal_strlit("-");
                reveal_strlit("0");
            }
            let mut t = int_text(y).concat("-");
            if m < 10 {
                t = t.concat("0");
            }
            let ms = int_text(m);
            let r = t.concat(ms.as_str());
            assert(r@ =~= month_key_text(k / 12, k % 12 + 1));
            r
        },
        Period::Year => int_text(k),
    }
}

/// Points per period: one entry for each period that holds a session,
/// ascending, with the sum of the points of its sessions.
pub fn calculate_trend(sessions: &[Session], period: Period) -> (r: Vec<WeeklyActivity>)
    requires
        all_dates_valid(sessions@),
        count_fits(sessions@.len() as int),
    ensures
        trend_matches(r@, period, sessions@),
{
    let dates = match session_dates(sessions) {
        Ok(d) => d,
        Err(_) => {
            return Vec::new();
        },
    };
    let ghost s = sessions@;
    let mut pairs: Vec<(i32, usize)> = Vec::new();
    let mut i: usize = 0;
    while i < dates.len()
        invariant
            0 <= i <= dates@.len(),
            dates@.len() == s.len(),
            s == sessions@,
            forall|k: int| 0 <= k < dates@.len() ==> (#[trigger] dates@[k]).wf()
                && dates@[k].day == day_of(s[k]),
            pairs@ =~= session_pairs(period, s).subrange(0, i as int),
            forall|k: int| 0 <= k < pairs@.len() ==> pair_ok(period, #[trigger] pairs@[k]),
        decreases dates@.len() - i,
    {
        let key = period_key_of(period, dates[i]);
        let pts = crate::points::calculate_session_points(sessions[i].session_type.as_str());
        pairs.push((key, pts));
        i = i + 1;
    }
    assert(pairs@ =~= session_pairs(period, s));
    let ghost unsorted = pairs@;
    let sorted = sorted_pairs_by_key(pairs);
    let ghost sorted_s = sorted@;
    proof {
        lemma_pairs_ok_perm(period, unsorted, sorted_s);
        unsorted.to_multiset_ensures();
        sorted_s.to_multiset_ensures();
    }
    let groups = chunk_pairs_by_key(sorted);
    let ghost gs = groups@;
    proof {
        lemma_flat_groups(gs);
    }
    let mut out: Vec<WeeklyActivity> = Vec::new();
    let mut g: usize = 0;
    while g < groups.len()
        invariant
            0 <= g <= groups@.len(),
            gs == groups@,
            flat_groups(gs) == sorted_s,
            forall|b: int| 0 <= b < gs.len() ==> (#[trigger] gs[b]).1@.len() > 0,
            count_fits(s.len() as int),
            sorted_s.len() == s.len(),
            forall|k: int| 0 <= k < sorted_s.len() ==> pair_ok(period, #[trigger] sorted_s[k]),
            out@.len() == g,
            forall|b: int| 0 <= b < g ==> (#[trigger] out@[b]).week_start@ == period_label(
                period,
                gs[b].0 as int,
            ) && out@[b].points == sum_vals(gs[b].1@),
        decreases groups@.len() - g,
    {
        let k = groups[g].0;
        let vals = &groups[g].1;
        proof {
            lemma_flat_len(gs, g as int);
            assert forall|j: int| 0 <= j < vals@.len() implies #[trigger] vals@[j] <= 14 && key_ok(period, k as int) by {
                assert(sorted_s.contains((k, vals@[j])));
            }
            assert(vals@.len() > 0);
            assert(sorted_s.contains((k, vals@[0])));
        }
        let mut acc: usize = 0;
        let mut j: usize = 0;
        while j < vals.len()
            invariant
                0 <= j <= vals@.len(),
                vals@.len() <= s.len(),
                count_fits(s.len() as int),
                forall|t: int| 0 <= t < vals@.len() ==> #[trigger] vals@[t] <= 14,
                acc == sum_vals(vals@.subrange(0, j as int)),
                acc <= 14 * j,
            decreases vals@.len() - j,
        {
            proof {
                let f = |v: usize| v as int;
                assert(vals@.subrange(0, j + 1).map_values(f).drop_last() =~= vals@.subrange(
                    0,
                    j as int,
                ).map_values(f));
            }
            acc = acc + vals[j];
            j = j + 1;
        }
        assert(vals@.subrange(0, j as int) =~= vals@);
        let label = period_label_of(period, k);
        out.push(WeeklyActivity { week_start: label, points: acc });
        g = g + 1;
    }
    proof {
        let pk = |q: (i32, usize)| pair_key(q);
        let sk = |x: Session| session_key(period, x);
        lemma_map_perm(unsorted, sorted_s, pk);
        assert(unsorted.map_values(pk) =~= s.map_values(sk));
        lemma_sort_days(s.map_values(sk));
        lemma_sorted_unique(sorted_s.map_values(pk), sort_days(s.map_values(sk)));
        assert(trend_keys(period, s) == group_keys(gs));
        assert forall|b: int| 0 <= b < out@.len() implies (#[trigger] out@[b]).points == key_points(
            period,
            s,
            trend_keys(period, s)[b],
        ) by {
            let k = gs[b].0;
            assert(trend_keys(period, s)[b] == k);
            lemma_flat_key_sum(gs, k);
            let b2 = choose|b2: int| 0 <= b2 < gs.len() && gs[b2].0 == k;
            assert(b2 == b);
            let f = |q: (i32, usize)| value_at_key(k, q);
            lemma_map_perm(unsorted, sorted_s, f);
            lemma_sum_perm(unsorted.map_values(f), sorted_s.map_values(f));
        }
    }
    out
}

} // verus!
