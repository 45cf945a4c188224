//! The trailing run of consecutive days and the point total.
use vstd::prelude::*;
use crate::date::Date;
use crate::error::ApiError;
use crate::seq_facts::sort_days;
use crate::session::{
    all_dates_valid, count_fits, days_of, session_dates, sorted_session_days, sum_points,
    total_points, Session,
};

verus! {

/// The streak after one more day: one longer when `current` follows `last`
/// by exactly one day, else a fresh run of one.
pub open spec fn next_streak(last: Option<int>, current: int, streak: int) -> int {
    match last {
        Some(l) => if current - l == 1 { streak + 1 } else { 1 },
        None => 1,
    }
}

/// The run of consecutive days that ends at the last of `days`, folding from
/// the first: a step of one day extends it, any other step (a repeated day
/// too) starts a new run.
pub open spec fn streak_of(days: Seq<i32>) -> nat
    decreases days.len(),
{
    if days.len() == 0 {
        0
    } else if days.len() == 1 {
        1
    } else if days.last() - days[days.len() - 2] == 1 {
        streak_of(days.drop_last()) + 1
    } else {
        1
    }
}

pub fn update_streak(last_date: Option<Date>, current_date: Date, streak: usize) -> (r: usize)
    requires
        current_date.wf(),
        last_date matches Some(l) ==> l.wf(),
        streak < usize::MAX,
    ensures
        r == next_streak(
            match last_date {
                Some(l) => Some(l.day as int),
                None => None,
            },
            current_date.day as int,
            streak as int,
        ),
{
    match last_date {
        Some(last) => {
            if current_date.days_since(last) == 1 {
                streak + 1
            } else {
                1
            }
        },
        None => 1,
    }
}

/// The trailing streak of already sorted days.
pub fn streak_of_sorted(days: &Vec<i32>) -> (r: usize)
    requires
        forall|i: int| 0 <= i < days@.len() ==> crate::date::day_in_range(#[trigger] days@[i] as int),
    ensures
        r == streak_of(days@),
{
    let mut streak: usize = 0;
    let mut last: Option<Date> = None;
    let mut i: usize = 0;
    while i < days.len()
        invariant
            0 <= i <= days@.len(),
            forall|k: int| 0 <= k < days@.len() ==> crate::date::day_in_range(#[trigger] days@[k] as int),
            streak == streak_of(days@.subrange(0, i as int)),
            streak <= i,
            i == 0 ==> last is None,
            i > 0 ==> last == Some(Date { day: days@[i - 1] }),
        decreases days@.len() - i,
    {
        let cur = Date { day: days[i] };
        proof {
            let p = days@.subrange(0, i + 1);
            assert(p.drop_last() =~= days@.subrange(0, i as int));
            assert(p.last() == days@[i as int]);
            if i > 0 {
                assert(p[p.len() - 2] == days@[i - 1]);
            }
        }
        streak = update_streak(last, cur, streak);
        last = Some(cur);
        i = i + 1;
    }
    assert(days@.subrange(0, i as int) =~= days@);
    streak
}

/// The trailing streak of the sessions' days, taken in date order, and the sum
/// of their points; an invalid date is an input error.
pub fn calculate_streak_and_points(sessions: &[Session]) -> (r: Result<(usize, usize), ApiError>)
    requires
        count_fits(sessions@.len() as int),
    ensures
        match r {
            Ok((streak, points)) => all_dates_valid(sessions@)
                && streak == streak_of(sort_days(days_of(sessions@)))
                && points == total_points(sessions@),
            Err(e) => !all_dates_valid(sessions@) && crate::error::is_date_error(e),
        },
{
    let dates = match session_dates(sessions) {
        Ok(d) => d,
        Err(e) => {
            return Err(e);
        },
    };
    let sorted = sorted_session_days(sessions, &dates);
    let streak = streak_of_sorted(&sorted);
    let points = sum_points(sessions);
    Ok((streak, points))
}

} // verus!
