//! Weekly streak bonuses: runs of three or more consecutive days, reported
//! once per closed week.
use vstd::prelude::*;
use crate::date::{date_text, day_in_range, week_start_day, Date};
use crate::error::ApiError;
use crate::seq_facts::sort_days;
use crate::session::{all_dates_valid, days_of, session_dates, sorted_session_days, Session};
use crate::streak::next_streak;

verus! {

/// A run of consecutive days that earned a bonus, and the Monday of the week
/// it was credited to.
pub struct StreakBonusResponse {
    pub streak_length: usize,
    pub week_start: String,
}

/// After folding over `days`: the windows closed so far, as (run length, week
/// start day), and the current run length.
pub open spec fn bonus_state(days: Seq<i32>) -> (Seq<(int, int)>, int)
    decreases days.len(),
{
    if days.len() == 0 {
        (Seq::empty(), 0)
    } else if days.len() == 1 {
        (Seq::empty(), 1)
    } else {
        let (windows, streak) = bonus_state(days.drop_last());
        let prev = days[days.len() - 2] as int;
        let cur = days.last() as int;
        let closed = if week_start_day(cur) != week_start_day(prev) && streak >= 3 {
            windows.push((streak, week_start_day(prev)))
        } else {
            windows
        };
        (closed, next_streak(Some(prev), cur, streak))
    }
}

/// Every bonus window of ascending `days`: each window closed at a week
/// boundary, then the final run if it is three days or longer.
pub open spec fn bonus_windows(days: Seq<i32>) -> Seq<(int, int)> {
    let (windows, streak) = bonus_state(days);
    if streak >= 3 {
        windows.push((streak, week_start_day(days.last() as int)))
    } else {
        windows
    }
}

pub open spec fn bonus_matches(r: Seq<StreakBonusResponse>, w: Seq<(int, int)>) -> bool {
    &&& r.len() == w.len()
    &&& forall|i: int|
        0 <= i < r.len() ==> (#[trigger] r[i]).streak_length == w[i].0 && r[i].week_start@
            == date_text(w[i].1)
}

pub proof fn lemma_bonus_state_bounded(days: Seq<i32>)
    ensures
        0 <= bonus_state(days).1 <= days.len(),
        days.len() > 0 ==> bonus_state(days).1 >= 1,
    decreases days.len(),
{
    if days.len() > 1 {
        lemma_bonus_state_bounded(days.drop_last());
    }
}

fn bonus_entry(streak: usize, last: Date) -> (r: StreakBonusResponse)
    requires
        last.wf(),
    ensures
        r.streak_length == streak,
        r.week_start@ == date_text(week_start_day(last.day as int)),
{
    StreakBonusResponse { streak_length: streak, week_start: last.week_start().to_text() }
}

/// The bonus windows of days already in ascending order.
pub fn weekly_streak_bonus_of_sorted(days: &Vec<i32>) -> (r: Vec<StreakBonusResponse>)
    requires
        forall|k: int| 0 <= k < days@.len() ==> day_in_range(#[trigger] days@[k] as int),
    ensures
        bonus_matches(r@, bonus_windows(days@)),
{
    let mut windows: Vec<StreakBonusResponse> = Vec::new();
    let mut last: Option<Date> = None;
    let mut streak: usize = 0;
    let mut i: usize = 0;
    while i < days.len()
        invariant
            0 <= i <= days@.len(),
            forall|k: int| 0 <= k < days@.len() ==> day_in_range(#[trigger] days@[k] as int),
            bonus_matches(windows@, bonus_state(days@.subrange(0, i as int)).0),
            streak == bonus_state(days@.subrange(0, i as int)).1,
            i == 0 ==> last is None,
            i > 0 ==> last == Some(Date { day: days@[i - 1] }),
        decreases days@.len() - i,
    {
        let cur = Date { day: days[i] };
        let ghost p = days@.subrange(0, i + 1);
        proof {
            assert(p.drop_last() =~= days@.subrange(0, i as int));
            assert(p.last() == days@[i as int]);
            if i > 0 {
                assert(p[p.len() - 2] == days@[i - 1]);
            }
            lemma_bonus_state_bounded(days@.subrange(0, i as int));
        }
        match last {
            Some(prev) => {
                if cur.week_start().day != prev.week_start().day && streak >= 3 {
                    let entry = bonus_entry(streak, prev);
                    windows.push(entry);
                }
            },
            None => {},
        }
        streak = crate::streak::update_streak(last, cur, streak);
        last = Some(cur);
        i = i + 1;
        proof {
            assert(bonus_matches(windows@, bonus_state(p).0));
        }
    }
    assert(days@.subrange(0, i as int) =~= days@);
    if streak >= 3 {
        match last {
            Some(prev) => {
                let entry = bonus_entry(streak, prev);
                windows.push(entry);
            },
            None => {},
        }
    }
    windows
}

/// The bonus windows of the sessions, taken in date order.
pub fn calculate_weekly_streak_bonus(sessions: &[Session]) -> (r: Vec<StreakBonusResponse>)
    requires
        all_dates_valid(sessions@),
    ensures
        bonus_matches(r@, bonus_windows(sort_days(days_of(sessions@)))),
{
    match session_dates(sessions) {
        Ok(dates) => {
            let sorted = sorted_session_days(sessions, &dates);
            weekly_streak_bonus_of_sorted(&sorted)
        },
        Err(_) => Vec::new(),
    }
}

/// The bonus windows of the sessions, or an input error where a date is invalid.
pub fn try_weekly_streak_bonus(sessions: &[Session]) -> (r: Result<Vec<StreakBonusResponse>, ApiError>)
    ensures
        match r {
            Ok(v) => all_dates_valid(sessions@) && bonus_matches(
                v@,
                bonus_windows(sort_days(days_of(sessions@))),
            ),
            Err(e) => !all_dates_valid(sessions@) && crate::error::is_date_error(e),
        },
{
    match session_dates(sessions) {
        Ok(_) => Ok(calculate_weekly_streak_bonus(sessions)),
        Err(e) => Err(e),
    }
}

} // verus!
