//! Session counts per calendar period, achievements, and the combined statistics.
use vstd::prelude::*;
use crate::date::{month_of_day, parse_date, parsed_day, year_of_day, Date};
use crate::error::ApiError;
use crate::seq_facts::sort_days;
use crate::session::{all_dates_valid, count_fits, days_of, Session};
use crate::streak::{calculate_streak_and_points, streak_of};
use crate::trend::{calculate_trend, trend_matches, Period, WeeklyActivity};

verus! {

/// Which sessions a count takes: those of one calendar year, or those of one
/// month of the year (in any year).
#[derive(Clone, Copy, PartialEq, Eq, Structural, Debug)]
pub enum PeriodFilter {
    InYear(i32),
    InMonth(u32),
}

pub open spec fn in_period(f: PeriodFilter, n: int) -> bool {
    match f {
        PeriodFilter::InYear(y) => year_of_day(n) == y,
        PeriodFilter::InMonth(m) => month_of_day(n) == m,
    }
}

/// A session counts when its date is valid and in the period.
pub open spec fn counts_in(f: PeriodFilter, x: Session) -> bool {
    match parsed_day(x.date@) {
        Some(n) => in_period(f, n),
        None => false,
    }
}

/// Number of sessions that count towards the period.
pub open spec fn count_in_period(s: Seq<Session>, f: PeriodFilter) -> nat
    decreases s.len(),
{
    if s.len() == 0 {
        0
    } else {
        count_in_period(s.drop_last(), f) + if counts_in(f, s.last()) {
            1nat
        } else {
            0nat
        }
    }
}

pub open spec fn seven_day_label() -> Seq<char> {
    seq!['7', '-', 'd', 'a', 'y', ' ', 's', 't', 'r', 'e', 'a', 'k']
}

/// The achievements a streak unlocks: the seven-day one from seven days on.
pub open spec fn achievements_match(r: Seq<String>, streak: int) -> bool {
    if streak >= 7 {
        r.len() == 1 && r[0]@ == seven_day_label()
    } else {
        r.len() == 0
    }
}

/// Counts the sessions whose valid date lies in the period; a session with an
/// invalid date is not counted.
pub fn calculate_period_streak(sessions: &[Session], filter: PeriodFilter) -> (r: usize)
    ensures
        r == count_in_period(sessions@, filter),
{
    let mut count: usize = 0;
    let mut i: usize = 0;
    while i < sessions.len()
        invariant
            0 <= i <= sessions@.len(),
            count == count_in_period(sessions@.subrange(0, i as int), filter),
            count <= i,
        decreases sessions@.len() - i,
    {
        assert(sessions@.subrange(0, i + 1).drop_last() =~= sessions@.subrange(0, i as int));
        let hit = match parse_date(sessions[i].date.as_str()) {
            Ok(d) => match filter {
                PeriodFilter::InYear(y) => d.year() == y,
                PeriodFilter::InMonth(m) => d.month() == m,
            },
            Err(_) => false,
        };
        if hit {
            count = count + 1;
        }
        i = i + 1;
    }
    assert(sessions@.subrange(0, i as int) =~= sessions@);
    count
}

/// The achievements that a streak of this length unlocks.
pub fn achievements_for(streak: usize) -> (r: Vec<String>)
    ensures
        achievements_match(r@, streak as int),
{
    let mut r: Vec<String> = Vec::new();
    if streak >= 7 {
        proof {
            reveal_strlit("7-day streak");
            assert("7-day streak"@ =~= seven_day_label());
        }
        r.push(String::from_str("7-day streak"));
    }
    r
}

/// Weekly trend, achievements, overall streak, and the session counts of the
/// current year and of the current month, for the given current date.
pub fn calculate_statistics(sessions: &[Session], current_date: Date) -> (r: Result<
    (Vec<WeeklyActivity>, Vec<String>, usize, usize, usize),
    ApiError,
>)
    requires
        count_fits(sessions@.len() as int),
        current_date.wf(),
    ensures
        match r {
            Ok((trend, achievements, streak, yearly, monthly)) => {
                &&& all_dates_valid(sessions@)
                &&& trend_matches(trend@, Period::Week, sessions@)
                &&& streak == streak_of(sort_days(days_of(sessions@)))
                &&& achievements_match(achievements@, streak as int)
                &&& yearly == count_in_period(
                    sessions@,
                    PeriodFilter::InYear(year_of_day(current_date.day as int) as i32),
                )
                &&& monthly == count_in_period(
                    sessions@,
                    PeriodFilter::InMonth(month_of_day(current_date.day as int) as u32),
                )
            },
            Err(e) => !all_dates_valid(sessions@) && crate::error::is_date_error(e),
        },
{
    let (overall_streak, _total) = match calculate_streak_and_points(sessions) {
        Ok(v) => v,
        Err(e) => {
            return Err(e);
        },
    };
    let weekly_trend = calculate_trend(sessions, Period::Week);
    let achievements = achievements_for(overall_streak);
    let yearly_streak = calculate_period_streak(sessions, PeriodFilter::InYear(current_date.year()));
    let monthly_streak = calculate_period_streak(sessions, PeriodFilter::InMonth(current_date.month()));
    Ok((weekly_trend, achievements, overall_streak, yearly_streak, monthly_streak))
}

} // verus!
