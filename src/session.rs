//! Session records as the store hands them over, and the dates they carry.
use vstd::prelude::*;
use crate::date::{parse_date, parsed_day, Date};
use crate::error::ApiError;
use crate::points::points_of;
use crate::seq_facts::{lemma_sort_days, sort_days, sort_values};
use crate::date::day_in_range;

verus! {

/// One logged focus session: its date as `YYYY-MM-DD` text and its type label.
pub struct Session {
    pub id: i64,
    pub date: String,
    pub session_type: String,
}

/// Every session's date is one that `parse_date` accepts.
pub open spec fn all_dates_valid(s: Seq<Session>) -> bool {
    forall|i: int| 0 <= i < s.len() ==> (parsed_day(#[trigger] s[i].date@) is Some)
}

/// The day number of a session whose date is valid.
pub open spec fn day_of(x: Session) -> i32 {
    parsed_day(x.date@)->Some_0 as i32
}

pub open spec fn days_of(s: Seq<Session>) -> Seq<i32> {
    s.map_values(|x: Session| day_of(x))
}

/// Sum of the points of all sessions.
pub open spec fn total_points(s: Seq<Session>) -> nat
    decreases s.len(),
{
    if s.len() == 0 {
        0
    } else {
        total_points(s.drop_last()) + points_of(s.last().session_type@)
    }
}

/// The session count is small enough that any point total fits in `usize`.
pub open spec fn count_fits(n: int) -> bool {
    n <= usize::MAX / 14
}

/// The dates of all sessions, in order, or the error of the first invalid one.
pub fn session_dates(sessions: &[Session]) -> (r: Result<Vec<Date>, ApiError>)
    ensures
        match r {
            Ok(v) => all_dates_valid(sessions@) && v@.len() == sessions@.len()
                && forall|i: int| 0 <= i < v@.len() ==> (#[trigger] v@[i]).wf()
                && v@[i].day == day_of(sessions@[i]),
            Err(e) => !all_dates_valid(sessions@) && crate::error::is_date_error(e),
        },
{
    let mut out: Vec<Date> = Vec::new();
    let mut i: usize = 0;
    while i < sessions.len()
        invariant
            0 <= i <= sessions@.len(),
            out@.len() == i,
            forall|j: int| 0 <= j < i ==> (parsed_day(#[trigger] sessions@[j].date@) is Some),
            forall|j: int| 0 <= j < i ==> (#[trigger] out@[j]).wf() && out@[j].day == day_of(sessions@[j]),
        decreases sessions@.len() - i,
    {
        match parse_date(sessions[i].date.as_str()) {
            Ok(d) => {
                out.push(d);
            },
            Err(e) => {
                return Err(e);
            },
        }
        i = i + 1;
    }
    Ok(out)
}

/// Sum of the points of all sessions, in any order.
pub fn sum_points(sessions: &[Session]) -> (r: usize)
    requires
        count_fits(sessions@.len() as int),
    ensures
        r == total_points(sessions@),
{
    let mut total: usize = 0;
    let mut i: usize = 0;
    while i < sessions.len()
        invariant
            0 <= i <= sessions@.len(),
            count_fits(sessions@.len() as int),
            total == total_points(sessions@.subrange(0, i as int)),
            total <= 14 * i,
        decreases sessions@.len() - i,
    {
        assert(sessions@.subrange(0, i + 1).drop_last() =~= sessions@.subrange(0, i as int));
        let p = crate::points::calculate_session_points(sessions[i].session_type.as_str());
        total = total + p;
        i = i + 1;
    }
    assert(sessions@.subrange(0, i as int) =~= sessions@);
    total
}

/// Every day in the ascending arrangement of valid sessions' days is in range.
pub proof fn lemma_sorted_days_in_range(s: Seq<Session>)
    requires
        all_dates_valid(s),
    ensures
        forall|k: int| 0 <= k < sort_days(days_of(s)).len() ==> day_in_range(
            #[trigger] sort_days(days_of(s))[k] as int,
        ),
{
    let unsorted = days_of(s);
    let sorted = sort_days(unsorted);
    lemma_sort_days(unsorted);
    assert forall|k: int| 0 <= k < sorted.len() implies day_in_range(#[trigger] sorted[k] as int) by {
        unsorted.to_multiset_ensures();
        sorted.to_multiset_ensures();
        assert(sorted.contains(sorted[k]));
        assert(sorted.to_multiset().count(sorted[k]) > 0);
        assert(unsorted.to_multiset().count(sorted[k]) > 0);
        assert(unsorted.contains(sorted[k]));
        let j = choose|j: int| 0 <= j < unsorted.len() && unsorted[j] == sorted[k];
        assert(parsed_day(s[j].date@) is Some);
    }
}

/// The sessions' day numbers in ascending order, from their parsed dates.
pub fn sorted_session_days(sessions: &[Session], dates: &Vec<Date>) -> (r: Vec<i32>)
    requires
        all_dates_valid(sessions@),
        dates@.len() == sessions@.len(),
        forall|k: int| 0 <= k < dates@.len() ==> (#[trigger] dates@[k]).day == day_of(sessions@[k]),
    ensures
        r@ == sort_days(days_of(sessions@)),
        forall|k: int| 0 <= k < r@.len() ==> day_in_range(#[trigger] r@[k] as int),
{
    let mut days: Vec<i32> = Vec::new();
    let mut i: usize = 0;
    while i < dates.len()
        invariant
            0 <= i <= dates@.len(),
            dates@.len() == sessions@.len(),
            forall|k: int| 0 <= k < dates@.len() ==> (#[trigger] dates@[k]).day == day_of(sessions@[k]),
            days@ =~= days_of(sessions@).subrange(0, i as int),
        decreases dates@.len() - i,
    {
        days.push(dates[i].day);
        i = i + 1;
    }
    assert(days@ =~= days_of(sessions@));
    let sorted = sort_values(days);
    proof {
        lemma_sorted_days_in_range(sessions@);
    }
    sorted
}

} // verus!
