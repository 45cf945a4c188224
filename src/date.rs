//! Calendar dates as day numbers, and the text forms used by the service.
use vstd::prelude::*;
use chrono::Datelike;

verus! {

/// Day number of a Monday, the start of the week that holds 0000-01-01.
pub const MIN_DAY: i32 = -370;

/// Day number of 9999-12-31.
pub const MAX_DAY: i32 = 3652059;

/// Days are counted as chrono's `num_days_from_ce` counts them: 0001-01-01 is
/// day 1, a Monday.
pub open spec fn days_from_monday(n: int) -> int {
    (n - 1) % 7
}

/// The Monday on or before day `n`.
pub open spec fn week_start_day(n: int) -> int {
    n - days_from_monday(n)
}

pub open spec fn day_in_range(n: int) -> bool {
    MIN_DAY <= n <= MAX_DAY
}

/// What chrono's `NaiveDate::parse_from_str(s, "%Y-%m-%d")` yields, as a day number.
pub uninterp spec fn ce_day_of_text(s: Seq<char>) -> Option<int>;

/// chrono's `Display` text of the date with day number `n`.
pub uninterp spec fn date_text(n: int) -> Seq<char>;

/// chrono's calendar year of the date with day number `n`.
pub uninterp spec fn year_of_day(n: int) -> int;

/// chrono's month (1 to 12) of the date with day number `n`.
pub uninterp spec fn month_of_day(n: int) -> int;

pub open spec fn is_digit(c: char) -> bool {
    '0' <= c <= '9'
}

/// The fixed `YYYY-MM-DD` shape: ten characters, digits but for two dashes.
pub open spec fn is_date_shape(s: Seq<char>) -> bool {
    &&& s.len() == 10
    &&& s[4] == '-' && s[7] == '-'
    &&& forall|i: int| 0 <= i < 10 && i != 4 && i != 7 ==> is_digit(#[trigger] s[i])
}

/// The day that `s` denotes, if it is a date in the accepted form and range.
pub open spec fn parsed_day(s: Seq<char>) -> Option<int> {
    if is_date_shape(s) {
        match ce_day_of_text(s) {
            Some(n) => if day_in_range(n) { Some(n) } else { None },
            None => None,
        }
    } else {
        None
    }
}

/// A calendar date, held as its day number.
#[derive(Clone, Copy, PartialEq, Eq, Structural, Debug)]
pub struct Date {
    pub day: i32,
}

impl Date {
    pub open spec fn wf(self) -> bool {
        day_in_range(self.day as int)
    }

    /// The Monday on or before this date.
    pub fn week_start(self) -> (r: Date)
        requires
            self.wf(),
        ensures
            r.wf(),
            r.day == week_start_day(self.day as int),
    {
        let k: i32 = (self.day + 370) % 7;
        assert(k == days_from_monday(self.day as int));
        Date { day: self.day - k }
    }

    /// Days from `earlier` to `self`.
    pub fn days_since(self, earlier: Date) -> (r: i32)
        requires
            self.wf(),
            earlier.wf(),
        ensures
            r == self.day - earlier.day,
    {
        self.day - earlier.day
    }

    /// The date in `YYYY-MM-DD` form.
    pub fn to_text(self) -> (r: String)
        requires
            self.wf(),
        ensures
            r@ == date_text(self.day as int),
    {
        text_of_day(self.day)
    }

    pub fn year(self) -> (r: i32)
        requires
            self.wf(),
        ensures
            r == year_of_day(self.day as int),
        -262144 <= r <= 262143,
    {
        year_from_day(self.day)
    }

    pub fn month(self) -> (r: u32)
        requires
            self.wf(),
        ensures
            r == month_of_day(self.day as int),
            1 <= r <= 12,
    {
        month_from_day(self.day)
    }
}

/// Relies on chrono's `NaiveDate::parse_from_str` with `%Y-%m-%d`, and on
/// `num_days_from_ce` to number the date it yields.
#[verifier::external_body]
fn chrono_parse_day(s: &str) -> (r: Option<i32>)
    ensures
        match r {
            Some(n) => ce_day_of_text(s@) == Some(n as int),
            None => ce_day_of_text(s@) is None,
        },
{
    chrono::NaiveDate::parse_from_str(s, "%Y-%m-%d").ok().map(|d| d.num_days_from_ce())
}

/// Relies on chrono's `NaiveDate::from_num_days_from_ce_opt`, which has every
/// day of the range, and on `NaiveDate`'s `Display`.
#[verifier::external_body]
fn text_of_day(n: i32) -> (r: String)
    requires
        day_in_range(n as int),
    ensures
        r@ == date_text(n as int),
{
    chrono::NaiveDate::from_num_days_from_ce_opt(n).map(|d| d.to_string()).unwrap_or_default()
}

/// Relies on chrono's `NaiveDate::from_num_days_from_ce_opt` and
/// `Datelike::year`; a `NaiveDate` lies between 262145 BCE and 262143 CE.
#[verifier::external_body]
fn year_from_day(n: i32) -> (r: i32)
    requires
        day_in_range(n as int),
    ensures
        r == year_of_day(n as int),
        -262144 <= r <= 262143,
{
    chrono::NaiveDate::from_num_days_from_ce_opt(n).map(|d| d.year()).unwrap_or_default()
}

/// Relies on chrono's `NaiveDate::from_num_days_from_ce_opt` and
/// `Datelike::month`, which is documented to lie in 1 to 12.
#[verifier::external_body]
fn month_from_day(n: i32) -> (r: u32)
    requires
        day_in_range(n as int),
    ensures
        r == month_of_day(n as int),
        1 <= r <= 12,
{
    chrono::NaiveDate::from_num_days_from_ce_opt(n).map(|d| d.month()).unwrap_or_default()
}

fn has_date_shape(s: &str) -> (r: bool)
    ensures
        r == is_date_shape(s@),
{
    let n = s.unicode_len();
    if n != 10 {
        return false;
    }
    let mut i: usize = 0;
    while i < 10
        invariant
            s@.len() == 10,
            0 <= i <= 10,
            forall|j: int| 0 <= j < i ==> (if j == 4 || j == 7 { s@[j] == '-' } else { is_digit(s@[j]) }),
        decreases 10 - i,
    {
        let c = s.get_char(i);
        if i == 4 || i == 7 {
            if c != '-' {
                return false;
            }
        } else if !('0' <= c && c <= '9') {
            return false;
        }
        i = i + 1;
    }
    assert(s@[4] == '-' && s@[7] == '-');
    true
}

/// Parses a `YYYY-MM-DD` date; fails on any other text and on dates that the
/// calendar does not have.
pub fn parse_date(s: &str) -> (r: Result<Date, crate::error::ApiError>)
    ensures
        match r {
            Ok(d) => parsed_day(s@) == Some(d.day as int) && d.wf(),
            Err(e) => parsed_day(s@) is None && crate::error::is_date_error(e),
        },
{
    if !has_date_shape(s) {
        return Err(crate::error::date_error());
    }
    match chrono_parse_day(s) {
        Some(n) => {
            if MIN_DAY <= n && n <= MAX_DAY {
                Ok(Date { day: n })
            } else {
                Err(crate::error::date_error())
            }
        },
        None => Err(crate::error::date_error()),
    }
}

} // verus!
