use session_streaks::decimal::int_text;
use session_streaks::points::is_valid_session_type;
use session_streaks::bonus::{calculate_weekly_streak_bonus, try_weekly_streak_bonus};
use session_streaks::date::parse_date;
use session_streaks::error::ApiError;
use session_streaks::session::Session;
use session_streaks::stats::{achievements_for, calculate_period_streak, PeriodFilter};
use session_streaks::streak::calculate_streak_and_points;
use session_streaks::trend::{calculate_trend, Period};

fn sessions_of(items: &[(&str, &str)]) -> Vec<Session> {
    let mut out = Vec::new();
    for (i, (date, kind)) in items.iter().enumerate() {
        out.push(Session { id: i as i64 + 1, date: date.to_string(), session_type: kind.to_string() });
    }
    out
}

#[test]
fn gap_resets_trailing_streak() {
    let s = sessions_of(&[("2023-10-01", "1-hour"), ("2023-10-02", "2-hours"), ("2023-10-04", "3-hours")]);
    assert_eq!(calculate_streak_and_points(&s).unwrap(), (1, 36));
}

#[test]
fn consecutive_days_streak_equals_count() {
    let s = sessions_of(&[
        ("2024-02-27", "1-hour"),
        ("2024-02-28", "1-hour"),
        ("2024-02-29", "1-hour"),
        ("2024-03-01", "1-hour"),
    ]);
    assert_eq!(calculate_streak_and_points(&s).unwrap(), (4, 40));
}

#[test]
fn unordered_input_is_sorted_first() {
    let s = sessions_of(&[("2023-10-03", "3-hours"), ("2023-10-01", "1-hour"), ("2023-10-02", "2-hours")]);
    assert_eq!(calculate_streak_and_points(&s).unwrap(), (3, 36));
}

#[test]
fn same_day_duplicate_starts_new_run() {
    let s = sessions_of(&[("2023-10-01", "1-hour"), ("2023-10-02", "1-hour"), ("2023-10-02", "1-hour")]);
    assert_eq!(calculate_streak_and_points(&s).unwrap(), (1, 30));
}

#[test]
fn total_points_ignore_order() {
    let a = sessions_of(&[("2023-10-05", "3-hours"), ("2023-10-01", "1-hour"), ("2023-10-02", "other")]);
    let b = sessions_of(&[("2023-10-02", "other"), ("2023-10-05", "3-hours"), ("2023-10-01", "1-hour")]);
    assert_eq!(calculate_streak_and_points(&a).unwrap().1, 24);
    assert_eq!(calculate_streak_and_points(&b).unwrap().1, 24);
}

#[test]
fn invalid_date_is_input_error() {
    let s = sessions_of(&[("2023-10-01", "1-hour"), ("2023-02-30", "1-hour")]);
    match calculate_streak_and_points(&s) {
        Err(ApiError::InvalidInput(_)) => {}
        _ => panic!("expected an input error"),
    }
    assert!(try_weekly_streak_bonus(&s).is_err());
}

#[test]
fn parse_rejects_other_shapes() {
    assert!(parse_date("2023-1-05").is_err());
    assert!(parse_date("2023-13-01").is_err());
    assert!(parse_date("2023/10/01").is_err());
    assert!(parse_date("").is_err());
    assert!(parse_date("2024-02-29").is_ok());
    assert!(parse_date("2023-02-29").is_err());
    assert!(parse_date("2023-10-01").unwrap().days_since(parse_date("2023-09-30").unwrap()) == 1);
}

#[test]
fn week_start_of_sunday_is_previous_monday() {
    let d = parse_date("2023-10-01").unwrap();
    assert_eq!(d.week_start().to_text(), "2023-09-25");
    let m = parse_date("2023-10-02").unwrap();
    assert_eq!(m.week_start().to_text(), "2023-10-02");
    assert_eq!(d.year(), 2023);
    assert_eq!(d.month(), 10);
}

#[test]
fn weekly_trend_buckets() {
    let s = sessions_of(&[("2023-10-01", "1-hour"), ("2023-10-02", "2-hours"), ("2023-10-03", "3-hours")]);
    let t = calculate_trend(&s, Period::Week);
    assert_eq!(t.len(), 2);
    assert_eq!(t[0].week_start, "2023-09-25");
    assert_eq!(t[0].points, 10);
    assert_eq!(t[1].week_start, "2023-10-02");
    assert_eq!(t[1].points, 26);
}

#[test]
fn monthly_and_yearly_trend_labels() {
    let s = sessions_of(&[
        ("2024-01-15", "1-hour"),
        ("2023-12-31", "2-hours"),
        ("2023-09-02", "3-hours"),
        ("2024-01-02", "3-hours"),
    ]);
    let m = calculate_trend(&s, Period::Month);
    assert_eq!(m.len(), 3);
    assert_eq!(m[0].week_start, "2023-09");
    assert_eq!(m[0].points, 14);
    assert_eq!(m[1].week_start, "2023-12");
    assert_eq!(m[1].points, 12);
    assert_eq!(m[2].week_start, "2024-01");
    assert_eq!(m[2].points, 24);
    let y = calculate_trend(&s, Period::Year);
    assert_eq!(y.len(), 2);
    assert_eq!(y[0].week_start, "2023");
    assert_eq!(y[0].points, 26);
    assert_eq!(y[1].week_start, "2024");
    assert_eq!(y[1].points, 24);
}

#[test]
fn bonus_window_closes_at_week_boundary() {
    let s = sessions_of(&[
        ("2023-10-04", "1-hour"),
        ("2023-10-05", "1-hour"),
        ("2023-10-06", "1-hour"),
        ("2023-10-10", "1-hour"),
    ]);
    let b = calculate_weekly_streak_bonus(&s);
    assert_eq!(b.len(), 1);
    assert_eq!(b[0].streak_length, 3);
    assert_eq!(b[0].week_start, "2023-10-02");
}

#[test]
fn bonus_streak_across_weeks_reported_twice() {
    let s = sessions_of(&[
        ("2023-10-06", "1-hour"),
        ("2023-10-07", "1-hour"),
        ("2023-10-08", "1-hour"),
        ("2023-10-09", "1-hour"),
    ]);
    let b = calculate_weekly_streak_bonus(&s);
    assert_eq!(b.len(), 2);
    assert_eq!(b[0].streak_length, 3);
    assert_eq!(b[0].week_start, "2023-10-02");
    assert_eq!(b[1].streak_length, 4);
    assert_eq!(b[1].week_start, "2023-10-09");
}

#[test]
fn short_runs_earn_no_bonus() {
    let s = sessions_of(&[("2023-10-01", "1-hour"), ("2023-10-02", "1-hour"), ("2023-10-05", "1-hour")]);
    assert!(calculate_weekly_streak_bonus(&s).is_empty());
}

#[test]
fn achievements_from_seven_days() {
    assert!(achievements_for(6).is_empty());
    assert_eq!(achievements_for(7), vec!["7-day streak".to_string()]);
    assert_eq!(achievements_for(30), vec!["7-day streak".to_string()]);
    let s = sessions_of(&[
        ("2023-10-01", "1-hour"),
        ("2023-10-02", "1-hour"),
        ("2023-10-03", "1-hour"),
        ("2023-10-04", "1-hour"),
        ("2023-10-05", "1-hour"),
        ("2023-10-06", "1-hour"),
        ("2023-10-07", "1-hour"),
    ]);
    let current = parse_date("2023-10-07").unwrap();
    let stats = session_streaks::stats::calculate_statistics(&s, current).unwrap();
    assert_eq!(stats.2, 7);
    assert_eq!(stats.1, vec!["7-day streak".to_string()]);
}

#[test]
fn empty_sessions_give_empty_results() {
    let s: Vec<Session> = Vec::new();
    assert_eq!(calculate_streak_and_points(&s).unwrap(), (0, 0));
    assert!(calculate_trend(&s, Period::Week).is_empty());
    assert!(calculate_weekly_streak_bonus(&s).is_empty());
    assert!(achievements_for(0).is_empty());
}

#[test]
fn period_counts() {
    let s = sessions_of(&[
        ("2023-10-01", "1-hour"),
        ("2022-10-09", "1-hour"),
        ("2023-03-02", "1-hour"),
        ("bad", "1-hour"),
    ]);
    assert_eq!(calculate_period_streak(&s, PeriodFilter::InYear(2023)), 2);
    assert_eq!(calculate_period_streak(&s, PeriodFilter::InMonth(10)), 2);
    assert_eq!(calculate_period_streak(&s, PeriodFilter::InMonth(3)), 1);
}

#[test]
fn error_messages() {
    let e = parse_date("nope").unwrap_err();
    assert!(e.is_invalid_input());
    assert_eq!(e.message(), "Invalid date format");
    assert!(!ApiError::DatabaseError("x".to_string()).is_invalid_input());
}

fn assert_date_error(r: Result<session_streaks::date::Date, ApiError>) {
    match r {
        Err(ApiError::InvalidInput(m)) => assert_eq!(m, "Invalid date format"),
        _ => panic!("expected the date error"),
    }
}

#[test]
fn invalid_dates_give_date_error_message() {
    assert_date_error(parse_date("invalid-date"));
    assert_date_error(parse_date("2023-13-01"));
    assert_date_error(parse_date("2023-02-30"));
    let s = sessions_of(&[("2023-13-01", "1-hour")]);
    match calculate_streak_and_points(&s) {
        Err(ApiError::InvalidInput(m)) => assert_eq!(m, "Invalid date format"),
        _ => panic!("expected the date error"),
    }
}

#[test]
fn known_session_types() {
    assert!(is_valid_session_type("1-hour"));
    assert!(is_valid_session_type("2-hours"));
    assert!(is_valid_session_type("3-hours"));
    assert!(!is_valid_session_type("4-hours"));
    assert!(!is_valid_session_type(""));
    assert!(!is_valid_session_type("1-hours"));
}

#[test]
fn decimal_text_of_integers() {
    assert_eq!(int_text(0), "0");
    assert_eq!(int_text(7), "7");
    assert_eq!(int_text(2023), "2023");
    assert_eq!(int_text(-45), "-45");
    assert_eq!(int_text(i32::MAX), i32::MAX.to_string());
    assert_eq!(int_text(i32::MIN), i32::MIN.to_string());
}
