use session_streaks::bonus::{calculate_weekly_streak_bonus, try_weekly_streak_bonus};
use session_streaks::date::parse_date;
use session_streaks::points::calculate_session_points;
use session_streaks::session::Session;
use session_streaks::stats::calculate_statistics;
use session_streaks::streak::calculate_streak_and_points;

fn session(id: i64, date: &str, session_type: &str) -> Session {
    Session { id, date: date.to_string(), session_type: session_type.to_string() }
}

fn sample_sessions() -> Vec<Session> {
    vec![
        session(1, "2023-10-01", "1-hour"),
        session(2, "2023-10-02", "2-hours"),
        session(3, "2023-10-03", "3-hours"),
    ]
}

#[test]
fn test_parse_date_valid() {
    let date = parse_date("2023-10-01").unwrap();
    assert_eq!(date.to_text(), "2023-10-01");
}

#[test]
fn test_parse_date_invalid() {
    let result = parse_date("invalid-date");
    assert!(result.is_err());
}

#[test]
fn test_calculate_session_points() {
    assert_eq!(calculate_session_points("1-hour"), 10);
    assert_eq!(calculate_session_points("2-hours"), 12);
    assert_eq!(calculate_session_points("3-hours"), 14);
    assert_eq!(calculate_session_points("invalid"), 0);
}

#[test]
fn test_calculate_streak_and_points() {
    let sessions = sample_sessions();
    let (streak, total_points) = calculate_streak_and_points(&sessions).unwrap();
    assert_eq!(streak, 3);
    assert_eq!(total_points, 36);
}

#[test]
fn test_calculate_weekly_streak_bonus() {
    let sessions = sample_sessions();
    let weekly_streak_bonuses = calculate_weekly_streak_bonus(&sessions);
    assert_eq!(weekly_streak_bonuses.len(), 1);
    assert_eq!(weekly_streak_bonuses[0].streak_length, 3);
    assert_eq!(weekly_streak_bonuses[0].week_start, "2023-10-02");
}

#[test]
fn test_calculate_statistics() {
    let current_date = parse_date("2023-10-15").unwrap();
    let sessions = sample_sessions();
    let (weekly_trend, achievements, overall_streak, yearly_streak, monthly_streak) =
        calculate_statistics(&sessions, current_date).unwrap();
    assert_eq!(weekly_trend.len(), 2);
    assert_eq!(weekly_trend[0].points, 10);
    assert_eq!(weekly_trend[1].points, 26);
    assert!(achievements.is_empty());
    assert_eq!(overall_streak, 3);
    assert_eq!(yearly_streak, 3);
    assert_eq!(monthly_streak, 3);
}

#[test]
fn test_get_time_endpoint() {
    let sessions = vec![session(1, "2023-10-01", "1-hour"), session(2, "2023-10-02", "2-hours")];
    let (streak, total_points) = calculate_streak_and_points(&sessions).unwrap();
    assert_eq!(streak, 2);
    assert_eq!(total_points, 22);
}

#[test]
fn test_get_streak_bonuses_endpoint() {
    let resp = try_weekly_streak_bonus(&sample_sessions()).unwrap();
    assert_eq!(resp.len(), 1);
    assert_eq!(resp[0].streak_length, 3);
    assert_eq!(resp[0].week_start, "2023-10-02");
}
