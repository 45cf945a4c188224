//! Session analytics: consecutive-day streaks, point totals, period trends
//! and weekly streak bonuses over date-stamped focus sessions.

pub mod bonus;
pub mod date;
pub mod decimal;
pub mod error;
pub mod laws;
pub mod points;
pub mod seq_facts;
pub mod session;
pub mod stats;
pub mod streak;
pub mod trend;
