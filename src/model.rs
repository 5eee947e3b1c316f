//! Plain records that the engine consumes: users, fixtures and tips.

use vstd::prelude::*;

verus! {

/// A player of the prediction game.
pub struct User {
    pub id: i32,
    pub username: String,
    pub department: String,
    pub winner: String,
    pub secret_winner: String,
}

/// A user's predicted final score for one fixture.
pub struct Tip {
    pub id: i32,
    pub user_id: i32,
    pub match_id: i32,
    pub score_home: i32,
    pub score_away: i32,
}

/// A scheduled fixture; the two scores are present once a result is known.
pub struct Game {
    pub id: i32,
    pub home_team: String,
    pub away_team: String,
    pub status: String,
    pub home_score: Option<i32>,
    pub away_score: Option<i32>,
    /// Scheduled kick-off, in seconds since the Unix epoch.
    pub date: i64,
}

} // verus!
