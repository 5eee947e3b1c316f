//! Scoring, ranking and daily-winner aggregation for a score-prediction game.

pub mod model;
pub mod scoring;
pub mod rating;
pub mod positions;
pub mod daily_winner;
pub mod standings;
pub mod ranking;
