//! The scorer: the point value of one prediction against one result.

use vstd::prelude::*;

verus! {

/// Points when no rule applies, or when a value is absent.
pub const NO_WIN_TEAM: i32 = 0;
/// Points for an exactly predicted result.
pub const WIN_EXACT: i32 = 4;
/// Points for a correctly predicted, non-zero goal difference.
pub const WIN_SCORE_DIFF: i32 = 2;
/// Points for a correctly predicted winner, or a correctly predicted draw.
pub const WIN_TEAM: i32 = 1;

/// The rule on four present values: three checks in a fixed order, each of
/// which overwrites the outcome of the previous ones when it holds.
pub open spec fn outcome_points(score_home: int, score_away: int, tip_home: int, tip_away: int) -> int {
    let team_win = (score_home > score_away && tip_home > tip_away)
        || (score_home < score_away && tip_home < tip_away);
    let after_team = if team_win { WIN_TEAM as int } else { NO_WIN_TEAM as int };
    let after_diff = if score_home - score_away == tip_home - tip_away {
        if score_home == score_away { WIN_TEAM as int } else { WIN_SCORE_DIFF as int }
    } else {
        after_team
    };
    if score_home == tip_home && score_away == tip_away { WIN_EXACT as int } else { after_diff }
}

/// The point value of a prediction; zero when any of the four values is absent.
pub open spec fn prediction_points(
    score_home: Option<i32>,
    score_away: Option<i32>,
    tip_home: Option<i32>,
    tip_away: Option<i32>,
) -> int {
    match (score_home, score_away, tip_home, tip_away) {
        (Some(sh), Some(sa), Some(th), Some(ta)) => outcome_points(sh as int, sa as int, th as int, ta as int),
        _ => NO_WIN_TEAM as int,
    }
}

/// Computes the point value of a prediction against an actual result.
pub fn score_prediction(
    score_home: Option<i32>,
    score_away: Option<i32>,
    tip_home: Option<i32>,
    tip_away: Option<i32>,
) -> (r: i32)
    ensures
        r == prediction_points(score_home, score_away, tip_home, tip_away),
{
    match (score_home, score_away, tip_home, tip_away) {
        (Some(sh), Some(sa), Some(th), Some(ta)) => {
            let mut points = NO_WIN_TEAM;
            if (sh > sa && th > ta) || (sh < sa && th < ta) {
                points = WIN_TEAM;
            }
            if (sh as i64) - (sa as i64) == (th as i64) - (ta as i64) {
                if sh == sa {
                    points = WIN_TEAM;
                } else {
                    points = WIN_SCORE_DIFF;
                }
            }
            if sh == th && sa == ta {
                points = WIN_EXACT;
            }
            points
        },
        _ => NO_WIN_TEAM,
    }
}

/// An exactly predicted result scores four points, draw or not.
pub proof fn lemma_exact_prediction(score_home: i32, score_away: i32)
    ensures
        prediction_points(Some(score_home), Some(score_away), Some(score_home), Some(score_away))
            == WIN_EXACT as int,
{
}

/// A correctly predicted goal difference that is not the exact result scores
/// two points when the actual result is not a draw.
pub proof fn lemma_goal_difference(score_home: i32, score_away: i32, tip_home: i32, tip_away: i32)
    requires
        score_home - score_away == tip_home - tip_away,
        score_home != tip_home || score_away != tip_away,
        score_home != score_away,
    ensures
        prediction_points(Some(score_home), Some(score_away), Some(tip_home), Some(tip_away))
            == WIN_SCORE_DIFF as int,
{
}

/// A predicted draw against an actual draw scores one point unless it is exact.
pub proof fn lemma_draw_prediction(score_home: i32, score_away: i32, tip_home: i32, tip_away: i32)
    requires
        score_home == score_away,
        tip_home == tip_away,
        score_home != tip_home,
    ensures
        prediction_points(Some(score_home), Some(score_away), Some(tip_home), Some(tip_away))
            == WIN_TEAM as int,
{
}

/// The right winner with another goal difference and another result scores one point.
pub proof fn lemma_winner_prediction(score_home: i32, score_away: i32, tip_home: i32, tip_away: i32)
    requires
        (score_home > score_away && tip_home > tip_away) || (score_home < score_away && tip_home < tip_away),
        score_home - score_away != tip_home - tip_away,
        score_home != tip_home || score_away != tip_away,
    ensures
        prediction_points(Some(score_home), Some(score_away), Some(tip_home), Some(tip_away))
            == WIN_TEAM as int,
{
}

/// A prediction with any absent value scores nothing.
pub proof fn lemma_absent_value(
    score_home: Option<i32>,
    score_away: Option<i32>,
    tip_home: Option<i32>,
    tip_away: Option<i32>,
)
    requires
        score_home is None || score_away is None || tip_home is None || tip_away is None,
    ensures
        prediction_points(score_home, score_away, tip_home, tip_away) == NO_WIN_TEAM as int,
{
}

} // verus!
