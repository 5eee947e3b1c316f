use tippspiel::rating::{calculate_score, MatchInfo};
use tippspiel::scoring::{score_prediction, NO_WIN_TEAM, WIN_EXACT, WIN_SCORE_DIFF, WIN_TEAM};

fn scored(score_home: Option<i32>, score_away: Option<i32>, tip_home: Option<i32>, tip_away: Option<i32>) -> i32 {
    let mut match_info = MatchInfo {
        match_id: 1,
        user: "user".to_string(),
        user_id: 1,
        score: 0,
        team1: "team1".to_string(),
        team2: "team2".to_string(),
        tip_home,
        tip_away,
        score_home,
        score_away,
    };
    calculate_score(&mut match_info);
    match_info.score
}

fn cases(list: &[(i32, i32, i32, i32, i32)]) {
    for &(sh, sa, th, ta, expected) in list {
        assert_eq!(scored(Some(sh), Some(sa), Some(th), Some(ta)), expected, "{} {} {} {}", sh, sa, th, ta);
        assert_eq!(score_prediction(Some(sh), Some(sa), Some(th), Some(ta)), expected);
    }
}

#[test]
fn calculate_score_exact() {
    cases(&[
        (1, 2, 1, 2, WIN_EXACT),
        (2, 1, 2, 1, WIN_EXACT),
        (2, 0, 2, 0, WIN_EXACT),
        (0, 2, 0, 2, WIN_EXACT),
        (2, 2, 2, 2, WIN_EXACT),
    ]);
}

#[test]
fn calculate_score_no_win() {
    cases(&[
        (2, 1, 0, 1, NO_WIN_TEAM),
        (1, 3, 3, 2, NO_WIN_TEAM),
        (0, 0, 2, 0, NO_WIN_TEAM),
        (0, 1, 0, 0, NO_WIN_TEAM),
    ]);
}

#[test]
fn calculate_score_goal_difference() {
    cases(&[
        (1, 3, 2, 4, WIN_SCORE_DIFF),
        (4, 2, 3, 1, WIN_SCORE_DIFF),
        (1, 0, 2, 1, WIN_SCORE_DIFF),
        (1, 2, 0, 1, WIN_SCORE_DIFF),
    ]);
}

#[test]
fn calculate_score_team_win() {
    cases(&[
        (3, 3, 0, 0, WIN_TEAM),
        (3, 3, 4, 4, WIN_TEAM),
        (1, 3, 1, 2, WIN_TEAM),
        (2, 1, 3, 1, WIN_TEAM),
        (1, 0, 2, 0, WIN_TEAM),
        (0, 5, 0, 2, WIN_TEAM),
        (2, 3, 2, 5, WIN_TEAM),
    ]);
}

#[test]
fn calculate_score_with_none() {
    assert_eq!(scored(Some(0), Some(1), None, None), NO_WIN_TEAM);
    assert_eq!(scored(Some(0), Some(0), None, None), NO_WIN_TEAM);
    assert_eq!(scored(Some(1), Some(0), None, None), NO_WIN_TEAM);
    assert_eq!(scored(None, None, Some(1), Some(0)), NO_WIN_TEAM);
    assert_eq!(scored(None, None, Some(0), Some(0)), NO_WIN_TEAM);
    assert_eq!(scored(None, None, Some(0), Some(1)), NO_WIN_TEAM);
    assert_eq!(scored(Some(1), None, Some(1), Some(0)), NO_WIN_TEAM);
}

#[test]
fn draw_against_other_draw_scores_one() {
    assert_eq!(score_prediction(Some(1), Some(1), Some(3), Some(3)), 1);
}

#[test]
fn same_winner_other_difference_scores_one() {
    assert_eq!(score_prediction(Some(3), Some(1), Some(2), Some(1)), 1);
}

#[test]
fn extreme_values_do_not_overflow() {
    assert_eq!(score_prediction(Some(i32::MAX), Some(i32::MIN), Some(i32::MIN), Some(i32::MAX)), 0);
    assert_eq!(score_prediction(Some(i32::MAX), Some(0), Some(i32::MAX), Some(0)), 4);
}

#[test]
fn overwrites_earlier_score() {
    let mut info = MatchInfo {
        match_id: 1,
        user: "u".to_string(),
        user_id: 1,
        score: 3,
        team1: String::new(),
        team2: String::new(),
        tip_home: None,
        tip_away: None,
        score_home: Some(1),
        score_away: Some(0),
    };
    calculate_score(&mut info);
    assert_eq!(info.score, 0);
}
