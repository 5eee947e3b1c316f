use tippspiel::daily_winner::{
    daily_winners_by_date, DailyWinnerError, DailyWinnerService, Match, Team,
};
use tippspiel::model::{Game, Tip, User};
use tippspiel::rating::{get_user_rating, MatchInfo, UserRating};

fn team(name: &str) -> Team {
    Team { id: None, name: Some(name.to_string()), short_name: None, tla: None, flag: None }
}

fn fixture(id: i32, utc_date: i64, status: &str) -> Match {
    Match {
        id,
        utc_date,
        home_team: team("home"),
        away_team: team("away"),
        status: status.to_string(),
        home_score: None,
        away_score: None,
    }
}

fn info(match_id: i32, score: i32) -> MatchInfo {
    MatchInfo {
        match_id,
        user: String::new(),
        user_id: 0,
        score,
        team1: String::new(),
        team2: String::new(),
        tip_home: None,
        tip_away: None,
        score_home: None,
        score_away: None,
    }
}

fn standing(name: &str, tips: Vec<MatchInfo>) -> UserRating {
    UserRating {
        name: name.to_string(),
        user_id: 0,
        department: String::new(),
        position: 0,
        score_sum: 0,
        sum_win_exact: 0,
        sum_score_diff: 0,
        sum_team: 0,
        extra_point: 0,
        tips,
    }
}

fn user(id: i32, name: &str) -> User {
    User {
        id,
        username: name.to_string(),
        department: "d".to_string(),
        winner: String::new(),
        secret_winner: String::new(),
    }
}

fn game(id: i32, home: i32, away: i32, date: i64) -> Game {
    Game {
        id,
        home_team: String::new(),
        away_team: String::new(),
        status: "FINISHED".to_string(),
        home_score: Some(home),
        away_score: Some(away),
        date,
    }
}

#[test]
fn tie_on_one_day_names_both_users() {
    let games = vec![game(1, 2, 0, 1718377200), game(2, 3, 1, 1718398800)];
    let users = vec![user(1, "X"), user(2, "Y")];
    let tips = vec![
        Tip { id: 1, user_id: 1, match_id: 1, score_home: 2, score_away: 0 },
        Tip { id: 2, user_id: 1, match_id: 2, score_home: 0, score_away: 1 },
        Tip { id: 3, user_id: 2, match_id: 1, score_home: 3, score_away: 1 },
        Tip { id: 4, user_id: 2, match_id: 2, score_home: 4, score_away: 2 },
    ];
    let ratings = get_user_rating(&games, &users, &tips);
    let matches = vec![fixture(1, 1718377200, "FINISHED"), fixture(2, 1718398800, "FINISHED")];
    let winners = match DailyWinnerService::get_daily_winners(&matches, &ratings) {
        Ok(w) => w,
        Err(_) => panic!("dates are in range"),
    };
    assert_eq!(winners.daily_winners.len(), 1);
    let day = &winners.daily_winners[0];
    assert_eq!(day.date, "2024-06-14");
    assert_eq!(day.points, 4);
    let mut names = day.user.clone();
    names.sort();
    assert_eq!(names, vec!["X".to_string(), "Y".to_string()]);
}

#[test]
fn days_follow_first_fixture_order_and_skip_unfinished() {
    let matches = vec![
        fixture(3, 1718474400, "FINISHED"),
        fixture(1, 1718377200, "FINISHED"),
        fixture(2, 1718398800, "SCHEDULED"),
    ];
    let ratings = vec![
        standing("X", vec![info(1, 1), info(2, 4), info(3, 0)]),
        standing("Y", vec![info(1, 2), info(2, 4), info(3, 2)]),
    ];
    let winners = match DailyWinnerService::get_daily_winners(&matches, &ratings) {
        Ok(w) => w,
        Err(_) => panic!("dates are in range"),
    };
    assert_eq!(winners.daily_winners.len(), 2);
    assert_eq!(winners.daily_winners[0].date, "2024-06-15");
    assert_eq!(winners.daily_winners[0].user, vec!["Y".to_string()]);
    assert_eq!(winners.daily_winners[0].points, 2);
    assert_eq!(winners.daily_winners[1].date, "2024-06-14");
    assert_eq!(winners.daily_winners[1].user, vec!["Y".to_string()]);
    assert_eq!(winners.daily_winners[1].points, 2);
}

#[test]
fn zero_points_still_win_the_day() {
    let matches = vec![fixture(1, 1718377200, "FINISHED")];
    let ratings = vec![standing("X", vec![info(1, 0)]), standing("Y", vec![info(1, 0)])];
    let winners = match DailyWinnerService::get_daily_winners(&matches, &ratings) {
        Ok(w) => w,
        Err(_) => panic!("dates are in range"),
    };
    assert_eq!(winners.daily_winners.len(), 1);
    assert_eq!(winners.daily_winners[0].points, 0);
    assert_eq!(winners.daily_winners[0].user, vec!["X".to_string(), "Y".to_string()]);
}

#[test]
fn day_without_records_has_no_winner() {
    let matches = vec![fixture(7, 1718377200, "FINISHED")];
    let ratings = vec![standing("X", vec![info(1, 4)])];
    let winners = match DailyWinnerService::get_daily_winners(&matches, &ratings) {
        Ok(w) => w,
        Err(_) => panic!("dates are in range"),
    };
    assert!(winners.daily_winners.is_empty());
}

#[test]
fn same_name_is_summed_once() {
    let matches = vec![fixture(1, 1718377200, "FINISHED")];
    let ratings = vec![
        standing("X", vec![info(1, 2)]),
        standing("X", vec![info(1, 2)]),
        standing("Z", vec![info(1, 3)]),
    ];
    let winners = daily_winners_by_date(&matches, &vec!["2024-06-14".to_string()], &ratings);
    assert_eq!(winners.daily_winners.len(), 1);
    assert_eq!(winners.daily_winners[0].user, vec!["X".to_string()]);
    assert_eq!(winners.daily_winners[0].points, 4);
}

#[test]
fn out_of_range_kick_off_is_an_error() {
    let matches = vec![fixture(9, i64::MAX, "FINISHED")];
    let ratings = vec![standing("X", vec![info(9, 4)])];
    match DailyWinnerService::get_daily_winners(&matches, &ratings) {
        Err(DailyWinnerError::DateOutOfRange(id)) => assert_eq!(id, 9),
        Ok(_) => panic!("expected an error"),
    }
}

#[test]
fn unfinished_out_of_range_kick_off_is_ignored() {
    let matches = vec![fixture(9, i64::MAX, "TIMED")];
    let ratings = vec![standing("X", vec![info(9, 4)])];
    match DailyWinnerService::get_daily_winners(&matches, &ratings) {
        Ok(w) => assert!(w.daily_winners.is_empty()),
        Err(_) => panic!("unfinished fixtures are not dated"),
    }
}

#[test]
fn date_text_comes_from_the_timestamp() {
    let matches = vec![fixture(1, 0, "FINISHED"), fixture(2, -1, "FINISHED")];
    let ratings = vec![standing("X", vec![info(1, 1), info(2, 1)])];
    let winners = match DailyWinnerService::get_daily_winners(&matches, &ratings) {
        Ok(w) => w,
        Err(_) => panic!("dates are in range"),
    };
    assert_eq!(winners.daily_winners.len(), 2);
    assert_eq!(winners.daily_winners[0].date, "1970-01-01");
    assert_eq!(winners.daily_winners[1].date, "1969-12-31");
}
