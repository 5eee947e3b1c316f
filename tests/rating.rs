use tippspiel::model::{Game, Tip, User};
use tippspiel::rating::{find_tip, get_user_rating, rate_user};

fn user(id: i32, name: &str, department: &str) -> User {
    User {
        id,
        username: name.to_string(),
        department: department.to_string(),
        winner: String::new(),
        secret_winner: String::new(),
    }
}

fn game(id: i32, home: Option<i32>, away: Option<i32>) -> Game {
    Game {
        id,
        home_team: format!("home{}", id),
        away_team: format!("away{}", id),
        status: "FINISHED".to_string(),
        home_score: home,
        away_score: away,
        date: 1718377200,
    }
}

fn tip(id: i32, user_id: i32, match_id: i32, score_home: i32, score_away: i32) -> Tip {
    Tip { id, user_id, match_id, score_home, score_away }
}

#[test]
fn two_users_two_fixtures_end_to_end() {
    let users = vec![user(1, "A", "Langenfeld"), user(2, "B", "London")];
    let games = vec![game(1, Some(2), Some(0)), game(2, Some(1), Some(1))];
    let tips = vec![tip(1, 1, 1, 2, 0), tip(2, 1, 2, 1, 0), tip(3, 2, 1, 3, 1), tip(4, 2, 2, 1, 1)];

    let ratings = get_user_rating(&games, &users, &tips);
    assert_eq!(ratings.len(), 2);

    assert_eq!(ratings[0].name, "B");
    assert_eq!(ratings[0].position, 1);
    assert_eq!(ratings[0].score_sum, 6);
    assert_eq!(ratings[0].tips[0].score, 2);
    assert_eq!(ratings[0].tips[1].score, 4);
    assert_eq!(ratings[0].sum_win_exact, 1);
    assert_eq!(ratings[0].sum_score_diff, 1);
    assert_eq!(ratings[0].sum_team, 0);
    assert_eq!(ratings[0].department, "London");

    assert_eq!(ratings[1].name, "A");
    assert_eq!(ratings[1].position, 2);
    assert_eq!(ratings[1].score_sum, 4);
    assert_eq!(ratings[1].tips[0].score, 4);
    assert_eq!(ratings[1].tips[1].score, 0);
    assert_eq!(ratings[1].sum_win_exact, 1);
    assert_eq!(ratings[1].sum_score_diff, 0);
    assert_eq!(ratings[1].sum_team, 0);
    assert_eq!(ratings[1].extra_point, 0);
}

#[test]
fn score_sum_equals_sum_of_records() {
    let users = vec![user(1, "A", "x"), user(2, "B", "x"), user(3, "C", "y")];
    let games = vec![game(1, Some(2), Some(0)), game(2, Some(1), Some(1)), game(3, Some(0), Some(3))];
    let tips = vec![
        tip(1, 1, 1, 1, 0),
        tip(2, 1, 3, 0, 3),
        tip(3, 2, 2, 2, 2),
        tip(4, 2, 3, 1, 4),
        tip(5, 3, 1, 0, 0),
    ];
    for rating in get_user_rating(&games, &users, &tips) {
        let sum: i32 = rating.tips.iter().map(|t| t.score).sum();
        assert_eq!(sum, rating.score_sum);
        assert_eq!(rating.tips.len(), 3);
    }
}

#[test]
fn fixture_without_result_scores_nothing() {
    let games = vec![game(1, None, None)];
    let tips = vec![tip(1, 1, 1, 2, 0)];
    let rating = rate_user(&games, &user(1, "A", "x"), &tips);
    assert_eq!(rating.score_sum, 0);
    assert_eq!(rating.tips.len(), 1);
    assert_eq!(rating.tips[0].tip_home, Some(2));
    assert_eq!(rating.tips[0].score_home, None);
    assert_eq!(rating.sum_team + rating.sum_score_diff + rating.sum_win_exact, 0);
}

#[test]
fn user_without_tips_has_empty_predictions() {
    let games = vec![game(1, Some(1), Some(0)), game(2, Some(0), Some(0))];
    let rating = rate_user(&games, &user(5, "E", "x"), &Vec::new());
    assert_eq!(rating.score_sum, 0);
    assert_eq!(rating.tips.len(), 2);
    assert_eq!(rating.tips[1].match_id, 2);
    assert_eq!(rating.tips[1].tip_home, None);
    assert_eq!(rating.tips[0].team1, "home1");
    assert_eq!(rating.tips[0].team2, "away1");
    assert_eq!(rating.tips[0].user, "E");
}

#[test]
fn last_tip_for_a_fixture_counts() {
    let tips = vec![tip(1, 1, 1, 2, 0), tip(2, 2, 1, 0, 0), tip(3, 1, 1, 5, 5)];
    assert_eq!(find_tip(&tips, 1, 1).map(|t| t.id), Some(3));
    assert_eq!(find_tip(&tips, 2, 1).map(|t| t.id), Some(2));
    assert!(find_tip(&tips, 2, 2).is_none());
}

#[test]
fn no_users_no_ratings() {
    let games = vec![game(1, Some(1), Some(0))];
    assert!(get_user_rating(&games, &Vec::new(), &Vec::new()).is_empty());
}
