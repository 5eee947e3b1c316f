use tippspiel::positions::calculate_positions;
use tippspiel::rating::UserRating;

fn rating(name: &str, score_sum: i32) -> UserRating {
    UserRating {
        name: name.to_string(),
        score_sum,
        user_id: 1,
        department: String::new(),
        position: 0,
        sum_win_exact: 0,
        sum_score_diff: 0,
        sum_team: 0,
        extra_point: 0,
        tips: Vec::new(),
    }
}

#[test]
fn test_calculate_positions() {
    let mut user_rating_list = vec![
        rating("jahnedoe", 2),
        rating("ninja", 5),
        rating("babo", 10),
        rating("abdul", 9),
        rating("rockstar", 5),
        rating("theBest", 8),
        rating("johndoe", 9),
    ];

    calculate_positions(&mut user_rating_list);

    assert_eq!(user_rating_list[0].position, 1);
    assert_eq!(user_rating_list[0].name, "babo");
    assert_eq!(user_rating_list[1].position, 2);
    assert_eq!(user_rating_list[1].name, "abdul");
    assert_eq!(user_rating_list[2].position, 2);
    assert_eq!(user_rating_list[2].name, "johndoe");
    assert_eq!(user_rating_list[3].position, 4);
    assert_eq!(user_rating_list[3].name, "theBest");
    assert_eq!(user_rating_list[4].position, 5);
    assert_eq!(user_rating_list[4].name, "ninja");
    assert_eq!(user_rating_list[5].position, 5);
    assert_eq!(user_rating_list[5].name, "rockstar");
    assert_eq!(user_rating_list[6].position, 7);
    assert_eq!(user_rating_list[6].name, "jahnedoe");
}

#[test]
fn test_calculate_positions_when_two_first_place() {
    let mut user_rating_list = vec![
        rating("jahnedoe", 8),
        rating("ninja", 10),
        rating("babo", 10),
        rating("abdul", 9),
        rating("rockstar", 5),
        rating("theBest", 5),
        rating("johndoe", 9),
    ];

    calculate_positions(&mut user_rating_list);

    assert_eq!(user_rating_list[0].position, 1);
    assert_eq!(user_rating_list[0].name, "ninja");
    assert_eq!(user_rating_list[1].position, 1);
    assert_eq!(user_rating_list[1].name, "babo");
    assert_eq!(user_rating_list[2].position, 3);
    assert_eq!(user_rating_list[2].name, "abdul");
    assert_eq!(user_rating_list[3].position, 3);
    assert_eq!(user_rating_list[3].name, "johndoe");
    assert_eq!(user_rating_list[4].position, 5);
    assert_eq!(user_rating_list[4].name, "jahnedoe");
    assert_eq!(user_rating_list[5].position, 6);
    assert_eq!(user_rating_list[5].name, "rockstar");
    assert_eq!(user_rating_list[6].position, 6);
    assert_eq!(user_rating_list[6].name, "theBest");
}

#[test]
fn positions_skip_after_ties() {
    let mut list = vec![
        rating("a", 10),
        rating("b", 9),
        rating("c", 9),
        rating("d", 8),
        rating("e", 5),
        rating("f", 5),
        rating("g", 2),
    ];
    calculate_positions(&mut list);
    let positions: Vec<i32> = list.iter().map(|r| r.position).collect();
    assert_eq!(positions, vec![1, 2, 2, 4, 5, 5, 7]);
}

#[test]
fn positions_three_way_tie_at_top() {
    let mut list = vec![rating("a", 10), rating("b", 10), rating("c", 10), rating("d", 9)];
    calculate_positions(&mut list);
    let positions: Vec<i32> = list.iter().map(|r| r.position).collect();
    assert_eq!(positions, vec![1, 1, 1, 4]);
}

#[test]
fn positions_of_empty_list() {
    let mut list: Vec<UserRating> = Vec::new();
    calculate_positions(&mut list);
    assert!(list.is_empty());
}

#[test]
fn positions_all_equal() {
    let mut list = vec![rating("a", 0), rating("b", 0), rating("c", 0)];
    calculate_positions(&mut list);
    let positions: Vec<i32> = list.iter().map(|r| r.position).collect();
    assert_eq!(positions, vec![1, 1, 1]);
    let names: Vec<&str> = list.iter().map(|r| r.name.as_str()).collect();
    assert_eq!(names, vec!["a", "b", "c"]);
}
