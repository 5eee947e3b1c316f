//! The rating builder: one record per user and fixture, summed per user.

use vstd::prelude::*;
use crate::model::{Game, Tip, User};
use crate::positions::{
    calculate_positions, competition_ranked, lemma_same_entries_member, same_entries,
    sorted_by_score, unranked,
};
use crate::scoring::{
    prediction_points, score_prediction, NO_WIN_TEAM, WIN_EXACT, WIN_SCORE_DIFF, WIN_TEAM,
};

verus! {

/// The outcome of one user's prediction for one fixture.
pub struct MatchInfo {
    pub match_id: i32,
    pub user: String,
    pub user_id: i32,
    pub score: i32,
    pub team1: String,
    pub team2: String,
    pub tip_home: Option<i32>,
    pub tip_away: Option<i32>,
    pub score_home: Option<i32>,
    pub score_away: Option<i32>,
}

/// A user's standing: points, how they were won, and one record per fixture.
pub struct UserRating {
    pub name: String,
    pub user_id: i32,
    pub department: String,
    pub position: i32,
    pub score_sum: i32,
    pub sum_win_exact: i32,
    pub sum_score_diff: i32,
    pub sum_team: i32,
    /// Reserved for bonus points; no rule fills it.
    pub extra_point: i32,
    pub tips: Vec<MatchInfo>,
}

/// A standing as a value.
pub struct StandingView {
    pub name: Seq<char>,
    pub user_id: i32,
    pub department: Seq<char>,
    pub position: i32,
    pub score_sum: i32,
    pub sum_win_exact: i32,
    pub sum_score_diff: i32,
    pub sum_team: i32,
    pub extra_point: i32,
    pub tips: Seq<MatchInfo>,
}

impl View for UserRating {
    type V = StandingView;

    open spec fn view(&self) -> StandingView {
        StandingView {
            name: self.name@,
            user_id: self.user_id,
            department: self.department@,
            position: self.position,
            score_sum: self.score_sum,
            sum_win_exact: self.sum_win_exact,
            sum_score_diff: self.sum_score_diff,
            sum_team: self.sum_team,
            extra_point: self.extra_point,
            tips: self.tips@,
        }
    }
}

/// The tip of a user for a fixture: the last one given, if any.
pub open spec fn tip_for(tips: Seq<Tip>, user_id: i32, match_id: i32) -> Option<Tip>
    decreases tips.len(),
{
    if tips.len() == 0 {
        None
    } else if tips.last().user_id == user_id && tips.last().match_id == match_id {
        Some(tips.last())
    } else {
        tip_for(tips.drop_last(), user_id, match_id)
    }
}

/// The record of a user for a fixture, scored when a tip exists.
pub open spec fn match_info_for(user: User, game: Game, tips: Seq<Tip>) -> MatchInfo {
    let tip = tip_for(tips, user.id, game.id);
    let tip_home = match tip {
        Some(t) => Some(t.score_home),
        None => None,
    };
    let tip_away = match tip {
        Some(t) => Some(t.score_away),
        None => None,
    };
    MatchInfo {
        match_id: game.id,
        user: user.username,
        user_id: user.id,
        score: prediction_points(game.home_score, game.away_score, tip_home, tip_away) as i32,
        team1: game.home_team,
        team2: game.away_team,
        tip_home,
        tip_away,
        score_home: game.home_score,
        score_away: game.away_score,
    }
}

/// The records of a user, one per fixture, in fixture order.
pub open spec fn match_infos_for(user: User, games: Seq<Game>, tips: Seq<Tip>) -> Seq<MatchInfo> {
    games.map_values(|g: Game| match_info_for(user, g, tips))
}

/// The sum of the points of a sequence of records.
pub open spec fn points_sum(infos: Seq<MatchInfo>) -> int
    decreases infos.len(),
{
    if infos.len() == 0 {
        0
    } else {
        points_sum(infos.drop_last()) + infos.last().score
    }
}

/// How many records earned exactly `points`.
pub open spec fn tier_count(infos: Seq<MatchInfo>, points: int) -> int
    decreases infos.len(),
{
    if infos.len() == 0 {
        0
    } else {
        tier_count(infos.drop_last(), points) + if infos.last().score == points { 1int } else { 0 }
    }
}

/// `rating` is the standing of `user` over `games` and `tips`, whatever its position.
pub open spec fn is_rating_of(rating: StandingView, user: User, games: Seq<Game>, tips: Seq<Tip>) -> bool {
    &&& rating.name == user.username@
    &&& rating.user_id == user.id
    &&& rating.department == user.department@
    &&& rating.tips == match_infos_for(user, games, tips)
    &&& rating.score_sum == points_sum(rating.tips)
    &&& rating.sum_win_exact == tier_count(rating.tips, WIN_EXACT as int)
    &&& rating.sum_score_diff == tier_count(rating.tips, WIN_SCORE_DIFF as int)
    &&& rating.sum_team == tier_count(rating.tips, WIN_TEAM as int)
    &&& rating.extra_point == 0
}

/// Scores a record from its result and its prediction.
pub fn calculate_score(match_info: &mut MatchInfo)
    ensures
        *final(match_info) == (MatchInfo {
            score: prediction_points(
                old(match_info).score_home,
                old(match_info).score_away,
                old(match_info).tip_home,
                old(match_info).tip_away,
            ) as i32,
            ..*old(match_info)
        }),
{
    match_info.score = score_prediction(
        match_info.score_home,
        match_info.score_away,
        match_info.tip_home,
        match_info.tip_away,
    );
}

/// Finds the tip of a user for a fixture: the last one given, if any.
pub fn find_tip(tips: &Vec<Tip>, user_id: i32, match_id: i32) -> (r: Option<&Tip>)
    ensures
        match r {
            Some(t) => tip_for(tips@, user_id, match_id) == Some(*t),
            None => tip_for(tips@, user_id, match_id) is None,
        },
{
    let mut i: usize = tips.len();
    assert(tips@.take(i as int) =~= tips@);
    while i > 0
        invariant
            i <= tips@.len(),
            tip_for(tips@, user_id, match_id) == tip_for(tips@.take(i as int), user_id, match_id),
        decreases i,
    {
        let t = &tips[i - 1];
        assert(tips@.take(i as int).drop_last() =~= tips@.take(i - 1));
        if t.user_id == user_id && t.match_id == match_id {
            return Some(t);
        }
        i = i - 1;
    }
    None
}

/// Builds the standing of one user, one record per fixture in fixture order.
pub fn rate_user(games: &Vec<Game>, user: &User, tips: &Vec<Tip>) -> (r: UserRating)
    requires
        games@.len() * 4 <= i32::MAX,
    ensures
        is_rating_of(r@, *user, games@, tips@),
        r.position == 0,
{
    let mut rating = UserRating {
        name: user.username.clone(),
        user_id: user.id,
        department: user.department.clone(),
        position: 0,
        score_sum: NO_WIN_TEAM,
        sum_win_exact: 0,
        sum_score_diff: 0,
        sum_team: 0,
        extra_point: 0,
        tips: Vec::new(),
    };
    let mut j: usize = 0;
    while j < games.len()
        invariant
            j <= games@.len(),
            games@.len() * 4 <= i32::MAX,
            rating.name@ == user.username@,
            rating.user_id == user.id,
            rating.department@ == user.department@,
            rating.position == 0,
            rating.extra_point == 0,
            rating.tips@ == match_infos_for(*user, games@.take(j as int), tips@),
            rating.score_sum == points_sum(rating.tips@),
            rating.sum_win_exact == tier_count(rating.tips@, WIN_EXACT as int),
            rating.sum_score_diff == tier_count(rating.tips@, WIN_SCORE_DIFF as int),
            rating.sum_team == tier_count(rating.tips@, WIN_TEAM as int),
            0 <= rating.score_sum <= 4 * j,
            0 <= rating.sum_win_exact <= j,
            0 <= rating.sum_score_diff <= j,
            0 <= rating.sum_team <= j,
        decreases games@.len() - j,
    {
        let game = &games[j];
        let mut match_info = MatchInfo {
            match_id: game.id,
            user: user.username.clone(),
            user_id: user.id,
            score: NO_WIN_TEAM,
            team1: game.home_team.clone(),
            team2: game.away_team.clone(),
            tip_home: None,
            tip_away: None,
            score_home: game.home_score,
            score_away: game.away_score,
        };
        match find_tip(tips, user.id, game.id) {
            Some(tip) => {
                match_info.tip_home = Some(tip.score_home);
                match_info.tip_away = Some(tip.score_away);
                calculate_score(&mut match_info);
                rating.score_sum = rating.score_sum + match_info.score;
                if match_info.score == WIN_EXACT {
                    rating.sum_win_exact = rating.sum_win_exact + 1;
                } else if match_info.score == WIN_SCORE_DIFF {
                    rating.sum_score_diff = rating.sum_score_diff + 1;
                } else if match_info.score == WIN_TEAM {
                    rating.sum_team = rating.sum_team + 1;
                }
            },
            None => {},
        }
        assert(match_info == match_info_for(*user, games@[j as int], tips@));
        let ghost before = rating.tips@;
        rating.tips.push(match_info);
        assert(rating.tips@.drop_last() =~= before);
        assert(games@.take(j + 1).map_values(|g: Game| match_info_for(*user, g, tips@))
            =~= games@.take(j as int).map_values(|g: Game| match_info_for(*user, g, tips@)).push(
            match_info_for(*user, games@[j as int], tips@),
        ));
        j = j + 1;
    }
    assert(games@.take(j as int) =~= games@);
    rating
}

/// `built` holds, user by user in input order, each user's unranked standing.
pub open spec fn is_rating_build(
    built: Seq<UserRating>,
    users: Seq<User>,
    games: Seq<Game>,
    tips: Seq<Tip>,
) -> bool {
    &&& built.len() == users.len()
    &&& forall|i: int|
        0 <= i < built.len() ==> #[trigger] is_rating_of(built[i]@, users[i], games, tips)
            && built[i].position == 0
}

/// `rating` is the standing of one of `users`.
pub open spec fn rates_some_user(rating: StandingView, users: Seq<User>, games: Seq<Game>, tips: Seq<Tip>) -> bool {
    exists|j: int| 0 <= j < users.len() && #[trigger] is_rating_of(rating, users[j], games, tips)
}

/// Builds the standing of every user over the fixtures, then ranks them.
pub fn get_user_rating(games: &Vec<Game>, users: &Vec<User>, tips: &Vec<Tip>) -> (r: Vec<UserRating>)
    requires
        games@.len() * 4 <= i32::MAX,
        users@.len() <= i32::MAX,
    ensures
        exists|built: Seq<UserRating>|
            is_rating_build(built, users@, games@, tips@) && #[trigger] same_entries(built, r@),
        r@.len() == users@.len(),
        sorted_by_score(r@),
        competition_ranked(r@),
        forall|i: int| 0 <= i < r@.len() ==> rates_some_user((#[trigger] r@[i])@, users@, games@, tips@),
        forall|i: int| 0 <= i < r@.len() ==> (#[trigger] r@[i]).score_sum == points_sum(r@[i].tips@),
{
    let mut user_rating_list: Vec<UserRating> = Vec::new();
    let mut i: usize = 0;
    while i < users.len()
        invariant
            i <= users@.len(),
            games@.len() * 4 <= i32::MAX,
            is_rating_build(user_rating_list@, users@.take(i as int), games@, tips@),
        decreases users@.len() - i,
    {
        let rating = rate_user(games, &users[i], tips);
        user_rating_list.push(rating);
        i = i + 1;
    }
    assert(users@.take(i as int) =~= users@);
    let ghost built = user_rating_list@;
    calculate_positions(&mut user_rating_list);
    proof {
        let r = user_rating_list@;
        assert forall|i: int| 0 <= i < r.len() implies rates_some_user((#[trigger] r[i])@, users@, games@, tips@) by {
            lemma_same_entries_member(built, r, i);
            let k = choose|k: int| 0 <= k < built.len() && unranked(#[trigger] built[k]) == unranked(r[i]);
            assert(is_rating_of(built[k]@, users@[k], games@, tips@));
            assert(is_rating_of(r[i]@, users@[k], games@, tips@));
        }
        assert forall|i: int| 0 <= i < r.len() implies (#[trigger] r[i]).score_sum == points_sum(r[i].tips@) by {
            assert(rates_some_user(r[i]@, users@, games@, tips@));
        }
    }
    user_rating_list
}

} // verus!
