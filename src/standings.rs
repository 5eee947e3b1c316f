//! Standings as they are served: by department, for one user, for one fixture.

use vstd::prelude::*;
use crate::positions::{calculate_positions, competition_ranked, same_entries, sorted_by_score, unranked_all};
use crate::daily_winner::{contains_text, texts_view};
use crate::rating::{MatchInfo, UserRating};

verus! {

/// The global table and one table per department.
pub struct RatingResponse {
    pub global: Vec<UserRating>,
    /// Each department with its own table, in order of first appearance.
    pub departments: Vec<(String, Vec<UserRating>)>,
}

/// The tables, with the day's winner when one is known.
pub struct Response {
    pub table: RatingResponse,
    pub daily_winner: Option<String>,
}

/// The standing of one user.
pub struct UserResponse {
    pub data: UserRating,
}

/// The departments of the standings, each once, in order of first appearance.
pub open spec fn department_order(list: Seq<UserRating>) -> Seq<Seq<char>>
    decreases list.len(),
{
    if list.len() == 0 {
        seq![]
    } else {
        let prev = department_order(list.drop_last());
        if prev.contains(list.last().department@) {
            prev
        } else {
            prev.push(list.last().department@)
        }
    }
}

/// The standings of one department, in list order.
pub open spec fn in_department(list: Seq<UserRating>, department: Seq<char>) -> Seq<UserRating>
    decreases list.len(),
{
    if list.len() == 0 {
        seq![]
    } else {
        let prev = in_department(list.drop_last(), department);
        if list.last().department@ == department {
            prev.push(list.last())
        } else {
            prev
        }
    }
}

/// `table` holds the standings of `entries`, sorted and ranked.
pub open spec fn is_ranked_table(entries: Seq<UserRating>, table: Seq<UserRating>) -> bool {
    &&& same_entries(entries, table)
    &&& sorted_by_score(table)
    &&& competition_ranked(table)
}

/// The records of one fixture across all standings, standing by standing.
pub open spec fn game_records(list: Seq<UserRating>, match_id: i32) -> Seq<MatchInfo>
    decreases list.len(),
{
    if list.len() == 0 {
        seq![]
    } else {
        game_records(list.drop_last(), match_id) + list.last().tips@.filter(
            |m: MatchInfo| m.match_id == match_id,
        )
    }
}

/// Copies a record.
pub fn clone_match_info(info: &MatchInfo) -> (r: MatchInfo)
    ensures
        r == *info,
{
    MatchInfo {
        match_id: info.match_id,
        user: info.user.clone(),
        user_id: info.user_id,
        score: info.score,
        team1: info.team1.clone(),
        team2: info.team2.clone(),
        tip_home: info.tip_home,
        tip_away: info.tip_away,
        score_home: info.score_home,
        score_away: info.score_away,
    }
}

/// Copies a standing.
pub fn clone_rating(rating: &UserRating) -> (r: UserRating)
    ensures
        r@ == rating@,
{
    let mut tips: Vec<MatchInfo> = Vec::new();
    let mut i: usize = 0;
    while i < rating.tips.len()
        invariant
            i <= rating.tips@.len(),
            tips@ == rating.tips@.take(i as int),
        decreases rating.tips@.len() - i,
    {
        tips.push(clone_match_info(&rating.tips[i]));
        assert(tips@ =~= rating.tips@.take(i + 1));
        i = i + 1;
    }
    assert(rating.tips@.take(i as int) =~= rating.tips@);
    UserRating {
        name: rating.name.clone(),
        user_id: rating.user_id,
        department: rating.department.clone(),
        position: rating.position,
        score_sum: rating.score_sum,
        sum_win_exact: rating.sum_win_exact,
        sum_score_diff: rating.sum_score_diff,
        sum_team: rating.sum_team,
        extra_point: rating.extra_point,
        tips,
    }
}

/// The departments of the standings, each once, in order of first appearance.
pub fn department_names(list: &Vec<UserRating>) -> (r: Vec<String>)
    ensures
        texts_view(r@) == department_order(list@),
{
    let mut names: Vec<String> = Vec::new();
    let mut i: usize = 0;
    while i < list.len()
        invariant
            i <= list@.len(),
            texts_view(names@) == department_order(list@.take(i as int)),
        decreases list@.len() - i,
    {
        assert(list@.take(i + 1).drop_last() =~= list@.take(i as int));
        if !contains_text(&names, &list[i].department) {
            let ghost before = texts_view(names@);
            names.push(list[i].department.clone());
            assert(texts_view(names@) =~= before.push(list@[i as int].department@));
        }
        i = i + 1;
    }
    assert(list@.take(i as int) =~= list@);
    names
}

/// Copies of the standings of one department, in list order.
pub fn department_members(list: &Vec<UserRating>, department: &String) -> (r: Vec<UserRating>)
    ensures
        r@.len() == in_department(list@, department@).len(),
        forall|k: int| 0 <= k < r@.len() ==> (#[trigger] r@[k])@ == in_department(list@, department@)[k]@,
{
    let mut members: Vec<UserRating> = Vec::new();
    let mut i: usize = 0;
    while i < list.len()
        invariant
            i <= list@.len(),
            members@.len() == in_department(list@.take(i as int), department@).len(),
            forall|k: int|
                0 <= k < members@.len() ==> (#[trigger] members@[k])@ == in_department(
                    list@.take(i as int),
                    department@,
                )[k]@,
        decreases list@.len() - i,
    {
        assert(list@.take(i + 1).drop_last() =~= list@.take(i as int));
        if list[i].department == *department {
            members.push(clone_rating(&list[i]));
        }
        i = i + 1;
    }
    assert(list@.take(i as int) =~= list@);
    members
}

/// Ranks the whole list, and each department on its own.
pub fn build_rating_response(user_rating_list: Vec<UserRating>) -> (r: RatingResponse)
    requires
        user_rating_list@.len() <= i32::MAX,
    ensures
        is_ranked_table(user_rating_list@, r.global@),
        r.departments@.len() == department_order(user_rating_list@).len(),
        forall|k: int|
            0 <= k < r.departments@.len() ==> (#[trigger] r.departments@[k]).0@ == department_order(
                user_rating_list@,
            )[k] && is_ranked_table(
                in_department(user_rating_list@, department_order(user_rating_list@)[k]),
                r.departments@[k].1@,
            ),
{
    let ghost list = user_rating_list@;
    let order = department_names(&user_rating_list);
    let ghost order_view = texts_view(order@);
    let mut departments: Vec<(String, Vec<UserRating>)> = Vec::new();
    let mut k: usize = 0;
    while k < order.len()
        invariant
            k <= order@.len(),
            list == user_rating_list@,
            list.len() <= i32::MAX,
            order_view == texts_view(order@),
            order_view == department_order(list),
            departments@.len() == k,
            forall|q: int|
                0 <= q < k ==> (#[trigger] departments@[q]).0@ == order_view[q] && is_ranked_table(
                    in_department(list, order_view[q]),
                    departments@[q].1@,
                ),
        decreases order@.len() - k,
    {
        let mut members = department_members(&user_rating_list, &order[k]);
        let ghost members_before = members@;
        proof {
            lemma_in_department_len(list, order@[k as int]@);
            assert(unranked_all(members_before) =~= unranked_all(in_department(list, order_view[k as int])));
        }
        calculate_positions(&mut members);
        departments.push((order[k].clone(), members));
        k = k + 1;
    }
    let mut global = user_rating_list;
    calculate_positions(&mut global);
    RatingResponse { global, departments }
}

proof fn lemma_in_department_len(list: Seq<UserRating>, department: Seq<char>)
    ensures
        in_department(list, department).len() <= list.len(),
    decreases list.len(),
{
    if list.len() > 0 {
        lemma_in_department_len(list.drop_last(), department);
    }
}

/// The standing of the first user in the list with this id, if any.
pub fn user_response(list: &Vec<UserRating>, user_id: i32) -> (r: Option<UserResponse>)
    ensures
        match r {
            Some(found) => exists|i: int|
                0 <= i < list@.len() && (#[trigger] list@[i]).user_id == user_id && found.data@ == list@[i]@
                    && forall|j: int| 0 <= j < i ==> (#[trigger] list@[j]).user_id != user_id,
            None => forall|i: int| 0 <= i < list@.len() ==> (#[trigger] list@[i]).user_id != user_id,
        },
{
    let mut i: usize = 0;
    while i < list.len()
        invariant
            i <= list@.len(),
            forall|j: int| 0 <= j < i ==> (#[trigger] list@[j]).user_id != user_id,
        decreases list@.len() - i,
    {
        if list[i].user_id == user_id {
            let data = clone_rating(&list[i]);
            return Some(UserResponse { data });
        }
        i = i + 1;
    }
    None
}

/// Copies of the records of one fixture across all standings, standing by standing.
pub fn results_for_game(list: &Vec<UserRating>, match_id: i32) -> (r: Vec<MatchInfo>)
    ensures
        r@ == game_records(list@, match_id),
{
    let mut records: Vec<MatchInfo> = Vec::new();
    let mut i: usize = 0;
    while i < list.len()
        invariant
            i <= list@.len(),
            records@ == game_records(list@.take(i as int), match_id),
        decreases list@.len() - i,
    {
        assert(list@.take(i + 1).drop_last() =~= list@.take(i as int));
        let tips = &list[i].tips;
        let ghost base = records@;
        let mut j: usize = 0;
        while j < tips.len()
            invariant
                i < list@.len(),
                *tips == list@[i as int].tips,
                j <= tips@.len(),
                records@ == base + tips@.take(j as int).filter(|m: MatchInfo| m.match_id == match_id),
            decreases tips@.len() - j,
        {
            let ghost t = tips@.take(j as int);
            assert(tips@.take(j + 1).drop_last() =~= t);
            if tips[j].match_id == match_id {
                records.push(clone_match_info(&tips[j]));
            }
            proof {
                reveal(Seq::filter);
            }
            assert(records@ =~= base + tips@.take(j + 1).filter(|m: MatchInfo| m.match_id == match_id));
            j = j + 1;
        }
        assert(tips@.take(j as int) =~= tips@);
        i = i + 1;
    }
    assert(list@.take(i as int) =~= list@);
    records
}

} // verus!
