//! A simpler ranking over submitted tips: three points for the exact result,
//! two for the goal difference, one for the winner, and dense positions.

use vstd::prelude::*;
use vstd::multiset::lemma_multiset_empty_len;
use vstd::seq_lib::{to_multiset_contains, to_multiset_insert, to_multiset_len, to_multiset_remove};
use crate::daily_winner::Match;

verus! {

/// One scored tip of a user.
#[derive(Clone, Copy)]
pub struct UserTip {
    pub match_id: i32,
    pub score: i64,
    pub tip_team1: i32,
    pub tip_team2: i32,
}

/// A user with the tips that have counted so far.
pub struct UserRankingUser {
    pub name: String,
    pub position: i64,
    pub score_sum: i64,
    pub tips: Vec<UserTip>,
}

/// The ranked users.
pub struct UserRanking {
    pub user: Vec<UserRankingUser>,
}

/// A tip as users submit it: who, for which fixture, and the two scores.
pub struct SubmittedTip {
    pub user: String,
    pub id: i32,
    pub score1: i32,
    pub score2: i32,
}

/// Ranks submitted tips against fixtures.
pub struct Ranking {}

/// Points of a tip under this ranking's rule.
pub open spec fn tip_points(home: int, away: int, tip1: int, tip2: int) -> int {
    if home == tip1 && away == tip2 {
        3
    } else if home - tip1 == away - tip2 {
        2
    } else if (home > away && tip1 > tip2) || (home < away && tip1 < tip2) {
        1
    } else {
        0
    }
}

/// The first fixture with this id.
pub open spec fn match_by_id(matches: Seq<Match>, id: i32) -> Option<Match>
    decreases matches.len(),
{
    if matches.len() == 0 {
        None
    } else if matches[0].id == id {
        Some(matches[0])
    } else {
        match_by_id(matches.drop_first(), id)
    }
}

/// The scored tip, when its fixture exists and kicked off before `now`; a
/// fixture without both scores gives no points.
pub open spec fn counted_tip(matches: Seq<Match>, tip: SubmittedTip, now: i64) -> Option<UserTip> {
    match match_by_id(matches, tip.id) {
        Some(m) => if m.utc_date < now {
            let score = match (m.home_score, m.away_score) {
                (Some(h), Some(a)) => tip_points(h as int, a as int, tip.score1 as int, tip.score2 as int),
                _ => 0,
            };
            Some(UserTip { match_id: tip.id, score: score as i64, tip_team1: tip.score1, tip_team2: tip.score2 })
        } else {
            None
        },
        None => None,
    }
}

/// The index of the first group with this name, if any.
pub open spec fn group_index(groups: Seq<(Seq<char>, Seq<UserTip>)>, name: Seq<char>) -> int
    decreases groups.len(),
{
    if groups.len() == 0 {
        -1
    } else {
        let prev = group_index(groups.drop_last(), name);
        if prev >= 0 {
            prev
        } else if groups.last().0 == name {
            groups.len() - 1
        } else {
            -1
        }
    }
}

/// The counted tips grouped by user, users in order of their first counted tip.
pub open spec fn ranking_groups(matches: Seq<Match>, tips: Seq<SubmittedTip>, now: i64) -> Seq<(Seq<char>, Seq<UserTip>)>
    decreases tips.len(),
{
    if tips.len() == 0 {
        seq![]
    } else {
        let prev = ranking_groups(matches, tips.drop_last(), now);
        let tip = tips.last();
        match counted_tip(matches, tip, now) {
            Some(ut) => {
                let i = group_index(prev, tip.user@);
                if i >= 0 {
                    prev.update(i, (prev[i].0, prev[i].1.push(ut)))
                } else {
                    prev.push((tip.user@, seq![ut]))
                }
            },
            None => prev,
        }
    }
}

/// The sum of the points of a user's tips.
pub open spec fn tips_sum(tips: Seq<UserTip>) -> int
    decreases tips.len(),
{
    if tips.len() == 0 {
        0
    } else {
        tips_sum(tips.drop_last()) + tips.last().score
    }
}

/// A user's name and tips.
pub open spec fn group_of(u: UserRankingUser) -> (Seq<char>, Seq<UserTip>) {
    (u.name@, u.tips@)
}

/// Scores a tip under this ranking's rule.
pub fn ranking_points(home: i32, away: i32, tip1: i32, tip2: i32) -> (r: i64)
    ensures
        r == tip_points(home as int, away as int, tip1 as int, tip2 as int),
{
    if home == tip1 && away == tip2 {
        3
    } else if (home as i64) - (tip1 as i64) == (away as i64) - (tip2 as i64) {
        2
    } else if (home > away && tip1 > tip2) || (home < away && tip1 < tip2) {
        1
    } else {
        0
    }
}

fn find_match(matches: &Vec<Match>, id: i32) -> (r: Option<&Match>)
    ensures
        match r {
            Some(m) => match_by_id(matches@, id) == Some(*m),
            None => match_by_id(matches@, id) is None,
        },
{
    let mut i: usize = 0;
    assert(matches@.subrange(0, matches@.len() as int) =~= matches@);
    while i < matches.len()
        invariant
            i <= matches@.len(),
            match_by_id(matches@, id) == match_by_id(matches@.subrange(i as int, matches@.len() as int), id),
        decreases matches@.len() - i,
    {
        assert(matches@.subrange(i as int, matches@.len() as int).drop_first()
            =~= matches@.subrange(i + 1, matches@.len() as int));
        if matches[i].id == id {
            return Some(&matches[i]);
        }
        i = i + 1;
    }
    None
}

fn score_tip(matches: &Vec<Match>, tip: &SubmittedTip, now: i64) -> (r: Option<UserTip>)
    ensures
        r == counted_tip(matches@, *tip, now),
{
    match find_match(matches, tip.id) {
        Some(m) => {
            if m.utc_date < now {
                let score = match (m.home_score, m.away_score) {
                    (Some(h), Some(a)) => ranking_points(h, a, tip.score1, tip.score2),
                    _ => 0,
                };
                Some(UserTip { match_id: tip.id, score, tip_team1: tip.score1, tip_team2: tip.score2 })
            } else {
                None
            }
        },
        None => None,
    }
}

proof fn lemma_group_index(groups: Seq<(Seq<char>, Seq<UserTip>)>, name: Seq<char>)
    ensures
        group_index(groups, name) == -1 ==> forall|j: int| 0 <= j < groups.len() ==> (#[trigger] groups[j]).0 != name,
        group_index(groups, name) != -1 ==> {
            let i = group_index(groups, name);
            &&& 0 <= i < groups.len()
            &&& groups[i].0 == name
            &&& forall|j: int| 0 <= j < i ==> (#[trigger] groups[j]).0 != name
        },
    decreases groups.len(),
{
    if groups.len() > 0 {
        let prev = groups.drop_last();
        lemma_group_index(prev, name);
        assert(forall|j: int| 0 <= j < prev.len() ==> prev[j] == groups[j]);
    }
}

/// Groups the counted tips by user, users in order of their first counted tip.
fn group_tips(matches: &Vec<Match>, tips: &Vec<SubmittedTip>, now: i64) -> (r: Vec<UserRankingUser>)
    ensures
        r@.map_values(|u: UserRankingUser| group_of(u)) == ranking_groups(matches@, tips@, now),
        forall|i: int| 0 <= i < r@.len() ==> (#[trigger] r@[i]).tips@.len() <= tips@.len(),
{
    let mut users: Vec<UserRankingUser> = Vec::new();
    let mut k: usize = 0;
    while k < tips.len()
        invariant
            k <= tips@.len(),
            users@.map_values(|u: UserRankingUser| group_of(u)) == ranking_groups(matches@, tips@.take(k as int), now),
            forall|i: int| 0 <= i < users@.len() ==> (#[trigger] users@[i]).tips@.len() <= k,
        decreases tips@.len() - k,
    {
        let tip = &tips[k];
        assert(tips@.take(k + 1).drop_last() =~= tips@.take(k as int));
        let ghost groups = users@.map_values(|u: UserRankingUser| group_of(u));
        match score_tip(matches, tip, now) {
            Some(ut) => {
                let mut i: usize = 0;
                while i < users.len() && !(users[i].name == tip.user)
                    invariant
                        i <= users@.len(),
                        groups == users@.map_values(|u: UserRankingUser| group_of(u)),
                        forall|j: int| 0 <= j < i ==> (#[trigger] users@[j]).name@ != tip.user@,
                    decreases users@.len() - i,
                {
                    i = i + 1;
                }
                proof {
                    lemma_group_index(groups, tip.user@);
                    assert(forall|j: int| 0 <= j < users@.len() ==> groups[j] == group_of(#[trigger] users@[j]));
                }
                if i < users.len() {
                    assert(group_index(groups, tip.user@) == i as int);
                    let ghost old_users = users@;
                    users[i].tips.push(ut);
                    assert(users@.map_values(|u: UserRankingUser| group_of(u))
                        =~= groups.update(i as int, (groups[i as int].0, groups[i as int].1.push(ut))));
                } else {
                    let mut first: Vec<UserTip> = Vec::new();
                    first.push(ut);
                    let entry = UserRankingUser { name: tip.user.clone(), position: 0, score_sum: 0, tips: first };
                    users.push(entry);
                    assert(first@ =~= seq![ut]);
                    assert(users@.map_values(|u: UserRankingUser| group_of(u)) =~= groups.push((tip.user@, seq![ut])));
                }
            },
            None => {},
        }
        k = k + 1;
    }
    assert(tips@.take(k as int) =~= tips@);
    users
}

/// A user's name, tips and total.
pub open spec fn scored_group(u: UserRankingUser) -> (Seq<char>, Seq<UserTip>, i64) {
    (u.name@, u.tips@, u.score_sum)
}

/// The name, tips and total of each user of a sequence.
pub open spec fn scored_groups(s: Seq<UserRankingUser>) -> Seq<(Seq<char>, Seq<UserTip>, i64)> {
    s.map_values(|u: UserRankingUser| scored_group(u))
}

/// Totals never increase along the sequence.
pub open spec fn sorted_by_sum(s: Seq<UserRankingUser>) -> bool {
    forall|i: int, j: int| 0 <= i < j < s.len() ==> s[i].score_sum >= s[j].score_sum
}

/// Dense ranking: the first user is first, a user with the total of the one
/// before shares its position, any other comes one position after it.
pub open spec fn dense_ranked(s: Seq<UserRankingUser>) -> bool {
    &&& s.len() > 0 ==> s[0].position == 1
    &&& forall|i: int|
        #![trigger s[i].position]
        0 < i < s.len() ==> s[i].position == if s[i].score_sum == s[i - 1].score_sum {
            s[i - 1].position as int
        } else {
            s[i - 1].position + 1
        }
}

/// Every tip scores between nothing and three points, and no user has more
/// tips than a 32-bit count.
pub open spec fn sums_fit(s: Seq<UserRankingUser>) -> bool {
    forall|i: int|
        0 <= i < s.len() ==> (#[trigger] s[i]).tips@.len() <= u32::MAX && forall|j: int|
            0 <= j < s[i].tips@.len() ==> 0 <= (#[trigger] s[i].tips@[j]).score <= 3
}

/// Sets each user's total to the sum of the points of its tips.
pub fn set_sum_score(user_ranking_user: &mut Vec<UserRankingUser>)
    requires
        sums_fit(old(user_ranking_user)@),
    ensures
        final(user_ranking_user)@.len() == old(user_ranking_user)@.len(),
        forall|i: int|
            0 <= i < final(user_ranking_user)@.len() ==> {
                let u = #[trigger] final(user_ranking_user)@[i];
                let o = old(user_ranking_user)@[i];
                &&& u.name == o.name
                &&& u.position == o.position
                &&& u.tips@ == o.tips@
                &&& u.score_sum == tips_sum(o.tips@)
            },
{
    let ghost initial = user_ranking_user@;
    let mut i: usize = 0;
    while i < user_ranking_user.len()
        invariant
            i <= user_ranking_user@.len(),
            user_ranking_user@.len() == initial.len(),
            sums_fit(initial),
            forall|k: int|
                0 <= k < user_ranking_user@.len() ==> {
                    let u = #[trigger] user_ranking_user@[k];
                    let o = initial[k];
                    &&& u.name == o.name
                    &&& u.position == o.position
                    &&& u.tips@ == o.tips@
                    &&& k < i ==> u.score_sum == tips_sum(o.tips@)
                },
        decreases initial.len() - i,
    {
        let ghost tips = initial[i as int].tips@;
        let mut sum: i64 = 0;
        let mut j: usize = 0;
        while j < user_ranking_user[i].tips.len()
            invariant
                i < user_ranking_user@.len(),
                user_ranking_user@[i as int].tips@ == tips,
                tips.len() <= u32::MAX,
                forall|q: int| 0 <= q < tips.len() ==> 0 <= (#[trigger] tips[q]).score <= 3,
                j <= tips.len(),
                sum == tips_sum(tips.take(j as int)),
                0 <= sum <= 3 * j,
            decreases tips.len() - j,
        {
            assert(tips.take(j + 1).drop_last() =~= tips.take(j as int));
            sum = sum + user_ranking_user[i].tips[j].score;
            j = j + 1;
        }
        assert(tips.take(j as int) =~= tips);
        user_ranking_user[i].score_sum = sum;
        i = i + 1;
    }
}

/// Orders users by total, highest first; equal totals keep their order.
pub fn sort_user(user_ranking: &mut UserRanking)
    ensures
        final(user_ranking).user@.len() == old(user_ranking).user@.len(),
        scored_groups(final(user_ranking).user@).to_multiset() == scored_groups(old(user_ranking).user@).to_multiset(),
        sorted_by_sum(final(user_ranking).user@),
{
    broadcast use vstd::multiset::group_multiset_axioms;

    let ghost list = user_ranking.user@;
    let mut rest: Vec<UserRankingUser> = Vec::new();
    std::mem::swap(&mut user_ranking.user, &mut rest);
    let mut sorted: Vec<UserRankingUser> = Vec::new();
    proof {
        to_multiset_len(scored_groups(sorted@));
        lemma_multiset_empty_len(scored_groups(sorted@).to_multiset());
    }
    while rest.len() > 0
        invariant
            sorted_by_sum(sorted@),
            sorted@.len() + rest@.len() == list.len(),
            scored_groups(sorted@).to_multiset().add(scored_groups(rest@).to_multiset())
                == scored_groups(list).to_multiset(),
        decreases rest@.len(),
    {
        let ghost rest_before = rest@;
        let ghost sorted_before = sorted@;
        let item = rest.remove(0);
        let mut j: usize = 0;
        while j < sorted.len() && sorted[j].score_sum >= item.score_sum
            invariant
                j <= sorted@.len(),
                sorted@ == sorted_before,
                forall|k: int| 0 <= k < j ==> sorted@[k].score_sum >= item.score_sum,
            decreases sorted@.len() - j,
        {
            j = j + 1;
        }
        sorted.insert(j, item);
        proof {
            let a = scored_group(item);
            assert(scored_groups(rest@) =~= scored_groups(rest_before).remove(0));
            to_multiset_remove(scored_groups(rest_before), 0);
            to_multiset_contains(scored_groups(rest_before), a);
            assert(scored_groups(sorted@) =~= scored_groups(sorted_before).insert(j as int, a));
            to_multiset_insert(scored_groups(sorted_before), j as int, a);
            assert(scored_groups(sorted@).to_multiset().add(scored_groups(rest@).to_multiset())
                =~= scored_groups(sorted_before).to_multiset().add(scored_groups(rest_before).to_multiset()));
        }
    }
    proof {
        to_multiset_len(scored_groups(rest@));
        lemma_multiset_empty_len(scored_groups(rest@).to_multiset());
        assert(scored_groups(sorted@).to_multiset().add(scored_groups(rest@).to_multiset())
            =~= scored_groups(sorted@).to_multiset());
    }
    user_ranking.user = sorted;
}

/// Gives each user its dense position in a list sorted by total.
pub fn add_position(user_ranking_user: &mut Vec<UserRankingUser>)
    requires
        old(user_ranking_user)@.len() < i64::MAX,
    ensures
        final(user_ranking_user)@.len() == old(user_ranking_user)@.len(),
        forall|i: int|
            0 <= i < final(user_ranking_user)@.len() ==> scored_group(#[trigger] final(user_ranking_user)@[i])
                == scored_group(old(user_ranking_user)@[i]),
        dense_ranked(final(user_ranking_user)@),
{
    let ghost initial = user_ranking_user@;
    let mut i: usize = 0;
    while i < user_ranking_user.len()
        invariant
            i <= user_ranking_user@.len(),
            user_ranking_user@.len() == initial.len(),
            initial.len() < i64::MAX,
            forall|k: int|
                0 <= k < user_ranking_user@.len() ==> scored_group(#[trigger] user_ranking_user@[k])
                    == scored_group(initial[k]),
            forall|k: int| 0 <= k < i ==> 1 <= #[trigger] user_ranking_user@[k].position <= k + 1,
            dense_ranked(user_ranking_user@.take(i as int)),
        decreases initial.len() - i,
    {
        let ghost before = user_ranking_user@;
        if i == 0 {
            user_ranking_user[i].position = 1;
        } else {
            let previous = user_ranking_user[i - 1].position;
            if user_ranking_user[i].score_sum == user_ranking_user[i - 1].score_sum {
                user_ranking_user[i].position = previous;
            } else {
                user_ranking_user[i].position = previous + 1;
            }
        }
        proof {
            assert(scored_group(user_ranking_user@[i as int]) == scored_group(before[i as int]));
            assert(forall|k: int| 0 <= k < user_ranking_user@.len() && k != i ==> user_ranking_user@[k] == before[k]);
            let now_taken = user_ranking_user@.take(i + 1);
            let was_taken = before.take(i as int);
            assert(forall|k: int| 0 <= k < i ==> now_taken[k] == was_taken[k]);
            assert forall|k: int| 0 < k < now_taken.len() implies #[trigger] now_taken[k].position == if now_taken[k].score_sum
                == now_taken[k - 1].score_sum {
                now_taken[k - 1].position as int
            } else {
                now_taken[k - 1].position + 1
            } by {
                if k < i {
                    assert(was_taken[k].position == now_taken[k].position);
                }
            }
        }
        i = i + 1;
    }
    assert(user_ranking_user@.take(i as int) =~= user_ranking_user@);
}

/// The name, tips and total of each group.
pub open spec fn groups_with_sums(groups: Seq<(Seq<char>, Seq<UserTip>)>) -> Seq<(Seq<char>, Seq<UserTip>, i64)> {
    groups.map_values(|g: (Seq<char>, Seq<UserTip>)| (g.0, g.1, tips_sum(g.1) as i64))
}

/// `r` holds each user with counted tips once, with its tips and their total,
/// sorted by total and densely ranked, the tips counted as of `now`.
pub open spec fn is_user_ranking(matches: Seq<Match>, tips: Seq<SubmittedTip>, now: i64, r: UserRanking) -> bool {
    &&& scored_groups(r.user@).to_multiset() == groups_with_sums(ranking_groups(matches, tips, now)).to_multiset()
    &&& sorted_by_sum(r.user@)
    &&& dense_ranked(r.user@)
}

proof fn lemma_groups_bounded(matches: Seq<Match>, tips: Seq<SubmittedTip>, now: i64)
    ensures
        ranking_groups(matches, tips, now).len() <= tips.len(),
        forall|i: int, j: int|
            0 <= i < ranking_groups(matches, tips, now).len() && 0 <= j < ranking_groups(matches, tips, now)[i].1.len()
                ==> 0 <= (#[trigger] ranking_groups(matches, tips, now)[i].1[j]).score <= 3,
    decreases tips.len(),
{
    if tips.len() > 0 {
        let prev = ranking_groups(matches, tips.drop_last(), now);
        lemma_groups_bounded(matches, tips.drop_last(), now);
        lemma_group_index(prev, tips.last().user@);
        let g = ranking_groups(matches, tips, now);
        match counted_tip(matches, tips.last(), now) {
            Some(ut) => {
                assert(0 <= ut.score <= 3);
                let k = group_index(prev, tips.last().user@);
                assert forall|i: int, j: int| 0 <= i < g.len() && 0 <= j < g[i].1.len()
                    implies 0 <= (#[trigger] g[i].1[j]).score <= 3 by {
                    if k >= 0 && i == k {
                        if j < prev[i].1.len() {
                            assert(g[i].1[j] == prev[i].1[j]);
                        }
                    } else if i < prev.len() {
                        assert(g[i] == prev[i]);
                    }
                }
            },
            None => {},
        }
    }
}

/// Relies on chrono's `Utc::now` and `DateTime::timestamp`: the current time
/// in seconds since the Unix epoch; nothing is promised of its value.
#[verifier::external_body]
fn now_timestamp() -> (r: i64) {
    chrono::Utc::now().timestamp()
}

impl Ranking {
    /// Ranks users by the points of their tips on fixtures that kicked off
    /// before `now`: users grouped by name, totals summed, sorted, densely ranked.
    pub fn user_ranking_at(matches: &Vec<Match>, tips: &Vec<SubmittedTip>, now: i64) -> (r: UserRanking)
        requires
            tips@.len() <= u32::MAX,
        ensures
            is_user_ranking(matches@, tips@, now, r),
    {
        let mut users = group_tips(matches, tips, now);
        let ghost groups = ranking_groups(matches@, tips@, now);
        proof {
            lemma_groups_bounded(matches@, tips@, now);
            assert forall|i: int| 0 <= i < users@.len() implies (#[trigger] users@[i]).tips@.len() <= u32::MAX
                && forall|j: int| 0 <= j < users@[i].tips@.len() ==> 0 <= (#[trigger] users@[i].tips@[j]).score <= 3 by {
                assert(group_of(users@[i]) == groups[i]);
                assert forall|j: int| 0 <= j < users@[i].tips@.len() implies 0 <= (#[trigger] users@[i].tips@[j]).score <= 3 by {
                    assert(users@[i].tips@[j] == groups[i].1[j]);
                }
            }
        }
        set_sum_score(&mut users);
        proof {
            assert forall|i: int| 0 <= i < users@.len() implies #[trigger] scored_groups(users@)[i] == groups_with_sums(groups)[i] by {
                assert(users@[i].tips@ == groups[i].1);
            }
            assert(scored_groups(users@) =~= groups_with_sums(groups));
        }
        let mut user_ranking = UserRanking { user: users };
        sort_user(&mut user_ranking);
        let ghost sorted = user_ranking.user@;
        add_position(&mut user_ranking.user);
        proof {
            assert(scored_groups(user_ranking.user@) =~= scored_groups(sorted));
            assert forall|i: int, j: int| 0 <= i < j < user_ranking.user@.len() implies user_ranking.user@[i].score_sum
                >= user_ranking.user@[j].score_sum by {
                assert(scored_group(user_ranking.user@[i]) == scored_group(sorted[i]));
                assert(scored_group(user_ranking.user@[j]) == scored_group(sorted[j]));
            }
        }
        user_ranking
    }

    /// Ranks users by the points of their tips on fixtures that have kicked off.
    pub fn get_user_ranking(matches: &Vec<Match>, tips: &Vec<SubmittedTip>) -> (r: UserRanking)
        requires
            tips@.len() <= u32::MAX,
        ensures
            exists|now: i64| is_user_ranking(matches@, tips@, now, r),
    {
        let now = now_timestamp();
        Self::user_ranking_at(matches, tips, now)
    }
}

} // verus!
