//! The position assigner: sorts standings by points and gives competition ranks.

use vstd::prelude::*;
use vstd::multiset::lemma_multiset_empty_len;
use vstd::seq_lib::{to_multiset_contains, to_multiset_insert, to_multiset_len, to_multiset_remove};
use crate::rating::{StandingView, UserRating};

verus! {

/// A standing with its position erased.
pub open spec fn unranked(r: UserRating) -> StandingView {
    StandingView { position: 0, ..r@ }
}

/// The standings of a sequence with their positions erased.
pub open spec fn unranked_all(s: Seq<UserRating>) -> Seq<StandingView> {
    s.map_values(|r: UserRating| unranked(r))
}

/// `a` and `b` hold the same standings, up to order and positions.
pub open spec fn same_entries(a: Seq<UserRating>, b: Seq<UserRating>) -> bool {
    unranked_all(a).to_multiset() == unranked_all(b).to_multiset()
}

/// Points never increase along the sequence.
pub open spec fn sorted_by_score(s: Seq<UserRating>) -> bool {
    forall|i: int, j: int| 0 <= i < j < s.len() ==> s[i].score_sum >= s[j].score_sum
}

/// Competition ranking: each position is one more than the index of the first
/// standing with the same points, so ties share a rank and leave a gap after them.
#[verifier::opaque]
pub open spec fn competition_ranked(s: Seq<UserRating>) -> bool {
    forall|i: int|
        #![trigger s[i].position]
        0 <= i < s.len() ==> {
            let p = s[i].position as int;
            &&& 1 <= p <= i + 1
            &&& s[p - 1].score_sum == s[i].score_sum
            &&& (p == 1 || s[p - 2].score_sum > s[i].score_sum)
        }
}

/// Every standing of `b` stands in `a`, up to its position.
pub proof fn lemma_same_entries_member(a: Seq<UserRating>, b: Seq<UserRating>, i: int)
    requires
        same_entries(a, b),
        0 <= i < b.len(),
    ensures
        exists|k: int| 0 <= k < a.len() && unranked(#[trigger] a[k]) == unranked(b[i]),
{
    let x = unranked(b[i]);
    assert(unranked_all(b)[i] == x);
    to_multiset_contains(unranked_all(b), x);
    to_multiset_contains(unranked_all(a), x);
    let k = choose|k: int| 0 <= k < unranked_all(a).len() && unranked_all(a)[k] == x;
    assert(unranked(a[k]) == x);
}

/// Appending the next standing of a sorted sequence, with its position given
/// as the ranking walk gives it, keeps the sequence competition-ranked.
proof fn lemma_rank_push(before: Seq<UserRating>, entry: UserRating, sorted: Seq<UserRating>)
    requires
        competition_ranked(before),
        sorted_by_score(sorted),
        before.len() < sorted.len(),
        forall|k: int| 0 <= k < before.len() ==> (#[trigger] before[k]).score_sum == sorted[k].score_sum,
        entry.score_sum == sorted[before.len() as int].score_sum,
        entry.position == if before.len() == 0 || before.last().score_sum != entry.score_sum {
            before.len() as int + 1
        } else {
            before.last().position as int
        },
    ensures
        competition_ranked(before.push(entry)),
{
    reveal(competition_ranked);
    let after = before.push(entry);
    let n = before.len() as int;
    assert forall|i: int| 0 <= i < after.len() implies {
        let p = #[trigger] after[i].position as int;
        &&& 1 <= p <= i + 1
        &&& after[p - 1].score_sum == after[i].score_sum
        &&& (p == 1 || after[p - 2].score_sum > after[i].score_sum)
    } by {
        if i < n {
            assert(after[i] == before[i]);
            let p = before[i].position as int;
            assert(after[p - 1] == before[p - 1]);
            if p > 1 {
                assert(after[p - 2] == before[p - 2]);
            }
        } else if n > 0 {
            assert(before[n - 1].score_sum == sorted[n - 1].score_sum);
            assert(before.last() == before[n - 1]);
            if before.last().score_sum == entry.score_sum {
                let p = before[n - 1].position as int;
                assert(before[n - 1].position == p);
                assert(after[p - 1] == before[p - 1]);
                if p > 1 {
                    assert(after[p - 2] == before[p - 2]);
                }
            } else {
                assert(sorted[n - 1].score_sum >= sorted[n].score_sum);
            }
        }
    }
}

/// Orders standings by points, highest first; equal points keep their order.
fn sort_by_score(list: Vec<UserRating>) -> (r: Vec<UserRating>)
    ensures
        same_entries(list@, r@),
        sorted_by_score(r@),
        r@.len() == list@.len(),
{
    broadcast use vstd::multiset::group_multiset_axioms;

    let mut rest = list;
    let mut sorted: Vec<UserRating> = Vec::new();
    proof {
        to_multiset_len(unranked_all(sorted@));
        lemma_multiset_empty_len(unranked_all(sorted@).to_multiset());
    }
    assert(unranked_all(sorted@).to_multiset().add(unranked_all(rest@).to_multiset())
        =~= unranked_all(list@).to_multiset());
    while rest.len() > 0
        invariant
            sorted_by_score(sorted@),
            sorted@.len() + rest@.len() == list@.len(),
            unranked_all(sorted@).to_multiset().add(unranked_all(rest@).to_multiset())
                == unranked_all(list@).to_multiset(),
        decreases rest@.len(),
    {
        let ghost rest_before = rest@;
        let ghost sorted_before = sorted@;
        let item = rest.remove(0);
        let mut j: usize = 0;
        while j < sorted.len() && sorted[j].score_sum >= item.score_sum
            invariant
                j <= sorted@.len(),
                sorted@ == sorted_before,
                forall|k: int| 0 <= k < j ==> sorted@[k].score_sum >= item.score_sum,
            decreases sorted@.len() - j,
        {
            j = j + 1;
        }
        sorted.insert(j, item);
        proof {
            let a = unranked(item);
            assert(unranked_all(rest@) =~= unranked_all(rest_before).remove(0));
            to_multiset_remove(unranked_all(rest_before), 0);
            to_multiset_contains(unranked_all(rest_before), a);
            assert(unranked_all(sorted@) =~= unranked_all(sorted_before).insert(j as int, a));
            to_multiset_insert(unranked_all(sorted_before), j as int, a);
            assert(unranked_all(sorted@).to_multiset().add(unranked_all(rest@).to_multiset())
                =~= unranked_all(sorted_before).to_multiset().add(
                unranked_all(rest_before).to_multiset(),
            ));
        }
    }
    proof {
        to_multiset_len(unranked_all(rest@));
        lemma_multiset_empty_len(unranked_all(rest@).to_multiset());
    }
    assert(unranked_all(sorted@).to_multiset().add(unranked_all(rest@).to_multiset())
        =~= unranked_all(sorted@).to_multiset());
    sorted
}

/// Sorts standings by points, highest first, and gives each its competition
/// rank: equal points share a position, and the next lower points get the
/// position that equals their index plus one.
pub fn calculate_positions(user_rating_list: &mut Vec<UserRating>)
    requires
        old(user_rating_list)@.len() <= i32::MAX,
    ensures
        same_entries(old(user_rating_list)@, final(user_rating_list)@),
        sorted_by_score(final(user_rating_list)@),
        competition_ranked(final(user_rating_list)@),
        final(user_rating_list)@.len() == old(user_rating_list)@.len(),
{
    let mut taken: Vec<UserRating> = Vec::new();
    std::mem::swap(user_rating_list, &mut taken);
    let mut sorted_list = sort_by_score(taken);
    let ghost sorted = sorted_list@;
    let mut position_for_frontend: i32 = 0;
    let mut last_point: i32 = 0;
    let mut i: usize = 0;
    proof {
        reveal(competition_ranked);
    }
    while i < sorted_list.len()
        invariant
            sorted_by_score(sorted),
            sorted.len() <= i32::MAX,
            sorted_list@.len() == sorted.len(),
            i <= sorted.len(),
            forall|k: int| 0 <= k < sorted.len() ==> unranked(#[trigger] sorted_list@[k]) == unranked(sorted[k]),
            forall|k: int| 0 <= k < sorted.len() ==> (#[trigger] sorted_list@[k]).score_sum == sorted[k].score_sum,
            competition_ranked(sorted_list@.take(i as int)),
            i > 0 ==> last_point == sorted[i - 1].score_sum,
            i > 0 ==> position_for_frontend == sorted_list@[i - 1].position,
        decreases sorted.len() - i,
    {
        let ghost before = sorted_list@.take(i as int);
        let score = sorted_list[i].score_sum;
        if i == 0 || score != last_point {
            position_for_frontend = (i + 1) as i32;
        }
        sorted_list[i].position = position_for_frontend;
        last_point = score;
        proof {
            assert(sorted_list@.take(i as int) =~= before);
            assert(unranked(sorted_list@[i as int]) == unranked(sorted[i as int]));
            if i > 0 {
                assert(before.last() == sorted_list@[i - 1]);
            }
            lemma_rank_push(before, sorted_list@[i as int], sorted);
            assert(sorted_list@.take(i + 1) =~= before.push(sorted_list@[i as int]));
        }
        i = i + 1;
    }
    proof {
        assert(sorted_list@.take(i as int) =~= sorted_list@);
        assert(unranked_all(sorted_list@) =~= unranked_all(sorted));
        assert forall|a: int, b: int| 0 <= a < b < sorted_list@.len() implies sorted_list@[a].score_sum
            >= sorted_list@[b].score_sum by {
            assert(sorted_list@[a].score_sum == sorted[a].score_sum);
            assert(sorted_list@[b].score_sum == sorted[b].score_sum);
        }
    }
    *user_rating_list = sorted_list;
}

} // verus!
