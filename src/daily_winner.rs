//! The daily-winner aggregator: points per user per calendar day, and the day's best.

use vstd::prelude::*;
use crate::rating::{MatchInfo, UserRating};

verus! {

/// A team as the fixture feed describes it.
pub struct Team {
    pub id: Option<i32>,
    pub name: Option<String>,
    pub short_name: Option<String>,
    pub tla: Option<String>,
    pub flag: Option<String>,
}

/// Goals of one side each, at some stage of a fixture.
pub struct ScoreDetail {
    pub home: Option<i32>,
    pub away: Option<i32>,
}

/// The score of a fixture as the feed reports it.
pub struct Score {
    pub winner: Option<String>,
    pub duration: String,
    pub full_time: ScoreDetail,
    pub half_time: ScoreDetail,
}

/// A fixture as the daily aggregation reads it.
pub struct Match {
    pub id: i32,
    /// Scheduled kick-off, in seconds since the Unix epoch.
    pub utc_date: i64,
    pub home_team: Team,
    pub away_team: Team,
    pub status: String,
    pub home_score: Option<i32>,
    pub away_score: Option<i32>,
}

/// The best user or users of one calendar day.
pub struct DailyWinner {
    /// The UTC calendar date, `YYYY-MM-DD`.
    pub date: String,
    pub user: Vec<String>,
    pub points: i64,
}

/// The winners of every day that has points, in order of the days' first fixture.
pub struct DailyWinners {
    pub daily_winners: Vec<DailyWinner>,
}

/// Points earned by one user on one fixture of one day.
struct DailyPoints {
    date: String,
    user: String,
    points: i32,
}

/// A fixture counts for the daily winners once it is finished.
pub open spec fn is_finished(m: Match) -> bool {
    m.status@ == "FINISHED"@
}

/// The first record of a fixture among a user's records.
pub open spec fn find_info(infos: Seq<MatchInfo>, match_id: i32) -> Option<MatchInfo>
    decreases infos.len(),
{
    if infos.len() == 0 {
        None
    } else if infos[0].match_id == match_id {
        Some(infos[0])
    } else {
        find_info(infos.drop_first(), match_id)
    }
}

/// (date, user name, points) for each standing that holds a record of the fixture.
pub open spec fn rating_points(date: Seq<char>, match_id: i32, ratings: Seq<UserRating>) -> Seq<(Seq<char>, Seq<char>, int)>
    decreases ratings.len(),
{
    if ratings.len() == 0 {
        seq![]
    } else {
        let prev = rating_points(date, match_id, ratings.drop_last());
        match find_info(ratings.last().tips@, match_id) {
            Some(info) => prev.push((date, ratings.last().name@, info.score as int)),
            None => prev,
        }
    }
}

/// Every point entry of the finished fixtures, fixture by fixture; `dates[k]`
/// is the calendar date of `matches[k]`.
pub open spec fn match_points(matches: Seq<Match>, dates: Seq<Seq<char>>, ratings: Seq<UserRating>) -> Seq<(Seq<char>, Seq<char>, int)>
    decreases matches.len(),
{
    if matches.len() == 0 {
        seq![]
    } else {
        let prev = match_points(matches.drop_last(), dates, ratings);
        let k = matches.len() - 1;
        if is_finished(matches[k]) {
            prev + rating_points(dates[k], matches[k].id, ratings)
        } else {
            prev
        }
    }
}

/// The points of `user` on `date`, summed over the entries.
pub open spec fn day_total(points: Seq<(Seq<char>, Seq<char>, int)>, date: Seq<char>, user: Seq<char>) -> int
    decreases points.len(),
{
    if points.len() == 0 {
        0
    } else {
        day_total(points.drop_last(), date, user) + if points.last().0 == date && points.last().1 == user {
            points.last().2
        } else {
            0
        }
    }
}

/// Some entry falls on `date`.
pub open spec fn has_day(points: Seq<(Seq<char>, Seq<char>, int)>, date: Seq<char>) -> bool {
    exists|i: int| 0 <= i < points.len() && (#[trigger] points[i]).0 == date
}

/// `user` has an entry on `date`.
pub open spec fn has_entry(points: Seq<(Seq<char>, Seq<char>, int)>, date: Seq<char>, user: Seq<char>) -> bool {
    exists|i: int| 0 <= i < points.len() && (#[trigger] points[i]).0 == date && points[i].1 == user
}

/// `n` is the text of one of `names`.
pub open spec fn listed(names: Seq<String>, n: Seq<char>) -> bool {
    exists|k: int| 0 <= k < names.len() && (#[trigger] names[k])@ == n
}

/// `w` names the users with the highest total on `date`, each once, and that total.
pub open spec fn is_day_winner(points: Seq<(Seq<char>, Seq<char>, int)>, date: Seq<char>, w: DailyWinner) -> bool {
    &&& w.date@ == date
    &&& w.user@.len() > 0
    &&& forall|i: int|
        0 <= i < points.len() && (#[trigger] points[i]).0 == date ==> day_total(points, date, points[i].1)
            <= w.points
    &&& forall|k: int|
        0 <= k < w.user@.len() ==> has_entry(points, date, (#[trigger] w.user@[k])@) && day_total(
            points,
            date,
            w.user@[k]@,
        ) == w.points
    &&& forall|i: int|
        0 <= i < points.len() && (#[trigger] points[i]).0 == date && day_total(points, date, points[i].1)
            == w.points ==> listed(w.user@, points[i].1)
    &&& forall|k1: int, k2: int|
        0 <= k1 < k2 < w.user@.len() ==> (#[trigger] w.user@[k1])@ != (#[trigger] w.user@[k2])@
}

proof fn lemma_day_total_absent(points: Seq<(Seq<char>, Seq<char>, int)>, date: Seq<char>, user: Seq<char>)
    requires
        !has_entry(points, date, user),
    ensures
        day_total(points, date, user) == 0,
    decreases points.len(),
{
    if points.len() > 0 {
        let prev = points.drop_last();
        assert(!has_entry(prev, date, user)) by {
            if has_entry(prev, date, user) {
                let i = choose|i: int| 0 <= i < prev.len() && (#[trigger] prev[i]).0 == date && prev[i].1 == user;
                assert(points[i] == prev[i]);
            }
        }
        assert(points[points.len() - 1] == points.last());
        lemma_day_total_absent(prev, date, user);
    }
}

/// The distinct dates of the finished fixtures, in order of first appearance.
pub open spec fn day_order(matches: Seq<Match>, dates: Seq<Seq<char>>) -> Seq<Seq<char>>
    decreases matches.len(),
{
    if matches.len() == 0 {
        seq![]
    } else {
        let prev = day_order(matches.drop_last(), dates);
        let k = matches.len() - 1;
        if is_finished(matches[k]) && !prev.contains(dates[k]) {
            prev.push(dates[k])
        } else {
            prev
        }
    }
}

/// The dates of `days` on which some entry falls, in the same order.
pub open spec fn days_with_points(days: Seq<Seq<char>>, points: Seq<(Seq<char>, Seq<char>, int)>) -> Seq<Seq<char>>
    decreases days.len(),
{
    if days.len() == 0 {
        seq![]
    } else {
        let prev = days_with_points(days.drop_last(), points);
        if has_day(points, days.last()) {
            prev.push(days.last())
        } else {
            prev
        }
    }
}

/// `w` holds, for each date with points in order of its first finished
/// fixture, the users with the highest total on that date.
pub open spec fn is_daily_winners(
    matches: Seq<Match>,
    dates: Seq<Seq<char>>,
    ratings: Seq<UserRating>,
    w: DailyWinners,
) -> bool {
    let points = match_points(matches, dates, ratings);
    let days = days_with_points(day_order(matches, dates), points);
    &&& w.daily_winners@.len() == days.len()
    &&& forall|i: int| 0 <= i < days.len() ==> is_day_winner(points, days[i], #[trigger] w.daily_winners@[i])
}

spec fn entries_view(s: Seq<DailyPoints>) -> Seq<(Seq<char>, Seq<char>, int)> {
    s.map_values(|e: DailyPoints| (e.date@, e.user@, e.points as int))
}

/// The texts of a sequence of strings.
pub open spec fn texts_view(s: Seq<String>) -> Seq<Seq<char>> {
    s.map_values(|d: String| d@)
}

/// Finds the first record of a fixture among a user's records.
fn find_match_info(infos: &Vec<MatchInfo>, match_id: i32) -> (r: Option<&MatchInfo>)
    ensures
        match r {
            Some(info) => find_info(infos@, match_id) == Some(*info),
            None => find_info(infos@, match_id) is None,
        },
{
    let mut i: usize = 0;
    assert(infos@.subrange(0, infos@.len() as int) =~= infos@);
    while i < infos.len()
        invariant
            i <= infos@.len(),
            find_info(infos@, match_id) == find_info(infos@.subrange(i as int, infos@.len() as int), match_id),
        decreases infos@.len() - i,
    {
        assert(infos@.subrange(i as int, infos@.len() as int).drop_first()
            =~= infos@.subrange(i + 1, infos@.len() as int));
        if infos[i].match_id == match_id {
            return Some(&infos[i]);
        }
        i = i + 1;
    }
    None
}

/// Collects the point entries of every finished fixture.
fn collect_points(matches: &Vec<Match>, dates: &Vec<String>, ratings: &Vec<UserRating>) -> (r: Vec<DailyPoints>)
    requires
        dates@.len() == matches@.len(),
    ensures
        entries_view(r@) == match_points(matches@, texts_view(dates@), ratings@),
        r@.len() <= matches@.len() * ratings@.len(),
{
    let ghost dv = texts_view(dates@);
    let mut points: Vec<DailyPoints> = Vec::new();
    let mut k: usize = 0;
    while k < matches.len()
        invariant
            k <= matches@.len(),
            dates@.len() == matches@.len(),
            dv == texts_view(dates@),
            entries_view(points@) == match_points(matches@.take(k as int), dv, ratings@),
            points@.len() <= k * ratings@.len(),
        decreases matches@.len() - k,
    {
        let m = &matches[k];
        assert(matches@.take(k + 1).drop_last() =~= matches@.take(k as int));
        let finished = m.status == "FINISHED".to_owned();
        proof {
            reveal_strlit("FINISHED");
        }
        if finished {
            let ghost before = entries_view(points@);
            let mut j: usize = 0;
            while j < ratings.len()
                invariant
                    k < matches@.len(),
                    j <= ratings@.len(),
                    dates@.len() == matches@.len(),
                    dv == texts_view(dates@),
                    m == matches@[k as int],
                    entries_view(points@) == before + rating_points(dv[k as int], m.id, ratings@.take(j as int)),
                    points@.len() <= k * ratings@.len() + j,
                decreases ratings@.len() - j,
            {
                let rating = &ratings[j];
                assert(ratings@.take(j + 1).drop_last() =~= ratings@.take(j as int));
                match find_match_info(&rating.tips, m.id) {
                    Some(info) => {
                        let entry = DailyPoints {
                            date: dates[k].clone(),
                            user: rating.name.clone(),
                            points: info.score,
                        };
                        let ghost prev = entries_view(points@);
                        points.push(entry);
                        assert(entries_view(points@) =~= prev.push((dv[k as int], rating.name@, info.score as int)));
                    },
                    None => {},
                }
                j = j + 1;
            }
            assert(ratings@.take(j as int) =~= ratings@);
            assert(k * ratings@.len() + ratings@.len() == (k + 1) * ratings@.len()) by (nonlinear_arith);
        } else {
            assert((k + 1) * ratings@.len() >= k * ratings@.len()) by (nonlinear_arith);
        }
        k = k + 1;
    }
    assert(matches@.take(k as int) =~= matches@);
    points
}

/// `names` holds each user with an entry on `date` once, and `totals` their points.
spec fn is_day_table(pv: Seq<(Seq<char>, Seq<char>, int)>, date: Seq<char>, names: Seq<String>, totals: Seq<i64>) -> bool {
    &&& names.len() == totals.len()
    &&& forall|k: int| 0 <= k < names.len() ==> totals[k] == day_total(pv, date, (#[trigger] names[k])@)
    &&& forall|k: int| 0 <= k < names.len() ==> has_entry(pv, date, (#[trigger] names[k])@)
    &&& forall|j: int| 0 <= j < pv.len() && (#[trigger] pv[j]).0 == date ==> listed(names, pv[j].1)
    &&& forall|k1: int, k2: int| 0 <= k1 < k2 < names.len() ==> (#[trigger] names[k1])@ != (#[trigger] names[k2])@
}

/// Sums the points of each user on one day.
fn day_totals(points: &Vec<DailyPoints>, date: &String) -> (r: (Vec<String>, Vec<i64>))
    requires
        points@.len() <= u32::MAX,
    ensures
        is_day_table(entries_view(points@), date@, r.0@, r.1@),
{
    let ghost pv = entries_view(points@);
    let mut names: Vec<String> = Vec::new();
    let mut totals: Vec<i64> = Vec::new();
    let mut i: usize = 0;
    while i < points.len()
        invariant
            pv == entries_view(points@),
            i <= pv.len(),
            pv.len() <= u32::MAX,
            is_day_table(pv.take(i as int), date@, names@, totals@),
            forall|k: int| 0 <= k < names@.len() ==> -(i * 2147483648) <= #[trigger] totals@[k] <= i * 2147483648,
        decreases pv.len() - i,
    {
        let e = &points[i];
        let ghost prev = pv.take(i as int);
        let ghost next = pv.take(i + 1);
        let ghost old_names = names@;
        let ghost old_totals = totals@;
        assert(next.drop_last() =~= prev);
        assert(pv[i as int] == (e.date@, e.user@, e.points as int));
        assert(next.last() == pv[i as int]);
        assert(forall|j: int| 0 <= j < prev.len() ==> next[j] == prev[j]);
        assert forall|u: Seq<char>| has_entry(prev, date@, u) implies has_entry(next, date@, u) by {
            let j = choose|j: int| 0 <= j < prev.len() && (#[trigger] prev[j]).0 == date@ && prev[j].1 == u;
            assert(next[j] == prev[j]);
        }
        if e.date == *date {
            let mut k: usize = 0;
            while k < names.len() && !(names[k] == e.user)
                invariant
                    k <= names@.len(),
                    forall|q: int| 0 <= q < k ==> (#[trigger] names@[q])@ != e.user@,
                decreases names@.len() - k,
            {
                k = k + 1;
            }
            assert(has_entry(next, date@, e.user@)) by {
                assert(next[i as int] == pv[i as int]);
            }
            if k < names.len() {
                let t = totals[k] + e.points as i64;
                totals[k] = t;
            } else {
                proof {
                    if has_entry(prev, date@, e.user@) {
                        let j = choose|j: int| 0 <= j < prev.len() && (#[trigger] prev[j]).0 == date@ && prev[j].1 == e.user@;
                        let q = choose|q: int| 0 <= q < names@.len() && (#[trigger] names@[q])@ == prev[j].1;
                    }
                    lemma_day_total_absent(prev, date@, e.user@);
                }
                names.push(e.user.clone());
                totals.push(e.points as i64);
            }
            assert(forall|q: int| 0 <= q < old_names.len() ==> names@[q] == old_names[q]);
            assert forall|j: int| 0 <= j < next.len() && (#[trigger] next[j]).0 == date@ implies listed(names@, next[j].1) by {
                if j == i {
                    assert(names@[k as int]@ == next[j].1);
                } else {
                    assert(next[j] == prev[j]);
                    let q = choose|q: int| 0 <= q < old_names.len() && (#[trigger] old_names[q])@ == prev[j].1;
                    assert(names@[q]@ == next[j].1);
                }
            }
        } else {
            assert forall|j: int| 0 <= j < next.len() && (#[trigger] next[j]).0 == date@ implies listed(names@, next[j].1) by {
                assert(next[j] == prev[j]);
            }
        }
        i = i + 1;
    }
    assert(pv.take(i as int) =~= pv);
    (names, totals)
}

/// The largest of a non-empty sequence of totals.
fn max_total(totals: &Vec<i64>) -> (r: i64)
    requires
        totals@.len() > 0,
    ensures
        forall|q: int| 0 <= q < totals@.len() ==> #[trigger] totals@[q] <= r,
        exists|q: int| 0 <= q < totals@.len() && #[trigger] totals@[q] == r,
{
    let mut best: i64 = totals[0];
    let mut k: usize = 1;
    while k < totals.len()
        invariant
            1 <= k <= totals@.len(),
            forall|q: int| 0 <= q < k ==> #[trigger] totals@[q] <= best,
            exists|q: int| 0 <= q < k && #[trigger] totals@[q] == best,
        decreases totals@.len() - k,
    {
        if totals[k] > best {
            best = totals[k];
        }
        k = k + 1;
    }
    best
}

spec fn listed_at(names: Seq<String>, totals: Seq<i64>, best: i64, n: Seq<char>) -> bool {
    exists|q: int| 0 <= q < names.len() && (#[trigger] names[q])@ == n && totals[q] == best
}

/// The names whose total is `best`, in table order.
fn names_with_total(names: &Vec<String>, totals: &Vec<i64>, best: i64) -> (r: Vec<String>)
    requires
        names@.len() == totals@.len(),
        forall|k1: int, k2: int| 0 <= k1 < k2 < names@.len() ==> (#[trigger] names@[k1])@ != (#[trigger] names@[k2])@,
    ensures
        forall|p: int| 0 <= p < r@.len() ==> listed_at(names@, totals@, best, (#[trigger] r@[p])@),
        forall|q: int| 0 <= q < names@.len() && #[trigger] totals@[q] == best ==> listed(r@, names@[q]@),
        forall|p1: int, p2: int| 0 <= p1 < p2 < r@.len() ==> (#[trigger] r@[p1])@ != (#[trigger] r@[p2])@,
{
    let mut winners: Vec<String> = Vec::new();
    let ghost mut idx: Seq<int> = Seq::empty();
    let mut k: usize = 0;
    while k < names.len()
        invariant
            k <= names@.len(),
            names@.len() == totals@.len(),
            idx.len() == winners@.len(),
            forall|p: int|
                0 <= p < idx.len() ==> 0 <= #[trigger] idx[p] < k && winners@[p]@ == names@[idx[p]]@
                    && totals@[idx[p]] == best,
            forall|p1: int, p2: int| 0 <= p1 < p2 < idx.len() ==> #[trigger] idx[p1] < #[trigger] idx[p2],
            forall|q: int| 0 <= q < k && #[trigger] totals@[q] == best ==> exists|p: int| 0 <= p < idx.len() && #[trigger] idx[p] == q,
            forall|k1: int, k2: int|
                0 <= k1 < k2 < names@.len() ==> (#[trigger] names@[k1])@ != (#[trigger] names@[k2])@,
        decreases names@.len() - k,
    {
        if totals[k] == best {
            let ghost before = idx;
            winners.push(names[k].clone());
            proof {
                idx = idx.push(k as int);
                assert(idx[before.len() as int] == k);
                assert forall|q: int| 0 <= q < k + 1 && #[trigger] totals@[q] == best implies exists|p: int|
                    0 <= p < idx.len() && #[trigger] idx[p] == q by {
                    if q < k {
                        let p = choose|p: int| 0 <= p < before.len() && #[trigger] before[p] == q;
                        assert(idx[p] == q);
                    }
                }
            }
        }
        k = k + 1;
    }
    proof {
        assert forall|p: int| 0 <= p < winners@.len() implies listed_at(names@, totals@, best, (#[trigger] winners@[p])@) by {
            let q = idx[p];
            assert(names@[q]@ == winners@[p]@);
        }
        assert forall|q: int| 0 <= q < names@.len() && #[trigger] totals@[q] == best implies listed(winners@, names@[q]@) by {
            let p = choose|p: int| 0 <= p < idx.len() && #[trigger] idx[p] == q;
            assert(winners@[p]@ == names@[q]@);
        }
        assert forall|p1: int, p2: int| 0 <= p1 < p2 < winners@.len() implies (#[trigger] winners@[p1])@
            != (#[trigger] winners@[p2])@ by {
            assert(idx[p1] < idx[p2]);
        }
    }
    winners
}

/// Selects the winners of one day from the point entries.
fn day_winner(points: &Vec<DailyPoints>, date: &String) -> (r: DailyWinner)
    requires
        has_day(entries_view(points@), date@),
        points@.len() <= u32::MAX,
    ensures
        is_day_winner(entries_view(points@), date@, r),
{
    let ghost pv = entries_view(points@);
    let (names, totals) = day_totals(points, date);
    let ghost first = choose|j: int| 0 <= j < pv.len() && (#[trigger] pv[j]).0 == date@;
    assert(pv[first].0 == date@);
    let best = max_total(&totals);
    let winners = names_with_total(&names, &totals, best);
    let r = DailyWinner { date: date.clone(), user: winners, points: best };
    proof {
        let q = choose|q: int| 0 <= q < totals@.len() && #[trigger] totals@[q] == best;
        assert(listed(r.user@, names@[q]@));
        assert(r.user@.len() > 0);
        assert forall|k: int| 0 <= k < r.user@.len() implies has_entry(pv, date@, (#[trigger] r.user@[k])@)
            && day_total(pv, date@, r.user@[k]@) == r.points by {
            assert(listed_at(names@, totals@, best, winners@[k]@));
            let q = choose|q: int| 0 <= q < names@.len() && (#[trigger] names@[q])@ == winners@[k]@ && totals@[q] == best;
            assert(has_entry(pv, date@, names@[q]@));
        }
        assert forall|i: int| 0 <= i < pv.len() && (#[trigger] pv[i]).0 == date@
            implies day_total(pv, date@, pv[i].1) <= r.points by {
            assert(listed(names@, pv[i].1));
            let q = choose|q: int| 0 <= q < names@.len() && (#[trigger] names@[q])@ == pv[i].1;
            assert(totals@[q] <= best);
        }
        assert forall|i: int| 0 <= i < pv.len() && (#[trigger] pv[i]).0 == date@ && day_total(pv, date@, pv[i].1) == r.points
            implies listed(r.user@, pv[i].1) by {
            assert(listed(names@, pv[i].1));
            let q = choose|q: int| 0 <= q < names@.len() && (#[trigger] names@[q])@ == pv[i].1;
            assert(totals@[q] == best);
        }
    }
    r
}

/// Whether `texts` holds `text`.
pub(crate) fn contains_text(texts: &Vec<String>, text: &String) -> (r: bool)
    ensures
        r == texts_view(texts@).contains(text@),
{
    let mut i: usize = 0;
    while i < texts.len()
        invariant
            i <= texts@.len(),
            forall|q: int| 0 <= q < i ==> (#[trigger] texts@[q])@ != text@,
        decreases texts@.len() - i,
    {
        if texts[i] == *text {
            assert(texts_view(texts@)[i as int] == text@);
            return true;
        }
        i = i + 1;
    }
    proof {
        if texts_view(texts@).contains(text@) {
            let q = choose|q: int| 0 <= q < texts_view(texts@).len() && texts_view(texts@)[q] == text@;
            assert(texts@[q]@ == text@);
        }
    }
    false
}

/// The distinct dates of the finished fixtures, in order of first appearance.
fn finished_days(matches: &Vec<Match>, dates: &Vec<String>) -> (r: Vec<String>)
    requires
        dates@.len() == matches@.len(),
    ensures
        texts_view(r@) == day_order(matches@, texts_view(dates@)),
{
    let ghost dv = texts_view(dates@);
    let mut days: Vec<String> = Vec::new();
    let mut k: usize = 0;
    while k < matches.len()
        invariant
            k <= matches@.len(),
            dates@.len() == matches@.len(),
            dv == texts_view(dates@),
            texts_view(days@) == day_order(matches@.take(k as int), dv),
        decreases matches@.len() - k,
    {
        assert(matches@.take(k + 1).drop_last() =~= matches@.take(k as int));
        let finished = matches[k].status == "FINISHED".to_owned();
        proof {
            reveal_strlit("FINISHED");
        }
        if finished && !contains_text(&days, &dates[k]) {
            let ghost before = texts_view(days@);
            days.push(dates[k].clone());
            assert(texts_view(days@) =~= before.push(dv[k as int]));
        }
        k = k + 1;
    }
    assert(matches@.take(k as int) =~= matches@);
    days
}

/// Whether some entry falls on `date`.
fn day_has_points(points: &Vec<DailyPoints>, date: &String) -> (r: bool)
    ensures
        r == has_day(entries_view(points@), date@),
{
    let ghost pv = entries_view(points@);
    let mut i: usize = 0;
    while i < points.len()
        invariant
            i <= points@.len(),
            pv == entries_view(points@),
            forall|q: int| 0 <= q < i ==> (#[trigger] pv[q]).0 != date@,
        decreases points@.len() - i,
    {
        if points[i].date == *date {
            assert(pv[i as int].0 == date@);
            return true;
        }
        i = i + 1;
    }
    false
}

/// Aggregates the daily winners, given the calendar date of each fixture
/// (`dates[k]` belongs to `matches[k]`; the dates of unfinished fixtures are not read).
pub fn daily_winners_by_date(matches: &Vec<Match>, dates: &Vec<String>, ratings: &Vec<UserRating>) -> (r: DailyWinners)
    requires
        dates@.len() == matches@.len(),
        matches@.len() * ratings@.len() <= u32::MAX,
    ensures
        is_daily_winners(matches@, texts_view(dates@), ratings@, r),
{
    let points = collect_points(matches, dates, ratings);
    let days = finished_days(matches, dates);
    let ghost pv = entries_view(points@);
    let ghost dv = texts_view(days@);
    let mut winners: Vec<DailyWinner> = Vec::new();
    let mut i: usize = 0;
    while i < days.len()
        invariant
            i <= days@.len(),
            pv == entries_view(points@),
            dv == texts_view(days@),
            points@.len() <= u32::MAX,
            winners@.len() == days_with_points(dv.take(i as int), pv).len(),
            forall|q: int|
                0 <= q < winners@.len() ==> is_day_winner(
                    pv,
                    days_with_points(dv.take(i as int), pv)[q],
                    #[trigger] winners@[q],
                ),
        decreases days@.len() - i,
    {
        let ghost before = days_with_points(dv.take(i as int), pv);
        assert(dv.take(i + 1).drop_last() =~= dv.take(i as int));
        assert(dv.take(i + 1).last() == days@[i as int]@);
        if day_has_points(&points, &days[i]) {
            let w = day_winner(&points, &days[i]);
            winners.push(w);
        }
        i = i + 1;
    }
    assert(dv.take(i as int) =~= dv);
    DailyWinners { daily_winners: winners }
}

/// The UTC calendar date (`YYYY-MM-DD`) of a Unix timestamp, if it has one.
pub uninterp spec fn utc_date_of(timestamp: int) -> Option<Seq<char>>;

/// Relies on chrono's `DateTime::from_timestamp` and the `Display` of
/// `NaiveDate`: the UTC calendar date of a timestamp, or none where the
/// timestamp lies outside chrono's range.
#[verifier::external_body]
fn utc_date_text(timestamp: i64) -> (r: Option<String>)
    ensures
        match r {
            Some(text) => utc_date_of(timestamp as int) == Some(text@),
            None => utc_date_of(timestamp as int) is None,
        },
{
    match chrono::DateTime::from_timestamp(timestamp, 0) {
        Some(moment) => Some(moment.date_naive().to_string()),
        None => None,
    }
}

/// Why the daily winners could not be aggregated.
pub enum DailyWinnerError {
    /// The kick-off of the finished fixture with this id has no calendar date.
    DateOutOfRange(i32),
}

/// Every finished fixture has a calendar date.
pub open spec fn dates_known(matches: Seq<Match>) -> bool {
    forall|k: int| 0 <= k < matches.len() && is_finished(#[trigger] matches[k]) ==> utc_date_of(matches[k].utc_date as int) is Some
}

/// The calendar date of each finished fixture; unfinished ones get an empty text.
pub open spec fn match_dates(matches: Seq<Match>) -> Seq<Seq<char>> {
    matches.map_values(|m: Match| if is_finished(m) {
        utc_date_of(m.utc_date as int).unwrap()
    } else {
        Seq::empty()
    })
}

/// Aggregates the daily winners of the finished fixtures.
pub struct DailyWinnerService {}

impl DailyWinnerService {
    /// Groups the finished fixtures by UTC calendar date, sums each user's
    /// points per date from `ratings`, and names each date's best users.
    pub fn get_daily_winners(matches: &Vec<Match>, ratings: &Vec<UserRating>) -> (r: Result<DailyWinners, DailyWinnerError>)
        requires
            matches@.len() * ratings@.len() <= u32::MAX,
        ensures
            r is Ok <==> dates_known(matches@),
            match r {
                Ok(w) => is_daily_winners(matches@, match_dates(matches@), ratings@, w),
                Err(DailyWinnerError::DateOutOfRange(id)) => exists|k: int|
                    0 <= k < matches@.len() && is_finished(#[trigger] matches@[k]) && matches@[k].id == id
                        && utc_date_of(matches@[k].utc_date as int) is None,
            },
    {
        let mut dates: Vec<String> = Vec::new();
        let mut k: usize = 0;
        while k < matches.len()
            invariant
                k <= matches@.len(),
                texts_view(dates@) == match_dates(matches@.take(k as int)),
                forall|q: int| 0 <= q < k && is_finished(#[trigger] matches@[q]) ==> utc_date_of(matches@[q].utc_date as int) is Some,
            decreases matches@.len() - k,
        {
            let m = &matches[k];
            let finished = m.status == "FINISHED".to_owned();
            proof {
                reveal_strlit("FINISHED");
            }
            let ghost before = texts_view(dates@);
            let ghost next = if is_finished(*m) {
                utc_date_of(m.utc_date as int).unwrap()
            } else {
                Seq::<char>::empty()
            };
            assert(match_dates(matches@.take(k + 1)) =~= match_dates(matches@.take(k as int)).push(next));
            if finished {
                match utc_date_text(m.utc_date) {
                    Some(text) => {
                        dates.push(text);
                        assert(texts_view(dates@) =~= before.push(next));
                    },
                    None => {
                        return Err(DailyWinnerError::DateOutOfRange(m.id));
                    },
                }
            } else {
                dates.push(String::new());
                assert(texts_view(dates@) =~= before.push(next));
            }
            k = k + 1;
        }
        assert(matches@.take(k as int) =~= matches@);
        Ok(daily_winners_by_date(matches, &dates, ratings))
    }
}

} // verus!
