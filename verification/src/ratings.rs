//! Star ratings of a player, derived from the player's statistics.
use vstd::prelude::*;

verus! {

/// The statistics for a player.
#[derive(Clone, Copy, Debug)]
pub struct Stats {
    /// The number of turns submitted in all seasons by a player
    pub totalTurns: i32,
    /// The number of turns submitted this season by a player
    pub gameTurns: i32,
    /// The number of turns submitted in all seasons for which the player was the MVP
    pub mvps: i32,
    /// The number of consecutive turns submitted by a player
    pub streak: i32,
}

/// The star ratings (1-5) of a player.
#[derive(Clone, Copy, Debug)]
pub struct Ratings {
    /// The rounded-up median of the other ratings
    pub overall: i32,
    /// Stars for the number of turns submitted in all seasons
    pub totalTurns: i32,
    /// Stars for the number of turns submitted this season
    pub gameTurns: i32,
    /// Stars for the number of turns in which the player was the MVP
    pub mvps: i32,
    /// Stars for the number of consecutive turns submitted
    pub streak: i32,
}

/// Thresholds for the total number of turns.
pub open spec fn total_turns_thresholds() -> Seq<i32> {
    seq![0i32, 10, 25, 50, 100]
}

/// Thresholds for the number of turns in the current season.
pub open spec fn game_turns_thresholds() -> Seq<i32> {
    seq![0i32, 5, 10, 25, 40]
}

/// Thresholds for the number of MVPs.
pub open spec fn mvps_thresholds() -> Seq<i32> {
    seq![0i32, 1, 5, 10, 25]
}

/// Thresholds for the streak.
pub open spec fn streak_thresholds() -> Seq<i32> {
    seq![0i32, 3, 5, 10, 25]
}

/// `r` is the length of the longest prefix of `arr` whose entries are all at most `num`.
pub open spec fn is_prefix_count(arr: Seq<i32>, num: i32, r: int) -> bool {
    &&& 0 <= r <= arr.len()
    &&& forall|i: int| 0 <= i < r ==> arr[i] <= num
    &&& (r == arr.len() || arr[r] > num)
}

/// The number of leading thresholds of `arr` that `num` reaches.
pub open spec fn stars_for(arr: Seq<i32>, num: i32) -> int
    decreases arr.len(),
{
    if arr.len() == 0 {
        0
    } else if arr[0] <= num {
        1 + stars_for(arr.drop_first(), num)
    } else {
        0
    }
}

pub open spec fn min2(a: int, b: int) -> int {
    if a <= b { a } else { b }
}

pub open spec fn max2(a: int, b: int) -> int {
    if a >= b { a } else { b }
}

/// The smallest of four values.
pub open spec fn min4(a: int, b: int, c: int, d: int) -> int {
    min2(min2(a, b), min2(c, d))
}

/// The largest of four values.
pub open spec fn max4(a: int, b: int, c: int, d: int) -> int {
    max2(max2(a, b), max2(c, d))
}

/// The median of four values, rounded up: the mean of the two middle values,
/// with a half rounded up.
pub open spec fn median_up4(a: int, b: int, c: int, d: int) -> int {
    (a + b + c + d - min4(a, b, c, d) - max4(a, b, c, d) + 1) / 2
}

/// The ratings that a player with statistics `s` holds.
pub open spec fn ratings_of(s: Stats) -> Ratings {
    let t = stars_for(total_turns_thresholds(), s.totalTurns);
    let g = stars_for(game_turns_thresholds(), s.gameTurns);
    let m = stars_for(mvps_thresholds(), s.mvps);
    let k = stars_for(streak_thresholds(), s.streak);
    Ratings {
        overall: median_up4(t, g, m, k) as i32,
        totalTurns: t as i32,
        gameTurns: g as i32,
        mvps: m as i32,
        streak: k as i32,
    }
}

proof fn lemma_stars_for_is_prefix_count(arr: Seq<i32>, num: i32)
    ensures
        is_prefix_count(arr, num, stars_for(arr, num)),
    decreases arr.len(),
{
    if arr.len() > 0 && arr[0] <= num {
        lemma_stars_for_is_prefix_count(arr.drop_first(), num);
        let r = stars_for(arr, num);
        assert forall|i: int| 0 <= i < r implies arr[i] <= num by {
            if i > 0 {
                assert(arr[i] == arr.drop_first()[i - 1]);
            }
        }
    }
}

proof fn lemma_prefix_count_unique(arr: Seq<i32>, num: i32, r1: int, r2: int)
    requires
        is_prefix_count(arr, num, r1),
        is_prefix_count(arr, num, r2),
    ensures
        r1 == r2,
{
}

impl Ratings {
    /// The ratings of a player with the statistics `stat`: one rating per
    /// statistic, and the rounded-up median of the four as the overall rating.
    pub fn load(stat: &Stats) -> (r: Ratings)
        ensures
            r == ratings_of(*stat),
    {
        let totalTurns = Self::fromarr(stat.totalTurns, [0, 10, 25, 50, 100]);
        let gameTurns = Self::fromarr(stat.gameTurns, [0, 5, 10, 25, 40]);
        let mvps = Self::fromarr(stat.mvps, [0, 1, 5, 10, 25]);
        let streak = Self::fromarr(stat.streak, [0, 3, 5, 10, 25]);
        let lo = min_i32(min_i32(totalTurns, gameTurns), min_i32(mvps, streak));
        let hi = max_i32(max_i32(totalTurns, gameTurns), max_i32(mvps, streak));
        let middle = totalTurns + gameTurns + mvps + streak - lo - hi;
        let overall: i32 = (middle + 1) / 2;
        Ratings { overall, totalTurns, gameTurns, mvps, streak }
    }

    /// The number of leading thresholds in `arr` that `num` reaches: counting
    /// stops at the first threshold above `num`.
    pub fn fromarr(num: i32, arr: [i32; 5]) -> (r: i32)
        ensures
            is_prefix_count(arr@, num, r as int),
            r as int == stars_for(arr@, num),
    {
        let mut r: i32 = 0;
        let mut i: usize = 0;
        while i < 5
            invariant
                0 <= i <= 5,
                r as int == i as int,
                forall|j: int| 0 <= j < i ==> arr@[j] <= num,
            decreases 5 - i,
        {
            if arr[i] <= num {
                r = r + 1;
            } else {
                proof {
                    lemma_stars_for_is_prefix_count(arr@, num);
                    lemma_prefix_count_unique(arr@, num, r as int, stars_for(arr@, num));
                }
                return r;
            }
            i = i + 1;
        }
        proof {
            lemma_stars_for_is_prefix_count(arr@, num);
            lemma_prefix_count_unique(arr@, num, r as int, stars_for(arr@, num));
        }
        r
    }
}

/// The number of stars from a threshold table lies between zero and the size of the table.
pub proof fn lemma_stars_bounded(arr: Seq<i32>, num: i32)
    ensures
        0 <= stars_for(arr, num) <= arr.len(),
    decreases arr.len(),
{
    if arr.len() > 0 && arr[0] <= num {
        lemma_stars_bounded(arr.drop_first(), num);
    }
}

/// With ascending thresholds, a larger statistic never earns fewer stars.
pub proof fn lemma_stars_monotone(arr: Seq<i32>, lo: i32, hi: i32)
    requires
        lo <= hi,
        forall|i: int, j: int| 0 <= i <= j < arr.len() ==> arr[i] <= arr[j],
    ensures
        stars_for(arr, lo) <= stars_for(arr, hi),
    decreases arr.len(),
{
    if arr.len() > 0 && arr[0] <= lo {
        assert forall|i: int, j: int| 0 <= i <= j < arr.drop_first().len() implies
            arr.drop_first()[i] <= arr.drop_first()[j] by {
            assert(arr.drop_first()[i] == arr[i + 1]);
            assert(arr.drop_first()[j] == arr[j + 1]);
        }
        lemma_stars_monotone(arr.drop_first(), lo, hi);
    } else {
        lemma_stars_bounded(arr, hi);
    }
}

/// The overall rating lies between the smallest and the largest of the four ratings.
pub proof fn lemma_overall_is_median(s: Stats)
    ensures
        ({
            let r = ratings_of(s);
            &&& min4(r.totalTurns as int, r.gameTurns as int, r.mvps as int, r.streak as int) <= r.overall
            &&& r.overall <= max4(r.totalTurns as int, r.gameTurns as int, r.mvps as int, r.streak as int)
        }),
{
    lemma_stars_bounded(total_turns_thresholds(), s.totalTurns);
    lemma_stars_bounded(game_turns_thresholds(), s.gameTurns);
    lemma_stars_bounded(mvps_thresholds(), s.mvps);
    lemma_stars_bounded(streak_thresholds(), s.streak);
}

/// A player whose statistics are not negative holds between one and five stars
/// in every rating, the overall rating included.
pub proof fn lemma_ratings_one_to_five(s: Stats)
    requires
        s.totalTurns >= 0,
        s.gameTurns >= 0,
        s.mvps >= 0,
        s.streak >= 0,
    ensures
        ({
            let r = ratings_of(s);
            &&& 1 <= r.overall <= 5
            &&& 1 <= r.totalTurns <= 5
            &&& 1 <= r.gameTurns <= 5
            &&& 1 <= r.mvps <= 5
            &&& 1 <= r.streak <= 5
        }),
{
    lemma_stars_bounded(total_turns_thresholds(), s.totalTurns);
    lemma_stars_bounded(game_turns_thresholds(), s.gameTurns);
    lemma_stars_bounded(mvps_thresholds(), s.mvps);
    lemma_stars_bounded(streak_thresholds(), s.streak);
    lemma_overall_is_median(s);
    assert(total_turns_thresholds()[0] == 0);
    assert(game_turns_thresholds()[0] == 0);
    assert(mvps_thresholds()[0] == 0);
    assert(streak_thresholds()[0] == 0);
    lemma_stars_bounded(total_turns_thresholds().drop_first(), s.totalTurns);
    lemma_stars_bounded(game_turns_thresholds().drop_first(), s.gameTurns);
    lemma_stars_bounded(mvps_thresholds().drop_first(), s.mvps);
    lemma_stars_bounded(streak_thresholds().drop_first(), s.streak);
}

fn min_i32(a: i32, b: i32) -> (r: i32)
    ensures
        r == min2(a as int, b as int),
{
    if a <= b { a } else { b }
}

fn max_i32(a: i32, b: i32) -> (r: i32)
    ensures
        r == max2(a as int, b as int),
{
    if a >= b { a } else { b }
}

impl Stats {
    /// The statistics of a player as stored, a missing count read as zero.
    pub fn from_counts(turns: Option<i32>, game_turns: Option<i32>, mvps: Option<i32>, streak: Option<i32>) -> (r: Stats)
        ensures
            r.totalTurns == (match turns { Some(v) => v, None => 0 }),
            r.gameTurns == (match game_turns { Some(v) => v, None => 0 }),
            r.mvps == (match mvps { Some(v) => v, None => 0 }),
            r.streak == (match streak { Some(v) => v, None => 0 }),
    {
        Stats {
            totalTurns: match turns { Some(v) => v, None => 0 },
            gameTurns: match game_turns { Some(v) => v, None => 0 },
            mvps: match mvps { Some(v) => v, None => 0 },
            streak: match streak { Some(v) => v, None => 0 },
        }
    }
}

/// The overall rating is the mean of the two middle ratings, a half rounded
/// up: with `lo` the lowest and `hi` the highest of the four ratings, the two
/// middle ones add up to the four less `lo` and `hi`.
pub proof fn lemma_overall_middle_two(s: Stats, lo: int, hi: int)
    requires
        ({
            let r = ratings_of(s);
            let (a, b, c, d) = (r.totalTurns as int, r.gameTurns as int, r.mvps as int, r.streak as int);
            &&& (lo == a || lo == b || lo == c || lo == d)
            &&& lo <= a && lo <= b && lo <= c && lo <= d
            &&& (hi == a || hi == b || hi == c || hi == d)
            &&& hi >= a && hi >= b && hi >= c && hi >= d
        }),
    ensures
        ({
            let r = ratings_of(s);
            r.overall == (r.totalTurns + r.gameTurns + r.mvps + r.streak - lo - hi + 1) / 2
        }),
{
    lemma_stars_bounded(total_turns_thresholds(), s.totalTurns);
    lemma_stars_bounded(game_turns_thresholds(), s.gameTurns);
    lemma_stars_bounded(mvps_thresholds(), s.mvps);
    lemma_stars_bounded(streak_thresholds(), s.streak);
}

/// Where three of the four ratings agree, the overall rating is that rating.
pub proof fn lemma_overall_majority(s: Stats, v: int)
    requires
        ({
            let r = ratings_of(s);
            let (a, b, c, d) = (r.totalTurns as int, r.gameTurns as int, r.mvps as int, r.streak as int);
            ||| a == v && b == v && c == v
            ||| a == v && b == v && d == v
            ||| a == v && c == v && d == v
            ||| b == v && c == v && d == v
        }),
    ensures
        ratings_of(s).overall == v,
{
    lemma_stars_bounded(total_turns_thresholds(), s.totalTurns);
    lemma_stars_bounded(game_turns_thresholds(), s.gameTurns);
    lemma_stars_bounded(mvps_thresholds(), s.mvps);
    lemma_stars_bounded(streak_thresholds(), s.streak);
}

} // verus!
