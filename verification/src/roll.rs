//! The nightly roll: it settles who owns each territory after the players'
//! moves of a turn, picks the MVPs, and tallies the statistics of each team.
//!
//! The power of a move is carried here as its rounded value (`power.round()`),
//! which is what the team statistics count, along with whether the unrounded
//! power is above zero, which is what MVP eligibility asks. The weighted draw among several
//! teams on one territory works on the unrounded floating-point powers and is
//! made by the caller; its outcome reaches [`process_territories`] as the
//! victor of each contested territory.
use vstd::prelude::*;
use vstd::std_specs::hash::*;
use std::collections::HashMap;
use crate::rng::random_index;
use crate::arith::{div_toward_zero, trunc_div};

verus! {

broadcast use vstd::std_specs::hash::group_hash_axioms;

/// A move of a player on a territory for the current turn.
#[derive(Clone, Copy, Debug, PartialEq, Eq)]
pub struct PlayerMoves {
    pub id: i32,
    pub user_id: i32,
    pub season: Option<i32>,
    pub day: Option<i32>,
    pub territory: i32,
    pub mvp: bool,
    /// The power of the move, rounded to the nearest integer.
    pub power: i32,
    /// Whether the power of the move, before rounding, is above zero.
    pub positive_power: bool,
    pub stars: i32,
    pub team: i32,
    pub alt_score: i32,
    pub merc: bool,
}

/// The owner of a territory on a given turn.
#[derive(Clone, Debug)]
pub struct TerritoryOwners {
    pub id: i32,
    pub territory_id: i32,
    pub territory_name: Option<String>,
    pub owner_id: i32,
    pub day: i32,
    pub season: i32,
    pub previous_owner_id: i32,
    pub mvp: Option<i32>,
}

/// The owner of a territory for the next turn, as decided by the roll.
#[derive(Clone, Debug)]
pub struct TerritoryOwnersInsert {
    pub territory_id: i32,
    pub territory_name: Option<String>,
    pub owner_id: i32,
    pub day: i32,
    pub season: i32,
    pub previous_owner_id: i32,
    pub mvp: Option<i32>,
}

/// The statistics of one team on one turn.
#[derive(Clone, Copy, Debug, PartialEq, Eq)]
pub struct Stats {
    pub sequence: i32,
    pub season: i32,
    pub day: i32,
    pub team: i32,
    pub rank: i32,
    pub territorycount: i32,
    pub playercount: i32,
    pub merccount: i32,
    pub starpower: i32,
    pub efficiency: i32,
    pub effectivepower: i32,
    pub ones: i32,
    pub twos: i32,
    pub threes: i32,
    pub fours: i32,
    pub fives: i32,
}

/// The strength of one team on one territory on one turn.
///
/// `territory_power` is the sum of the rounded powers of all moves on the
/// territory. On a contested territory (`contested`), the team's own power
/// and its chance of winning are floating-point values computed by the caller.
#[derive(Clone, Copy, Debug, PartialEq, Eq)]
pub struct TerritoryStats {
    pub team: i32,
    pub season: i32,
    pub day: i32,
    pub ones: i32,
    pub twos: i32,
    pub threes: i32,
    pub fours: i32,
    pub fives: i32,
    pub territory: i32,
    pub territory_power: i32,
    pub contested: bool,
}

/// A team as seen by the roll.
#[derive(Clone, Copy, Debug)]
pub struct Team {
    pub number_of_players: i32,
    pub star_power: i32,
    pub victors: bool,
}

/// Moves with an alt score at least this high do not count toward a team's odds.
pub const ALT_SCORE_LIMIT: i32 = 175;

pub open spec fn new_stats(seq: i32, season: i32, day: i32, team: i32) -> Stats {
    Stats {
        sequence: seq,
        season,
        day,
        team,
        rank: 0,
        territorycount: 0,
        playercount: 0,
        merccount: 0,
        starpower: 0,
        efficiency: 0,
        effectivepower: 0,
        ones: 0,
        twos: 0,
        threes: 0,
        fours: 0,
        fives: 0,
    }
}

impl Stats {
    /// Empty statistics of `team` for the given turn.
    pub fn new(seq: i32, season: i32, day: i32, team: i32) -> (r: Stats)
        ensures
            r == new_stats(seq, season, day, team),
    {
        Stats {
            sequence: seq,
            season,
            day,
            team,
            rank: 0,
            territorycount: 0,
            playercount: 0,
            merccount: 0,
            starpower: 0,
            efficiency: 0,
            effectivepower: 0,
            ones: 0,
            twos: 0,
            threes: 0,
            fours: 0,
            fives: 0,
        }
    }
}

// ---------------------------------------------------------------------------
// The teams present on a territory

/// Some move of `tp` was made for `team`.
pub open spec fn has_team(tp: Seq<PlayerMoves>, team: i32) -> bool {
    exists|i: int| 0 <= i < tp.len() && tp[i].team == team
}

/// `teams` lists, in ascending order and once each, the teams of the moves in `tp`.
pub open spec fn is_team_list(tp: Seq<PlayerMoves>, teams: Seq<i32>) -> bool {
    &&& forall|i: int, j: int| 0 <= i < j < teams.len() ==> teams[i] < teams[j]
    &&& forall|t: i32| teams.contains(t) <==> has_team(tp, t)
}

/// The teams of the moves in `tp`, ascending and without repetition.
pub open spec fn team_list(tp: Seq<PlayerMoves>) -> Seq<i32> {
    choose|teams: Seq<i32>| is_team_list(tp, teams)
}

proof fn lemma_sorted_same_contents_equal(a: Seq<i32>, b: Seq<i32>)
    requires
        forall|i: int, j: int| 0 <= i < j < a.len() ==> a[i] < a[j],
        forall|i: int, j: int| 0 <= i < j < b.len() ==> b[i] < b[j],
        forall|t: i32| a.contains(t) <==> b.contains(t),
    ensures
        a == b,
    decreases a.len() + b.len(),
{
    if a.len() == 0 {
        if b.len() > 0 {
            assert(b.contains(b[0]));
        }
        assert(a =~= b);
    } else if b.len() == 0 {
        assert(a.contains(a[0]));
    } else {
        assert(a.contains(a[0]));
        assert(b.contains(b[0]));
        let ja = choose|j: int| 0 <= j < a.len() && a[j] == b[0];
        let jb = choose|j: int| 0 <= j < b.len() && b[j] == a[0];
        assert(a[0] == b[0]) by {
            if a[0] < b[0] {
                assert(jb > 0);
                assert(b[0] < b[jb]);
            } else if a[0] > b[0] {
                assert(ja > 0);
                assert(a[0] < a[ja]);
            }
        }
        let a1 = a.drop_first();
        let b1 = b.drop_first();
        assert forall|t: i32| a1.contains(t) <==> b1.contains(t) by {
            if a1.contains(t) {
                let k = choose|k: int| 0 <= k < a1.len() && a1[k] == t;
                assert(a[k + 1] == t);
                assert(a[0] < t);
                assert(a.contains(t));
                let m = choose|m: int| 0 <= m < b.len() && b[m] == t;
                assert(m != 0);
                assert(b1[m - 1] == t);
            }
            if b1.contains(t) {
                let k = choose|k: int| 0 <= k < b1.len() && b1[k] == t;
                assert(b[k + 1] == t);
                assert(b[0] < t);
                assert(b.contains(t));
                let m = choose|m: int| 0 <= m < a.len() && a[m] == t;
                assert(m != 0);
                assert(a1[m - 1] == t);
            }
        }
        lemma_sorted_same_contents_equal(a1, b1);
        assert(a =~= b) by {
            assert forall|i: int| 0 <= i < a.len() implies a[i] == b[i] by {
                if i > 0 {
                    assert(a[i] == a1[i - 1]);
                    assert(b[i] == b1[i - 1]);
                }
            }
        }
    }
}

/// A list of the teams of `tp` is the list [`team_list`] names.
pub proof fn lemma_team_list_unique(tp: Seq<PlayerMoves>, teams: Seq<i32>)
    requires
        is_team_list(tp, teams),
    ensures
        team_list(tp) == teams,
{
    let other = team_list(tp);
    assert(is_team_list(tp, other));
    lemma_sorted_same_contents_equal(other, teams);
}

/// The distinct teams of the moves `territory_players`, in ascending order.
pub fn getteams(territory_players: &Vec<PlayerMoves>) -> (teams: Vec<i32>)
    ensures
        is_team_list(territory_players@, teams@),
        teams@ == team_list(territory_players@),
{
    let mut teams: Vec<i32> = Vec::new();
    let mut i: usize = 0;
    while i < territory_players.len()
        invariant
            0 <= i <= territory_players.len(),
            is_team_list(territory_players@.take(i as int), teams@),
        decreases territory_players.len() - i,
    {
        let t = territory_players[i].team;
        let ghost before = teams@;
        let ghost pre = territory_players@.take(i as int);
        let ghost post = territory_players@.take(i as int + 1);
        assert(post =~= pre.push(territory_players@[i as int]));
        // find the first position whose team is not below `t`
        let mut k: usize = 0;
        while k < teams.len() && teams[k] < t
            invariant
                0 <= k <= teams.len(),
                teams@ == before,
                forall|j: int| 0 <= j < k ==> teams@[j] < t,
            decreases teams.len() - k,
        {
            k = k + 1;
        }
        if k < teams.len() && teams[k] == t {
            assert forall|x: i32| teams@.contains(x) <==> has_team(post, x) by {
                if has_team(post, x) {
                    let j = choose|j: int| 0 <= j < post.len() && post[j].team == x;
                    if j < pre.len() {
                        assert(pre[j].team == x);
                        assert(has_team(pre, x));
                    } else {
                        assert(teams@[k as int] == x);
                    }
                }
                if teams@.contains(x) {
                    assert(has_team(pre, x));
                    let j = choose|j: int| 0 <= j < pre.len() && pre[j].team == x;
                    assert(post[j].team == x);
                }
            }
        } else {
            teams.insert(k, t);
            assert forall|a: int, b: int| 0 <= a < b < teams@.len() implies teams@[a] < teams@[b] by {
                if b < k {
                } else if a < k && b == k {
                } else if a < k && b > k {
                    assert(teams@[b] == before[b - 1]);
                    assert(before[k as int] >= t);
                    if b - 1 > k {
                        assert(before[k as int] < before[b - 1]);
                    }
                } else if a == k {
                    assert(teams@[b] == before[b - 1]);
                    assert(before[k as int] > t);
                    if b - 1 > k {
                        assert(before[k as int] < before[b - 1]);
                    }
                } else {
                    assert(teams@[a] == before[a - 1]);
                    assert(teams@[b] == before[b - 1]);
                }
            }
            assert forall|x: i32| teams@.contains(x) <==> has_team(post, x) by {
                if has_team(post, x) {
                    let j = choose|j: int| 0 <= j < post.len() && post[j].team == x;
                    if j < pre.len() {
                        assert(pre[j].team == x);
                        assert(has_team(pre, x));
                        assert(before.contains(x));
                        let m = choose|m: int| 0 <= m < before.len() && before[m] == x;
                        if m < k {
                            assert(teams@[m] == x);
                        } else {
                            assert(teams@[m + 1] == x);
                        }
                    } else {
                        assert(teams@[k as int] == x);
                    }
                }
                if teams@.contains(x) {
                    let m = choose|m: int| 0 <= m < teams@.len() && teams@[m] == x;
                    if m == k {
                        assert(post[i as int].team == x);
                    } else {
                        if m < k {
                            assert(before[m] == x);
                        } else {
                            assert(before[m - 1] == x);
                        }
                        assert(before.contains(x));
                        let j = choose|j: int| 0 <= j < pre.len() && pre[j].team == x;
                        assert(post[j].team == x);
                    }
                }
            }
        }
        i = i + 1;
    }
    assert(territory_players@.take(territory_players.len() as int) =~= territory_players@);
    proof {
        lemma_team_list_unique(territory_players@, teams@);
    }
    teams
}

// ---------------------------------------------------------------------------
// The moves of one territory

/// The moves of `s` made on territory `t`, in their order.
pub open spec fn on_territory(s: Seq<PlayerMoves>, t: i32) -> Seq<PlayerMoves>
    decreases s.len(),
{
    if s.len() == 0 {
        s
    } else if s.last().territory == t {
        on_territory(s.drop_last(), t).push(s.last())
    } else {
        on_territory(s.drop_last(), t)
    }
}

/// The moves of `s` made elsewhere than on territory `t`, in their order.
pub open spec fn off_territory(s: Seq<PlayerMoves>, t: i32) -> Seq<PlayerMoves>
    decreases s.len(),
{
    if s.len() == 0 {
        s
    } else if s.last().territory != t {
        off_territory(s.drop_last(), t).push(s.last())
    } else {
        off_territory(s.drop_last(), t)
    }
}

/// Takes the moves on territory `territory` out of `players`: returns them,
/// in their order, and the moves that are left, in theirs.
pub fn drain_territory(players: Vec<PlayerMoves>, territory: i32) -> (r: (Vec<PlayerMoves>, Vec<PlayerMoves>))
    ensures
        r.0@ == on_territory(players@, territory),
        r.1@ == off_territory(players@, territory),
{
    let mut taken: Vec<PlayerMoves> = Vec::new();
    let mut left: Vec<PlayerMoves> = Vec::new();
    let mut i: usize = 0;
    while i < players.len()
        invariant
            0 <= i <= players.len(),
            taken@ == on_territory(players@.take(i as int), territory),
            left@ == off_territory(players@.take(i as int), territory),
        decreases players.len() - i,
    {
        let p = players[i];
        assert(players@.take(i as int + 1).drop_last() =~= players@.take(i as int));
        if p.territory == territory {
            taken.push(p);
        } else {
            left.push(p);
        }
        i = i + 1;
    }
    assert(players@.take(players.len() as int) =~= players@);
    (taken, left)
}

// ---------------------------------------------------------------------------
// Team statistics of the players of a territory

pub open spec fn abs(x: int) -> int {
    if x < 0 { -x } else { x }
}

/// The season of a move, zero where it has none.
pub open spec fn season_of(p: PlayerMoves) -> i32 {
    match p.season {
        Some(s) => s,
        None => 0,
    }
}

/// The day of a move, zero where it has none.
pub open spec fn day_of(p: PlayerMoves) -> i32 {
    match p.day {
        Some(d) => d,
        None => 0,
    }
}

/// The sequence number that a team's statistics get when a move creates them.
pub open spec fn move_sequence(p: PlayerMoves) -> int {
    season_of(p) * 1000 + day_of(p) + 1
}

/// The statistics that a move of a team without statistics yet starts from.
pub open spec fn move_init(p: PlayerMoves) -> Stats {
    new_stats(move_sequence(p) as i32, season_of(p), day_of(p), p.team)
}

/// `st` after counting the move `p`: one mercenary more if it is a
/// mercenary's move, one player more otherwise (the player count leaves
/// mercenaries out), its stars added to the star power and to the count of
/// its star class (classes other than 2 to 5 count as one star), and its
/// rounded power added to the effective power.
pub open spec fn count_move(st: Stats, p: PlayerMoves) -> Stats {
    Stats {
        playercount: if p.merc { st.playercount } else { (st.playercount + 1) as i32 },
        starpower: (st.starpower + p.stars) as i32,
        effectivepower: (st.effectivepower + p.power) as i32,
        merccount: if p.merc { (st.merccount + 1) as i32 } else { st.merccount },
        ones: if p.stars != 2 && p.stars != 3 && p.stars != 4 && p.stars != 5 { (st.ones + 1) as i32 } else { st.ones },
        twos: if p.stars == 2 { (st.twos + 1) as i32 } else { st.twos },
        threes: if p.stars == 3 { (st.threes + 1) as i32 } else { st.threes },
        fours: if p.stars == 4 { (st.fours + 1) as i32 } else { st.fours },
        fives: if p.stars == 5 { (st.fives + 1) as i32 } else { st.fives },
        ..st
    }
}

/// The entry of `key` in `m`, or `init` where there is none.
pub open spec fn entry_or(m: Map<i32, Stats>, key: i32, init: Stats) -> Stats {
    if m.contains_key(key) { m[key] } else { init }
}

/// The table `m` after counting the moves `tp`, one after the other, each in
/// the entry of its own team.
pub open spec fn count_moves(m: Map<i32, Stats>, tp: Seq<PlayerMoves>) -> Map<i32, Stats>
    decreases tp.len(),
{
    if tp.len() == 0 {
        m
    } else {
        let m1 = count_moves(m, tp.drop_last());
        let p = tp.last();
        m1.insert(p.team, count_move(entry_or(m1, p.team, move_init(p)), p))
    }
}

/// Every count of `st` is at most `c` in magnitude.
pub open spec fn stats_within(st: Stats, c: int) -> bool {
    &&& abs(st.territorycount as int) <= c
    &&& abs(st.playercount as int) <= c
    &&& abs(st.merccount as int) <= c
    &&& abs(st.starpower as int) <= c
    &&& abs(st.effectivepower as int) <= c
    &&& abs(st.ones as int) <= c
    &&& abs(st.twos as int) <= c
    &&& abs(st.threes as int) <= c
    &&& abs(st.fours as int) <= c
    &&& abs(st.fives as int) <= c
}

/// Every entry of `m` has its counts at most `c` in magnitude.
pub open spec fn table_within(m: Map<i32, Stats>, c: int) -> bool {
    forall|k: i32| m.contains_key(k) ==> stats_within(#[trigger] m[k], c)
}

/// What a move can add to a count of its team's statistics.
pub open spec fn move_weight(p: PlayerMoves) -> int {
    1 + abs(p.stars as int) + abs(p.power as int)
}

/// The sum of [`move_weight`] over `s`.
pub open spec fn moves_weight(s: Seq<PlayerMoves>) -> int
    decreases s.len(),
{
    if s.len() == 0 {
        0
    } else {
        moves_weight(s.drop_last()) + move_weight(s.last())
    }
}

/// The sequence number of the statistics a move creates, and each step of
/// computing it, fits in an `i32`.
pub open spec fn move_sequence_fits(p: PlayerMoves) -> bool {
    &&& i32::MIN <= season_of(p) * 1000 <= i32::MAX
    &&& i32::MIN <= season_of(p) * 1000 + day_of(p) <= i32::MAX
    &&& i32::MIN <= move_sequence(p) <= i32::MAX
}

proof fn lemma_moves_weight_nonneg(s: Seq<PlayerMoves>)
    ensures
        moves_weight(s) >= 0,
    decreases s.len(),
{
    if s.len() > 0 {
        lemma_moves_weight_nonneg(s.drop_last());
    }
}

/// Counting the moves `tp` into the table `m` keeps every count within an
/// `i32`: some bound on the counts of `m`, raised by what the moves can add,
/// stays within it.
pub open spec fn counts_fit(m: Map<i32, Stats>, tp: Seq<PlayerMoves>) -> bool {
    exists|c: int| c >= 0 && #[trigger] table_within(m, c) && c + moves_weight(tp) <= i32::MAX
}

/// Counting moves raises the counts of the table by at most their weight.
pub proof fn lemma_count_moves_within(m: Map<i32, Stats>, tp: Seq<PlayerMoves>, c: int)
    requires
        c >= 0,
        table_within(m, c),
        c + moves_weight(tp) <= i32::MAX,
    ensures
        table_within(count_moves(m, tp), c + moves_weight(tp)),
    decreases tp.len(),
{
    if tp.len() > 0 {
        let pre = tp.drop_last();
        let p = tp.last();
        lemma_moves_weight_nonneg(pre);
        lemma_count_moves_within(m, pre, c);
        let m1 = count_moves(m, pre);
        let bound = c + moves_weight(pre);
        let cur = entry_or(m1, p.team, move_init(p));
        assert(stats_within(cur, bound));
        let next = count_move(cur, p);
        assert(stats_within(next, bound + move_weight(p)));
        assert forall|k: i32| count_moves(m, tp).contains_key(k) implies stats_within(#[trigger] count_moves(m, tp)[k], c + moves_weight(tp)) by {
            if k != p.team {
                assert(stats_within(m1[k], bound));
            }
        }
    }
}

/// Counts the moves `territory_players` in the statistics of their teams,
/// creating the statistics of a team at its first move.
pub fn handleteamstats(stats: &mut HashMap<i32, Stats>, territory_players: Vec<PlayerMoves>)
    requires
        counts_fit(old(stats)@, territory_players@),
        forall|i: int| 0 <= i < territory_players@.len() ==> move_sequence_fits(#[trigger] territory_players@[i]),
    ensures
        final(stats)@ == count_moves(old(stats)@, territory_players@),
{
    let ghost start = stats@;
    let ghost c = choose|c: int| c >= 0 && #[trigger] table_within(start, c) && c + moves_weight(territory_players@) <= i32::MAX;
    let mut i: usize = 0;
    proof {
        lemma_moves_weight_nonneg(territory_players@);
    }
    while i < territory_players.len()
        invariant
            0 <= i <= territory_players.len(),
            c >= 0,
            table_within(start, c),
            stats@ == count_moves(start, territory_players@.take(i as int)),
            c + moves_weight(territory_players@) <= i32::MAX,
            forall|j: int| 0 <= j < territory_players@.len() ==> move_sequence_fits(#[trigger] territory_players@[j]),
        decreases territory_players.len() - i,
    {
        let p = territory_players[i];
        let ghost pre = territory_players@.take(i as int);
        let ghost post = territory_players@.take(i as int + 1);
        assert(post.drop_last() =~= pre);
        assert(post.last() == p);
        proof {
            lemma_moves_weight_prefix(territory_players@, i as int + 1);
            lemma_moves_weight_nonneg(pre);
            lemma_count_moves_within(start, pre, c);
        }
        let ghost bound = c + moves_weight(pre);
        let cur: Stats = match stats.get(&p.team) {
            Some(st) => *st,
            None => {
                assert(move_sequence_fits(territory_players@[i as int]));
                let season: i32 = match p.season { Some(s) => s, None => 0 };
                let day: i32 = match p.day { Some(d) => d, None => 0 };
                assert(season == season_of(p) && day == day_of(p));
                Stats::new(season * 1000 + day + 1, season, day, p.team)
            },
        };
        assert(cur == entry_or(stats@, p.team, move_init(p)));
        assert(stats_within(cur, bound));
        let mut next = cur;
        next.starpower = cur.starpower + p.stars;
        next.effectivepower = cur.effectivepower + p.power;
        if p.merc == true {
            next.merccount = cur.merccount + 1;
        } else {
            next.playercount = cur.playercount + 1;
        }
        if p.stars == 2 {
            next.twos = cur.twos + 1;
        } else if p.stars == 3 {
            next.threes = cur.threes + 1;
        } else if p.stars == 4 {
            next.fours = cur.fours + 1;
        } else if p.stars == 5 {
            next.fives = cur.fives + 1;
        } else {
            next.ones = cur.ones + 1;
        }
        assert(next == count_move(cur, p));
        stats.insert(p.team, next);
        assert(stats@ =~= count_moves(start, post));
        i = i + 1;
    }
    assert(territory_players@.take(territory_players.len() as int) =~= territory_players@);
}

/// The weight of a prefix is at most the weight of the whole.
proof fn lemma_moves_weight_prefix(s: Seq<PlayerMoves>, n: int)
    requires
        0 <= n <= s.len(),
    ensures
        moves_weight(s.take(n)) <= moves_weight(s),
    decreases s.len() - n,
{
    if n < s.len() {
        lemma_moves_weight_prefix(s, n + 1);
        assert(s.take(n + 1).drop_last() =~= s.take(n));
    } else {
        assert(s.take(n) =~= s);
    }
}

// ---------------------------------------------------------------------------
// Counting helpers

/// The sum of the rounded powers of `s`.
pub open spec fn power_sum(s: Seq<PlayerMoves>) -> int
    decreases s.len(),
{
    if s.len() == 0 { 0 } else { power_sum(s.drop_last()) + s.last().power }
}

/// The sum of the magnitudes of the rounded powers of `s`.
pub open spec fn abs_power_sum(s: Seq<PlayerMoves>) -> int
    decreases s.len(),
{
    if s.len() == 0 { 0 } else { abs_power_sum(s.drop_last()) + abs(s.last().power as int) }
}

/// The number of moves of `s` with exactly `k` stars.
pub open spec fn stars_count(s: Seq<PlayerMoves>, k: i32) -> int
    decreases s.len(),
{
    if s.len() == 0 {
        0
    } else {
        stars_count(s.drop_last(), k) + if s.last().stars == k { 1int } else { 0int }
    }
}

/// The number of moves of `s` for `team` with exactly `k` stars whose alt
/// score stays below [`ALT_SCORE_LIMIT`].
pub open spec fn class_count(s: Seq<PlayerMoves>, team: i32, k: i32) -> int
    decreases s.len(),
{
    if s.len() == 0 {
        0
    } else {
        let p = s.last();
        class_count(s.drop_last(), team, k)
            + if p.team == team && p.alt_score < ALT_SCORE_LIMIT && p.stars == k { 1int } else { 0int }
    }
}

/// The moves of `s` made for `team`, in their order.
pub open spec fn on_team(s: Seq<PlayerMoves>, team: i32) -> Seq<PlayerMoves>
    decreases s.len(),
{
    if s.len() == 0 {
        s
    } else if s.last().team == team {
        on_team(s.drop_last(), team).push(s.last())
    } else {
        on_team(s.drop_last(), team)
    }
}

proof fn lemma_abs_power_sum(s: Seq<PlayerMoves>)
    ensures
        abs_power_sum(s) >= 0,
        abs(power_sum(s)) <= abs_power_sum(s),
    decreases s.len(),
{
    if s.len() > 0 {
        lemma_abs_power_sum(s.drop_last());
    }
}

proof fn lemma_counts_bounded(s: Seq<PlayerMoves>, team: i32, k: i32)
    ensures
        0 <= stars_count(s, k) <= s.len(),
        0 <= class_count(s, team, k) <= s.len(),
    decreases s.len(),
{
    if s.len() > 0 {
        lemma_counts_bounded(s.drop_last(), team, k);
    }
}

proof fn lemma_moves_weight_len(s: Seq<PlayerMoves>)
    ensures
        s.len() <= moves_weight(s),
    decreases s.len(),
{
    if s.len() > 0 {
        lemma_moves_weight_len(s.drop_last());
    }
}

/// The sum of the rounded powers of `moves`.
pub fn sum_power(moves: &Vec<PlayerMoves>) -> (r: i32)
    requires
        abs_power_sum(moves@) <= i32::MAX,
    ensures
        r == power_sum(moves@),
{
    let mut total: i32 = 0;
    let mut i: usize = 0;
    while i < moves.len()
        invariant
            0 <= i <= moves.len(),
            total == power_sum(moves@.take(i as int)),
            abs_power_sum(moves@) <= i32::MAX,
        decreases moves.len() - i,
    {
        let ghost post = moves@.take(i as int + 1);
        assert(post.drop_last() =~= moves@.take(i as int));
        proof {
            lemma_abs_power_sum(post);
            lemma_abs_power_sum_prefix(moves@, i as int + 1);
        }
        total = total + moves[i].power;
        i = i + 1;
    }
    assert(moves@.take(moves.len() as int) =~= moves@);
    total
}

proof fn lemma_abs_power_sum_prefix(s: Seq<PlayerMoves>, n: int)
    requires
        0 <= n <= s.len(),
    ensures
        abs_power_sum(s.take(n)) <= abs_power_sum(s),
    decreases s.len() - n,
{
    if n < s.len() {
        lemma_abs_power_sum_prefix(s, n + 1);
        assert(s.take(n + 1).drop_last() =~= s.take(n));
    } else {
        assert(s.take(n) =~= s);
    }
}

/// The number of moves in `moves` with exactly `k` stars.
pub fn count_stars(moves: &Vec<PlayerMoves>, k: i32) -> (r: i32)
    requires
        moves@.len() <= i32::MAX,
    ensures
        r == stars_count(moves@, k),
{
    let mut n: i32 = 0;
    let mut i: usize = 0;
    while i < moves.len()
        invariant
            0 <= i <= moves.len(),
            moves@.len() <= i32::MAX,
            n == stars_count(moves@.take(i as int), k),
        decreases moves.len() - i,
    {
        let ghost post = moves@.take(i as int + 1);
        assert(post.drop_last() =~= moves@.take(i as int));
        proof {
            lemma_counts_bounded(moves@.take(i as int), 0, k);
        }
        if moves[i].stars == k {
            n = n + 1;
        }
        i = i + 1;
    }
    assert(moves@.take(moves.len() as int) =~= moves@);
    n
}

/// The number of moves in `moves` for `team` with exactly `k` stars whose alt
/// score stays below [`ALT_SCORE_LIMIT`].
pub fn count_class(moves: &Vec<PlayerMoves>, team: i32, k: i32) -> (r: i32)
    requires
        moves@.len() <= i32::MAX,
    ensures
        r == class_count(moves@, team, k),
{
    let mut n: i32 = 0;
    let mut i: usize = 0;
    while i < moves.len()
        invariant
            0 <= i <= moves.len(),
            moves@.len() <= i32::MAX,
            n == class_count(moves@.take(i as int), team, k),
        decreases moves.len() - i,
    {
        let ghost post = moves@.take(i as int + 1);
        assert(post.drop_last() =~= moves@.take(i as int));
        proof {
            lemma_counts_bounded(moves@.take(i as int), team, k);
        }
        let p = moves[i];
        if p.team == team && p.alt_score < ALT_SCORE_LIMIT && p.stars == k {
            n = n + 1;
        }
        i = i + 1;
    }
    assert(moves@.take(moves.len() as int) =~= moves@);
    n
}

/// The moves in `moves` made for `team`, in their order.
pub fn moves_of_team(moves: &Vec<PlayerMoves>, team: i32) -> (r: Vec<PlayerMoves>)
    ensures
        r@ == on_team(moves@, team),
{
    let mut out: Vec<PlayerMoves> = Vec::new();
    let mut i: usize = 0;
    while i < moves.len()
        invariant
            0 <= i <= moves.len(),
            out@ == on_team(moves@.take(i as int), team),
        decreases moves.len() - i,
    {
        assert(moves@.take(i as int + 1).drop_last() =~= moves@.take(i as int));
        let p = moves[i];
        if p.team == team {
            out.push(p);
        }
        i = i + 1;
    }
    assert(moves@.take(moves.len() as int) =~= moves@);
    out
}

/// A copy of `moves`.
fn copy_moves(moves: &Vec<PlayerMoves>) -> (r: Vec<PlayerMoves>)
    ensures
        r@ == moves@,
{
    let mut out: Vec<PlayerMoves> = Vec::new();
    let mut i: usize = 0;
    while i < moves.len()
        invariant
            0 <= i <= moves.len(),
            out@ == moves@.take(i as int),
        decreases moves.len() - i,
    {
        out.push(moves[i]);
        i = i + 1;
        assert(out@ =~= moves@.take(i as int));
    }
    assert(moves@.take(moves.len() as int) =~= moves@);
    out
}

proof fn lemma_on_team_nonempty(s: Seq<PlayerMoves>, team: i32)
    requires
        has_team(s, team),
    ensures
        on_team(s, team).len() > 0,
    decreases s.len(),
{
    if s.last().team != team {
        let j = choose|j: int| 0 <= j < s.len() && s[j].team == team;
        assert(s.drop_last()[j].team == team);
        lemma_on_team_nonempty(s.drop_last(), team);
    }
}

// ---------------------------------------------------------------------------
// The MVP of a territory

/// `k` is an index that the MVP draw can give among `len` moves: the only
/// move when there is one, otherwise any move but the first.
pub open spec fn valid_pick(len: int, k: int) -> bool {
    if len == 1 { k == 0 } else { 1 <= k < len }
}

/// A move that may make its player MVP: its power (before rounding) is above
/// zero, and its alt score stays below [`ALT_SCORE_LIMIT`] (the player was
/// not flagged as an alt for the turn).
pub open spec fn mvp_eligible(p: PlayerMoves) -> bool {
    p.alt_score < ALT_SCORE_LIMIT && p.positive_power
}

/// The moves of `s` that may make their player MVP, in their order.
pub open spec fn eligible_moves(s: Seq<PlayerMoves>) -> Seq<PlayerMoves>
    decreases s.len(),
{
    if s.len() == 0 {
        s
    } else if mvp_eligible(s.last()) {
        eligible_moves(s.drop_last()).push(s.last())
    } else {
        eligible_moves(s.drop_last())
    }
}

/// The moves of `moves` that may make their player MVP, in their order.
pub fn mvp_candidates(moves: &Vec<PlayerMoves>) -> (r: Vec<PlayerMoves>)
    ensures
        r@ == eligible_moves(moves@),
{
    let mut out: Vec<PlayerMoves> = Vec::new();
    let mut i: usize = 0;
    while i < moves.len()
        invariant
            0 <= i <= moves.len(),
            out@ == eligible_moves(moves@.take(i as int)),
        decreases moves.len() - i,
    {
        let p = moves[i];
        assert(moves@.take(i as int + 1).drop_last() =~= moves@.take(i as int));
        if p.alt_score < ALT_SCORE_LIMIT && p.positive_power {
            out.push(p);
        }
        i = i + 1;
    }
    assert(moves@.take(moves.len() as int) =~= moves@);
    out
}

/// Draws the MVP among the moves `territory_players` that may make their
/// player MVP (see [`mvp_eligible`]): the only one when there is one,
/// otherwise one drawn at random among all of them but the first; none when
/// no move qualifies.
pub fn getmvp(territory_players: Vec<PlayerMoves>) -> (mvp: Option<PlayerMoves>)
    ensures
        eligible_moves(territory_players@).len() == 0 ==> mvp is None,
        eligible_moves(territory_players@).len() > 0 ==> exists|k: int|
            valid_pick(eligible_moves(territory_players@).len() as int, k)
            && mvp == Some(#[trigger] eligible_moves(territory_players@)[k]),
{
    let pool = mvp_candidates(&territory_players);
    if pool.len() == 0 {
        return None;
    }
    let k: usize = if pool.len() == 1 {
        0
    } else {
        random_index(1, pool.len())
    };
    assert(valid_pick(pool@.len() as int, k as int));
    Some(pool[k])
}

// ---------------------------------------------------------------------------
// Settling the territories

/// The moves not yet taken when the roll reaches territory `i` of `ts`: each
/// territory before it has taken the moves made on it.
pub open spec fn remaining_moves(ts: Seq<TerritoryOwners>, ps: Seq<PlayerMoves>, i: int) -> Seq<PlayerMoves>
    decreases i,
{
    if i <= 0 {
        ps
    } else {
        off_territory(remaining_moves(ts, ps, i - 1), ts[i - 1].territory_id)
    }
}

/// The moves that territory `i` of `ts` takes: those made on it and not taken
/// by an earlier entry for the same territory.
pub open spec fn territory_moves(ts: Seq<TerritoryOwners>, ps: Seq<PlayerMoves>, i: int) -> Seq<PlayerMoves> {
    on_territory(remaining_moves(ts, ps, i), ts[i].territory_id)
}

/// The sequence number that a team's statistics get when a territory creates them.
pub open spec fn territory_sequence(t: TerritoryOwners) -> int {
    t.season * 1000 + t.season + 1
}

/// The statistics that `team` starts from when territory `t` creates them.
pub open spec fn territory_init(t: TerritoryOwners, team: i32) -> Stats {
    new_stats(territory_sequence(t) as i32, t.season, t.day, team)
}

/// The table `m` after the entry of `key` (created from `init` where missing)
/// is credited with one territory and `add` more star power.
pub open spec fn credited(m: Map<i32, Stats>, key: i32, init: Stats, add: int) -> Map<i32, Stats> {
    let e = entry_or(m, key, init);
    m.insert(key, Stats { territorycount: (e.territorycount + 1) as i32, starpower: (e.starpower + add) as i32, ..e })
}

/// The winning team of territory `t` with the moves `tp` on it and the teams
/// `teams`: its owner when nobody moved, the only team when one team moved,
/// and `victor` when several teams moved.
pub open spec fn winner(t: TerritoryOwners, teams: Seq<i32>, victor: i32) -> i32 {
    if teams.len() == 0 {
        t.owner_id
    } else if teams.len() == 1 {
        teams[0]
    } else {
        victor
    }
}

/// The moves of a territory's winner: all of them when one team moved on it.
pub open spec fn winner_moves(tp: Seq<PlayerMoves>, teams: Seq<i32>, victor: i32) -> Seq<PlayerMoves> {
    if teams.len() == 1 { tp } else { on_team(tp, victor) }
}

/// The new ownership of territory `t`, with `mvp` as its MVP.
pub open spec fn owner_row(t: TerritoryOwners, owner: i32, mvp: Option<i32>) -> TerritoryOwnersInsert {
    TerritoryOwnersInsert {
        territory_id: t.territory_id,
        territory_name: None,
        owner_id: owner,
        day: (t.day + 1) as i32,
        season: t.season,
        previous_owner_id: t.owner_id,
        mvp,
    }
}

/// The moves among which the MVP of a territory is drawn: those of its winner
/// that may make their player MVP.
pub open spec fn mvp_pool(tp: Seq<PlayerMoves>, teams: Seq<i32>, victor: i32) -> Seq<PlayerMoves> {
    eligible_moves(winner_moves(tp, teams, victor))
}

/// The new ownership of territory `t` after the moves `tp`, the MVP being the
/// move at index `pick` of the [`mvp_pool`] (user `0` when nobody moved or no
/// move of the winner qualifies).
pub open spec fn settle_owner(t: TerritoryOwners, tp: Seq<PlayerMoves>, victor: i32, pick: int) -> TerritoryOwnersInsert {
    let teams = team_list(tp);
    if teams.len() == 0 {
        owner_row(t, t.owner_id, Some(0))
    } else if mvp_pool(tp, teams, victor).len() == 0 {
        owner_row(t, winner(t, teams, victor), Some(0))
    } else {
        owner_row(t, winner(t, teams, victor), Some(mvp_pool(tp, teams, victor)[pick].user_id))
    }
}

/// The row of a territory that at most one team moved on. Its team is the
/// territory's winner: the team that moved on it, or its owner when nobody did.
pub open spec fn uncontested_row(t: TerritoryOwners, tp: Seq<PlayerMoves>) -> TerritoryStats {
    TerritoryStats {
        team: if team_list(tp).len() == 1 { team_list(tp)[0] } else { t.owner_id },
        season: t.season,
        day: t.day,
        ones: stars_count(tp, 1) as i32,
        twos: stars_count(tp, 2) as i32,
        threes: stars_count(tp, 3) as i32,
        fours: stars_count(tp, 4) as i32,
        fives: stars_count(tp, 5) as i32,
        territory: t.territory_id,
        territory_power: power_sum(tp) as i32,
        contested: false,
    }
}

/// The row of `team` on a territory that several teams moved on. Its star
/// classes count the team's moves whose alt score stays below the limit.
pub open spec fn contested_row(t: TerritoryOwners, tp: Seq<PlayerMoves>, team: i32) -> TerritoryStats {
    TerritoryStats {
        team,
        season: t.season,
        day: t.day,
        ones: class_count(tp, team, 1) as i32,
        twos: class_count(tp, team, 2) as i32,
        threes: class_count(tp, team, 3) as i32,
        fours: class_count(tp, team, 4) as i32,
        fives: class_count(tp, team, 5) as i32,
        territory: t.territory_id,
        territory_power: power_sum(tp) as i32,
        contested: true,
    }
}

/// The rows of territory `t` with the moves `tp`: one per team, in ascending
/// team order, when several teams moved; a single row otherwise.
pub open spec fn territory_rows(t: TerritoryOwners, tp: Seq<PlayerMoves>) -> Seq<TerritoryStats> {
    let teams = team_list(tp);
    if teams.len() >= 2 {
        Seq::new(teams.len(), |j: int| contested_row(t, tp, teams[j]))
    } else {
        seq![uncontested_row(t, tp)]
    }
}

/// The team statistics `m` after territory `t` with the moves `tp` is settled:
/// the winner is credited with the territory (on a territory that one team
/// moved on, along with the rounded power of the moves), then every move is
/// counted for its team.
pub open spec fn settle_stats(m: Map<i32, Stats>, t: TerritoryOwners, tp: Seq<PlayerMoves>, victor: i32) -> Map<i32, Stats> {
    let teams = team_list(tp);
    if teams.len() == 0 {
        credited(m, t.owner_id, territory_init(t, t.owner_id), 0)
    } else if teams.len() == 1 {
        count_moves(credited(m, teams[0], territory_init(t, teams[0]), power_sum(tp)), tp)
    } else {
        count_moves(credited(m, victor, territory_init(t, victor), 0), tp)
    }
}

/// The team statistics after the first `n` territories.
pub open spec fn stats_upto(ts: Seq<TerritoryOwners>, ps: Seq<PlayerMoves>, victors: Seq<i32>, n: int) -> Map<i32, Stats>
    decreases n,
{
    if n <= 0 {
        Map::empty()
    } else {
        settle_stats(stats_upto(ts, ps, victors, n - 1), ts[n - 1], territory_moves(ts, ps, n - 1), victors[n - 1])
    }
}

/// The territory rows of the first `n` territories.
pub open spec fn rows_upto(ts: Seq<TerritoryOwners>, ps: Seq<PlayerMoves>, n: int) -> Seq<TerritoryStats>
    decreases n,
{
    if n <= 0 {
        Seq::empty()
    } else {
        rows_upto(ts, ps, n - 1) + territory_rows(ts[n - 1], territory_moves(ts, ps, n - 1))
    }
}

/// The new ownerships of the first `n` territories, with MVP draws `picks`.
pub open spec fn owners_upto(ts: Seq<TerritoryOwners>, ps: Seq<PlayerMoves>, victors: Seq<i32>, picks: Seq<int>, n: int) -> Seq<TerritoryOwnersInsert>
    decreases n,
{
    if n <= 0 {
        Seq::empty()
    } else {
        owners_upto(ts, ps, victors, picks, n - 1).push(
            settle_owner(ts[n - 1], territory_moves(ts, ps, n - 1), victors[n - 1], picks[n - 1]))
    }
}

/// The MVPs of the contested territories among the first `n`, with MVP draws `picks`.
pub open spec fn mvps_upto(ts: Seq<TerritoryOwners>, ps: Seq<PlayerMoves>, victors: Seq<i32>, picks: Seq<int>, n: int) -> Seq<PlayerMoves>
    decreases n,
{
    if n <= 0 {
        Seq::empty()
    } else {
        let tp = territory_moves(ts, ps, n - 1);
        let teams = team_list(tp);
        if teams.len() >= 2 && mvp_pool(tp, teams, victors[n - 1]).len() > 0 {
            mvps_upto(ts, ps, victors, picks, n - 1).push(mvp_pool(tp, teams, victors[n - 1])[picks[n - 1]])
        } else {
            mvps_upto(ts, ps, victors, picks, n - 1)
        }
    }
}

/// The MVP pool of territory `i`: see [`mvp_pool`].
pub open spec fn territory_pool(ts: Seq<TerritoryOwners>, ps: Seq<PlayerMoves>, victors: Seq<i32>, i: int) -> Seq<PlayerMoves> {
    mvp_pool(territory_moves(ts, ps, i), team_list(territory_moves(ts, ps, i)), victors[i])
}

/// `picks` are MVP draws that the roll can make: one per territory, each a
/// possible index in the territory's [`mvp_pool`] where that is not empty.
pub open spec fn picks_valid(ts: Seq<TerritoryOwners>, ps: Seq<PlayerMoves>, victors: Seq<i32>, picks: Seq<int>) -> bool {
    &&& picks.len() == ts.len()
    &&& forall|i: int| 0 <= i < ts.len() && team_list(territory_moves(ts, ps, i)).len() >= 1
        && territory_pool(ts, ps, victors, i).len() > 0 ==>
        valid_pick(territory_pool(ts, ps, victors, i).len() as int, #[trigger] picks[i])
}

/// Some territory of `ts` is the one that move `p` was made on.
pub open spec fn on_some_territory(ts: Seq<TerritoryOwners>, p: PlayerMoves) -> bool {
    exists|j: int| 0 <= j < ts.len() && ts[j].territory_id == p.territory
}

/// What a move that the roll takes can add to a team's counts, its power
/// counted twice: once toward the effective power, once toward the star power.
pub open spec fn roll_weight(ts: Seq<TerritoryOwners>, p: PlayerMoves) -> int {
    if on_some_territory(ts, p) { 1 + abs(p.stars as int) + 2 * abs(p.power as int) } else { 0 }
}

/// The sum of [`roll_weight`] over `s`.
pub open spec fn placed_weight(ts: Seq<TerritoryOwners>, s: Seq<PlayerMoves>) -> int
    decreases s.len(),
{
    if s.len() == 0 { 0 } else { placed_weight(ts, s.drop_last()) + roll_weight(ts, s.last()) }
}

/// The numbers computed from territory `t` fit in an `i32`: its statistics'
/// sequence number, each step of computing it, and the next day.
pub open spec fn territory_fits(t: TerritoryOwners) -> bool {
    &&& i32::MIN <= t.season * 1000 <= i32::MAX
    &&& i32::MIN <= t.season * 1000 + t.season <= i32::MAX
    &&& i32::MIN <= territory_sequence(t) <= i32::MAX
    &&& t.day + 1 <= i32::MAX
}

/// The inputs of the roll stay within what its `i32` arithmetic can hold.
pub open spec fn roll_fits(ts: Seq<TerritoryOwners>, ps: Seq<PlayerMoves>) -> bool {
    &&& forall|i: int| 0 <= i < ts.len() ==> territory_fits(#[trigger] ts[i])
    &&& forall|i: int| 0 <= i < ps.len() && on_some_territory(ts, #[trigger] ps[i]) ==> move_sequence_fits(ps[i])
    &&& ts.len() + placed_weight(ts, ps) <= i32::MAX
}

/// On every territory that several teams moved on, the victor is one of them.
pub open spec fn victors_valid(ts: Seq<TerritoryOwners>, ps: Seq<PlayerMoves>, victors: Seq<i32>) -> bool {
    &&& victors.len() == ts.len()
    &&& forall|i: int| 0 <= i < ts.len() && team_list(territory_moves(ts, ps, i)).len() >= 2 ==>
        team_list(territory_moves(ts, ps, i)).contains(#[trigger] victors[i])
}

proof fn lemma_on_territory_elems(s: Seq<PlayerMoves>, t: i32)
    ensures
        forall|i: int| 0 <= i < on_territory(s, t).len() ==> (#[trigger] on_territory(s, t)[i]).territory == t
            && s.contains(on_territory(s, t)[i]),
    decreases s.len(),
{
    if s.len() > 0 {
        lemma_on_territory_elems(s.drop_last(), t);
        let r = on_territory(s, t);
        let r0 = on_territory(s.drop_last(), t);
        assert forall|i: int| 0 <= i < r.len() implies (#[trigger] r[i]).territory == t && s.contains(r[i]) by {
            if i < r0.len() {
                assert(r[i] == r0[i]);
                assert(s.drop_last().contains(r0[i]));
                let j = choose|j: int| 0 <= j < s.drop_last().len() && s.drop_last()[j] == r0[i];
                assert(s[j] == r[i]);
            } else {
                assert(r[i] == s.last());
                assert(s[s.len() - 1] == r[i]);
            }
        }
    }
}

proof fn lemma_off_territory_elems(s: Seq<PlayerMoves>, t: i32)
    ensures
        forall|i: int| 0 <= i < off_territory(s, t).len() ==> s.contains(#[trigger] off_territory(s, t)[i]),
    decreases s.len(),
{
    if s.len() > 0 {
        lemma_off_territory_elems(s.drop_last(), t);
        let r = off_territory(s, t);
        let r0 = off_territory(s.drop_last(), t);
        assert forall|i: int| 0 <= i < r.len() implies s.contains(#[trigger] r[i]) by {
            if i < r0.len() {
                assert(r[i] == r0[i]);
                assert(s.drop_last().contains(r0[i]));
                let j = choose|j: int| 0 <= j < s.drop_last().len() && s.drop_last()[j] == r0[i];
                assert(s[j] == r[i]);
            } else {
                assert(s[s.len() - 1] == r[i]);
            }
        }
    }
}

proof fn lemma_remaining_elems(ts: Seq<TerritoryOwners>, ps: Seq<PlayerMoves>, i: int)
    ensures
        forall|k: int| 0 <= k < remaining_moves(ts, ps, i).len() ==> ps.contains(#[trigger] remaining_moves(ts, ps, i)[k]),
    decreases i,
{
    if i > 0 {
        lemma_remaining_elems(ts, ps, i - 1);
        let prev = remaining_moves(ts, ps, i - 1);
        lemma_off_territory_elems(prev, ts[i - 1].territory_id);
        let r = remaining_moves(ts, ps, i);
        assert forall|k: int| 0 <= k < r.len() implies ps.contains(#[trigger] r[k]) by {
            assert(prev.contains(r[k]));
            let j = choose|j: int| 0 <= j < prev.len() && prev[j] == r[k];
            assert(ps.contains(prev[j]));
        }
    }
}

/// The moves that territory `i` takes were made on it and are moves of `ps`.
proof fn lemma_territory_moves_elems(ts: Seq<TerritoryOwners>, ps: Seq<PlayerMoves>, i: int)
    requires
        0 <= i < ts.len(),
    ensures
        forall|k: int| 0 <= k < territory_moves(ts, ps, i).len() ==>
            (#[trigger] territory_moves(ts, ps, i)[k]).territory == ts[i].territory_id
            && ps.contains(territory_moves(ts, ps, i)[k])
            && on_some_territory(ts, territory_moves(ts, ps, i)[k]),
{
    let rem = remaining_moves(ts, ps, i);
    let tp = territory_moves(ts, ps, i);
    lemma_on_territory_elems(rem, ts[i].territory_id);
    lemma_remaining_elems(ts, ps, i);
    assert forall|k: int| 0 <= k < tp.len() implies (#[trigger] tp[k]).territory == ts[i].territory_id
        && ps.contains(tp[k]) && on_some_territory(ts, tp[k]) by {
        assert(rem.contains(tp[k]));
        let j = choose|j: int| 0 <= j < rem.len() && rem[j] == tp[k];
        assert(ps.contains(rem[j]));
    }
}

proof fn lemma_placed_split(ts: Seq<TerritoryOwners>, s: Seq<PlayerMoves>, t: i32)
    ensures
        placed_weight(ts, s) == placed_weight(ts, on_territory(s, t)) + placed_weight(ts, off_territory(s, t)),
    decreases s.len(),
{
    if s.len() > 0 {
        lemma_placed_split(ts, s.drop_last(), t);
        if s.last().territory == t {
            assert(on_territory(s, t).drop_last() =~= on_territory(s.drop_last(), t));
        } else {
            assert(off_territory(s, t).drop_last() =~= off_territory(s.drop_last(), t));
        }
    }
}

proof fn lemma_placed_nonneg(ts: Seq<TerritoryOwners>, s: Seq<PlayerMoves>)
    ensures
        placed_weight(ts, s) >= 0,
    decreases s.len(),
{
    if s.len() > 0 {
        lemma_placed_nonneg(ts, s.drop_last());
    }
}

proof fn lemma_placed_all_on(ts: Seq<TerritoryOwners>, s: Seq<PlayerMoves>)
    requires
        forall|k: int| 0 <= k < s.len() ==> on_some_territory(ts, #[trigger] s[k]),
    ensures
        placed_weight(ts, s) == moves_weight(s) + abs_power_sum(s),
    decreases s.len(),
{
    if s.len() > 0 {
        assert forall|k: int| 0 <= k < s.drop_last().len() implies on_some_territory(ts, #[trigger] s.drop_last()[k]) by {
            assert(s.drop_last()[k] == s[k]);
        }
        lemma_placed_all_on(ts, s.drop_last());
        assert(on_some_territory(ts, s[s.len() - 1]));
    }
}

/// Credits the entry of `key` (created from `init` where missing) with one
/// territory and `add` more star power.
fn credit_territory(stats: &mut HashMap<i32, Stats>, key: i32, init: Stats, add: i32, Ghost(c): Ghost<int>)
    requires
        c >= 0,
        table_within(old(stats)@, c),
        stats_within(init, c),
        c + 1 + abs(add as int) <= i32::MAX,
    ensures
        final(stats)@ == credited(old(stats)@, key, init, add as int),
        table_within(final(stats)@, c + 1 + abs(add as int)),
{
    let cur: Stats = match stats.get(&key) {
        Some(st) => *st,
        None => init,
    };
    assert(cur == entry_or(old(stats)@, key, init));
    let mut next = cur;
    next.territorycount = cur.territorycount + 1;
    next.starpower = cur.starpower + add;
    stats.insert(key, next);
    assert(stats@ =~= credited(old(stats)@, key, init, add as int));
    assert forall|k: i32| stats@.contains_key(k) implies stats_within(#[trigger] stats@[k], c + 1 + abs(add as int)) by {
        if k != key {
            assert(stats_within(old(stats)@[k], c));
        }
    }
}

proof fn lemma_table_within_mono(m: Map<i32, Stats>, c: int, d: int)
    requires
        table_within(m, c),
        c <= d,
    ensures
        table_within(m, d),
{
    assert forall|k: i32| m.contains_key(k) implies stats_within(#[trigger] m[k], d) by {
        assert(stats_within(m[k], c));
    }
}

/// Settles one territory `t` with the moves `tp` made on it: returns its new
/// ownership and, on a contested territory, its MVP; updates the team
/// statistics and appends the territory's rows.
fn settle_territory(
    t: &TerritoryOwners,
    tp: Vec<PlayerMoves>,
    victor: i32,
    stats: &mut HashMap<i32, Stats>,
    rows: &mut Vec<TerritoryStats>,
    Ghost(b): Ghost<int>,
) -> (r: (TerritoryOwnersInsert, Option<PlayerMoves>, Ghost<int>))
    requires
        territory_fits(*t),
        b >= 0,
        table_within(old(stats)@, b),
        b + 1 + moves_weight(tp@) + abs_power_sum(tp@) <= i32::MAX,
        forall|k: int| 0 <= k < tp@.len() ==> move_sequence_fits(#[trigger] tp@[k]),
        team_list(tp@).len() >= 2 ==> team_list(tp@).contains(victor),
    ensures
        final(stats)@ == settle_stats(old(stats)@, *t, tp@, victor),
        final(rows)@ == old(rows)@ + territory_rows(*t, tp@),
        table_within(final(stats)@, b + 1 + moves_weight(tp@) + abs_power_sum(tp@)),
        team_list(tp@).len() >= 1 && mvp_pool(tp@, team_list(tp@), victor).len() > 0
            ==> valid_pick(mvp_pool(tp@, team_list(tp@), victor).len() as int, r.2@),
        r.0 == settle_owner(*t, tp@, victor, r.2@),
        r.1 == (if team_list(tp@).len() >= 2 && mvp_pool(tp@, team_list(tp@), victor).len() > 0 {
            Some(mvp_pool(tp@, team_list(tp@), victor)[r.2@])
        } else {
            None::<PlayerMoves>
        }),
{
    proof {
        lemma_moves_weight_nonneg(tp@);
        lemma_abs_power_sum(tp@);
        lemma_moves_weight_len(tp@);
        lemma_table_within_mono(old(stats)@, b, b + 1 + moves_weight(tp@) + abs_power_sum(tp@));
    }
    let ghost bound = b + 1 + moves_weight(tp@) + abs_power_sum(tp@);
    let teams = getteams(&tp);
    let territory_power = sum_power(&tp);
    let seq: i32 = t.season * 1000 + t.season + 1;
    let next_day: i32 = t.day + 1;
    if teams.len() == 0 {
        credit_territory(stats, t.owner_id, Stats::new(seq, t.season, t.day, t.owner_id), 0, Ghost(b));
        proof {
            lemma_table_within_mono(stats@, b + 1, bound);
        }
        let row = TerritoryStats {
            team: t.owner_id,
            season: t.season,
            day: t.day,
            ones: count_stars(&tp, 1),
            twos: count_stars(&tp, 2),
            threes: count_stars(&tp, 3),
            fours: count_stars(&tp, 4),
            fives: count_stars(&tp, 5),
            territory: t.territory_id,
            territory_power,
            contested: false,
        };
        rows.push(row);
        assert(rows@ =~= old(rows)@ + territory_rows(*t, tp@));
        let owner = TerritoryOwnersInsert {
            territory_id: t.territory_id,
            territory_name: None,
            owner_id: t.owner_id,
            day: next_day,
            season: t.season,
            previous_owner_id: t.owner_id,
            mvp: Some(0),
        };
        (owner, None, Ghost(0))
    } else if teams.len() == 1 {
        let team = teams[0];
        let row = TerritoryStats {
            team,
            season: t.season,
            day: t.day,
            ones: count_stars(&tp, 1),
            twos: count_stars(&tp, 2),
            threes: count_stars(&tp, 3),
            fours: count_stars(&tp, 4),
            fives: count_stars(&tp, 5),
            territory: t.territory_id,
            territory_power,
            contested: false,
        };
        rows.push(row);
        assert(rows@ =~= old(rows)@ + territory_rows(*t, tp@));
        let mvp = getmvp(copy_moves(&tp));
        let ghost pool = eligible_moves(tp@);
        let ghost k: int = if pool.len() > 0 {
            choose|k: int| valid_pick(pool.len() as int, k) && mvp == Some(pool[k])
        } else {
            0
        };
        let mvp_user: i32 = match mvp {
            Some(m) => m.user_id,
            None => 0,
        };
        credit_territory(stats, team, Stats::new(seq, t.season, t.day, team), territory_power, Ghost(b));
        let ghost after_credit = stats@;
        let ghost tpv = tp@;
        assert(table_within(after_credit, b + 1 + abs(territory_power as int)));
        handleteamstats(stats, tp);
        proof {
            lemma_count_moves_within(after_credit, tpv, b + 1 + abs(territory_power as int));
        }
        let owner = TerritoryOwnersInsert {
            territory_id: t.territory_id,
            territory_name: None,
            owner_id: team,
            day: next_day,
            season: t.season,
            previous_owner_id: t.owner_id,
            mvp: Some(mvp_user),
        };
        (owner, None, Ghost(k))
    } else {
        let mut j: usize = 0;
        let ghost base = rows@;
        while j < teams.len()
            invariant
                0 <= j <= teams.len(),
                teams@ == team_list(tp@),
                tp@.len() <= i32::MAX,
                territory_power == power_sum(tp@),
                rows@ == base + Seq::new(j as nat, |x: int| contested_row(*t, tp@, teams@[x])),
            decreases teams.len() - j,
        {
            let team = teams[j];
            let row = TerritoryStats {
                team,
                season: t.season,
                day: t.day,
                ones: count_class(&tp, team, 1),
                twos: count_class(&tp, team, 2),
                threes: count_class(&tp, team, 3),
                fours: count_class(&tp, team, 4),
                fives: count_class(&tp, team, 5),
                territory: t.territory_id,
                territory_power,
                contested: true,
            };
            rows.push(row);
            j = j + 1;
            assert(rows@ =~= base + Seq::new(j as nat, |x: int| contested_row(*t, tp@, teams@[x])));
        }
        assert(rows@ =~= old(rows)@ + territory_rows(*t, tp@));
        assert(has_team(tp@, victor));
        proof {
            lemma_on_team_nonempty(tp@, victor);
        }
        let victor_moves = moves_of_team(&tp, victor);
        let mvp = getmvp(victor_moves);
        let ghost pool = eligible_moves(on_team(tp@, victor));
        let ghost k: int = if pool.len() > 0 {
            choose|k: int| valid_pick(pool.len() as int, k) && mvp == Some(pool[k])
        } else {
            0
        };
        let mvp_user: i32 = match mvp {
            Some(m) => m.user_id,
            None => 0,
        };
        credit_territory(stats, victor, Stats::new(seq, t.season, t.day, victor), 0, Ghost(b));
        let ghost after_credit = stats@;
        let ghost tpv = tp@;
        assert(table_within(after_credit, b + 1));
        handleteamstats(stats, tp);
        proof {
            lemma_count_moves_within(after_credit, tpv, b + 1);
        }
        let owner = TerritoryOwnersInsert {
            territory_id: t.territory_id,
            territory_name: None,
            owner_id: victor,
            day: next_day,
            season: t.season,
            previous_owner_id: t.owner_id,
            mvp: Some(mvp_user),
        };
        (owner, mvp, Ghost(k))
    }
}

proof fn lemma_upto_picks_prefix(ts: Seq<TerritoryOwners>, ps: Seq<PlayerMoves>, victors: Seq<i32>, a: Seq<int>, b: Seq<int>, n: int)
    requires
        forall|j: int| 0 <= j < n ==> a[j] == b[j],
    ensures
        owners_upto(ts, ps, victors, a, n) == owners_upto(ts, ps, victors, b, n),
        mvps_upto(ts, ps, victors, a, n) == mvps_upto(ts, ps, victors, b, n),
    decreases n,
{
    if n > 0 {
        lemma_upto_picks_prefix(ts, ps, victors, a, b, n - 1);
    }
}

proof fn lemma_placed_prefix(ts: Seq<TerritoryOwners>, s: Seq<PlayerMoves>, n: int)
    requires
        0 <= n <= s.len(),
    ensures
        placed_weight(ts, s.take(n)) <= placed_weight(ts, s),
    decreases s.len() - n,
{
    if n < s.len() {
        lemma_placed_prefix(ts, s, n + 1);
        assert(s.take(n + 1).drop_last() =~= s.take(n));
    } else {
        assert(s.take(n) =~= s);
    }
}

/// Whether some entry of `territories` is territory `id`.
fn lists_territory(territories: &Vec<TerritoryOwners>, id: i32) -> (r: bool)
    ensures
        r == exists|j: int| 0 <= j < territories@.len() && territories@[j].territory_id == id,
{
    let mut j: usize = 0;
    while j < territories.len()
        invariant
            0 <= j <= territories.len(),
            forall|m: int| 0 <= m < j ==> territories@[m].territory_id != id,
        decreases territories.len() - j,
    {
        if territories[j].territory_id == id {
            return true;
        }
        j = j + 1;
    }
    false
}

fn abs_i64(x: i32) -> (r: i64)
    ensures
        r == abs(x as int),
{
    let y = x as i64;
    if y < 0 { -y } else { y }
}

fn in_i32(x: i64) -> (r: bool)
    ensures
        r == (i32::MIN <= x <= i32::MAX),
{
    -2147483648i64 <= x && x <= 2147483647i64
}

/// Whether the roll's `i32` arithmetic can hold the territories and moves:
/// see [`roll_fits`].
pub fn roll_within_limits(territories: &Vec<TerritoryOwners>, players: &Vec<PlayerMoves>) -> (r: bool)
    ensures
        r == roll_fits(territories@, players@),
{
    let ghost ts = territories@;
    let ghost ps = players@;
    let mut i: usize = 0;
    while i < territories.len()
        invariant
            0 <= i <= territories.len(),
            ts == territories@,
            forall|j: int| 0 <= j < i ==> territory_fits(#[trigger] ts[j]),
        decreases territories.len() - i,
    {
        let s = territories[i].season as i64;
        let d = territories[i].day as i64;
        let a = s * 1000;
        let b = a + s;
        let c = b + 1;
        if !(in_i32(a) && in_i32(b) && in_i32(c) && d + 1 <= 2147483647i64) {
            assert(!territory_fits(ts[i as int]));
            return false;
        }
        i = i + 1;
    }
    if territories.len() > 2147483647usize {
        proof {
            lemma_placed_nonneg(ts, ps);
        }
        return false;
    }
    let mut total: i64 = territories.len() as i64;
    let mut k: usize = 0;
    proof {
        assert(ps.take(0) =~= Seq::<PlayerMoves>::empty());
    }
    while k < players.len()
        invariant
            0 <= k <= players.len(),
            ts == territories@,
            ps == players@,
            forall|j: int| 0 <= j < ts.len() ==> territory_fits(#[trigger] ts[j]),
            total == ts.len() + placed_weight(ts, ps.take(k as int)),
            total <= i32::MAX,
            forall|j: int| 0 <= j < k && on_some_territory(ts, #[trigger] ps[j]) ==> move_sequence_fits(ps[j]),
        decreases players.len() - k,
    {
        let p = players[k];
        assert(ps.take(k as int + 1).drop_last() =~= ps.take(k as int));
        proof {
            lemma_placed_nonneg(ts, ps.take(k as int));
        }
        if lists_territory(territories, p.territory) {
            assert(on_some_territory(ts, ps[k as int]));
            let s: i64 = match p.season { Some(x) => x as i64, None => 0 };
            let d: i64 = match p.day { Some(x) => x as i64, None => 0 };
            let a = s * 1000;
            let b = a + d;
            let c = b + 1;
            if !(in_i32(a) && in_i32(b) && in_i32(c)) {
                assert(!move_sequence_fits(ps[k as int]));
                return false;
            }
            let w: i64 = 1 + abs_i64(p.stars) + 2 * abs_i64(p.power);
            total = total + w;
            if total > 2147483647i64 {
                proof {
                    lemma_placed_prefix(ts, ps, k as int + 1);
                }
                return false;
            }
        }
        k = k + 1;
    }
    assert(ps.take(players.len() as int) =~= ps);
    true
}

/// The teams that moved on each territory of `territories`, in the order in
/// which the roll settles them: for each territory, the teams of the moves it
/// takes, ascending. Where a list holds two teams or more, the caller draws
/// the victor among them.
pub fn contenders(territories: &Vec<TerritoryOwners>, players: &Vec<PlayerMoves>) -> (r: Vec<Vec<i32>>)
    ensures
        r@.len() == territories@.len(),
        forall|i: int| 0 <= i < r@.len() ==> (#[trigger] r@[i])@ == team_list(territory_moves(territories@, players@, i)),
{
    let mut out: Vec<Vec<i32>> = Vec::new();
    let mut remaining = copy_moves(players);
    let mut i: usize = 0;
    while i < territories.len()
        invariant
            0 <= i <= territories.len(),
            out@.len() == i,
            remaining@ == remaining_moves(territories@, players@, i as int),
            forall|j: int| 0 <= j < i ==> (#[trigger] out@[j])@ == team_list(territory_moves(territories@, players@, j)),
        decreases territories.len() - i,
    {
        let t = &territories[i];
        let (tp, left) = drain_territory(remaining, t.territory_id);
        let teams = getteams(&tp);
        out.push(teams);
        remaining = left;
        i = i + 1;
    }
    out
}

/// Settles the territories `territories` after the moves `players` of a turn.
///
/// Each territory, in order, takes the moves made on it that are still left.
/// When nobody moved on it, its owner keeps it; when one team moved on it,
/// that team wins it; when several teams moved on it, its entry of `victors`
/// (drawn by the caller, weighted by power) wins it. The MVP of a territory is
/// drawn among the winner's moves with power above zero that were not flagged
/// as alts: the only one, or any but the first; user 0 when there is none.
/// The winner is credited with the territory, and every move counts for its
/// team: as a player, or as a mercenary.
///
/// Returns the new ownerships (one per territory, in order), the MVPs of the
/// contested territories, the statistics of each team, and the territory rows.
pub fn process_territories(
    territories: Vec<TerritoryOwners>,
    players: Vec<PlayerMoves>,
    victors: Vec<i32>,
) -> (r: (Vec<TerritoryOwnersInsert>, Vec<PlayerMoves>, HashMap<i32, Stats>, Vec<TerritoryStats>))
    requires
        victors_valid(territories@, players@, victors@),
        roll_fits(territories@, players@),
    ensures
        r.2@ == stats_upto(territories@, players@, victors@, territories@.len() as int),
        r.3@ == rows_upto(territories@, players@, territories@.len() as int),
        exists|picks: Seq<int>|
            #![trigger picks_valid(territories@, players@, victors@, picks)]
            picks_valid(territories@, players@, victors@, picks)
            && r.0@ == owners_upto(territories@, players@, victors@, picks, territories@.len() as int)
            && r.1@ == mvps_upto(territories@, players@, victors@, picks, territories@.len() as int),
{
    let ghost ts = territories@;
    let ghost ps = players@;
    let ghost vs = victors@;
    let mut new_owners: Vec<TerritoryOwnersInsert> = Vec::new();
    let mut mvps: Vec<PlayerMoves> = Vec::new();
    let mut stats: HashMap<i32, Stats> = HashMap::new();
    let mut territory_stats: Vec<TerritoryStats> = Vec::new();
    let mut remaining = players;
    let ghost mut picks: Seq<int> = Seq::empty();
    let ghost mut b: int = 0;
    let mut i: usize = 0;
    proof {
        lemma_placed_nonneg(ts, ps);
        assert(stats@ =~= stats_upto(ts, ps, vs, 0));
    }
    while i < territories.len()
        invariant
            0 <= i <= territories.len(),
            ts == territories@,
            ps == players@,
            vs == victors@,
            victors_valid(ts, ps, vs),
            roll_fits(ts, ps),
            remaining@ == remaining_moves(ts, ps, i as int),
            stats@ == stats_upto(ts, ps, vs, i as int),
            territory_stats@ == rows_upto(ts, ps, i as int),
            picks.len() == i,
            forall|j: int| 0 <= j < i && team_list(territory_moves(ts, ps, j)).len() >= 1
                && territory_pool(ts, ps, vs, j).len() > 0 ==>
                valid_pick(territory_pool(ts, ps, vs, j).len() as int, #[trigger] picks[j]),
            new_owners@ == owners_upto(ts, ps, vs, picks, i as int),
            mvps@ == mvps_upto(ts, ps, vs, picks, i as int),
            b >= 0,
            table_within(stats@, b),
            b + placed_weight(ts, remaining@) + (ts.len() - i) <= i32::MAX,
        decreases territories.len() - i,
    {
        let t = &territories[i];
        let ghost rem = remaining@;
        let (tp, rest) = drain_territory(remaining, t.territory_id);
        remaining = rest;
        let ghost tps = tp@;
        proof {
            assert(tps == territory_moves(ts, ps, i as int));
            lemma_territory_moves_elems(ts, ps, i as int);
            lemma_placed_split(ts, rem, t.territory_id);
            lemma_placed_all_on(ts, tps);
            lemma_placed_nonneg(ts, remaining@);
            lemma_moves_weight_nonneg(tps);
            lemma_abs_power_sum(tps);
            assert forall|k: int| 0 <= k < tps.len() implies move_sequence_fits(#[trigger] tps[k]) by {
                assert(ps.contains(tps[k]));
                let j = choose|j: int| 0 <= j < ps.len() && ps[j] == tps[k];
                assert(on_some_territory(ts, ps[j]));
            }
            assert(territory_fits(ts[i as int]));
        }
        let (owner, mvp, Ghost(k)) = settle_territory(t, tp, victors[i], &mut stats, &mut territory_stats, Ghost(b));
        new_owners.push(owner);
        match mvp {
            Some(m) => {
                mvps.push(m);
            },
            None => {},
        }
        proof {
            let old_picks = picks;
            picks = picks.push(k);
            lemma_upto_picks_prefix(ts, ps, vs, old_picks, picks, i as int);
            b = b + 1 + moves_weight(tps) + abs_power_sum(tps);
        }
        i = i + 1;
        proof {
            assert(remaining@ == remaining_moves(ts, ps, i as int));
            assert(new_owners@ =~= owners_upto(ts, ps, vs, picks, i as int));
            assert(mvps@ =~= mvps_upto(ts, ps, vs, picks, i as int));
            assert forall|j: int| 0 <= j < i && team_list(territory_moves(ts, ps, j)).len() >= 1
                && territory_pool(ts, ps, vs, j).len() > 0 implies
                valid_pick(territory_pool(ts, ps, vs, j).len() as int, #[trigger] picks[j]) by {
                if j < i - 1 {
                } else {
                }
            }
        }
    }
    assert(picks_valid(ts, ps, vs, picks));
    (new_owners, mvps, stats, territory_stats)
}

// ---------------------------------------------------------------------------
// Ranking the teams

/// `s` with `x` inserted before the entries whose territory count is at most
/// its own at the end of `s` (in a list sorted from most to fewest territories,
/// before the entries with as many territories as `x`).
pub open spec fn insert_desc(s: Seq<Stats>, x: Stats) -> Seq<Stats>
    decreases s.len(),
{
    if s.len() == 0 {
        seq![x]
    } else if s.last().territorycount > x.territorycount {
        s.push(x)
    } else {
        insert_desc(s.drop_last(), x).push(s.last())
    }
}

/// `s` sorted from most to fewest territories; among teams with as many
/// territories, a later entry of `s` comes first (the order of a stable
/// ascending sort, reversed).
pub open spec fn sort_desc(s: Seq<Stats>) -> Seq<Stats>
    decreases s.len(),
{
    if s.len() == 0 {
        s
    } else {
        insert_desc(sort_desc(s.drop_last()), s.last())
    }
}

/// The rank of entry `i` of the sorted list `s`: ranks start at 1 and grow by
/// one at each entry with fewer territories than the entry before it (the
/// first entry compared with zero territories).
pub open spec fn rank_at(s: Seq<Stats>, i: int) -> int
    decreases i + 1,
{
    if i < 0 {
        1
    } else {
        let before = if i == 0 { 0 } else { s[i - 1].territorycount as int };
        rank_at(s, i - 1) + if s[i].territorycount < before { 1int } else { 0int }
    }
}

/// Entry `i` of the sorted list `s` as stored: with the turn's sequence
/// number, its rank, and its star power per territory.
pub open spec fn ranked_row(s: Seq<Stats>, i: int, sequence: i32) -> Stats {
    Stats {
        sequence,
        rank: rank_at(s, i) as i32,
        efficiency: trunc_div(s[i].starpower as int, s[i].territorycount as int) as i32,
        ..s[i]
    }
}

/// The statistics `s` as stored for a turn: sorted from most to fewest
/// territories, each with its rank, efficiency and the turn's sequence number.
pub open spec fn ranked(s: Seq<Stats>, sequence: i32) -> Seq<Stats> {
    Seq::new(s.len(), |i: int| ranked_row(sort_desc(s), i, sequence))
}

/// Every entry holds a territory, and its star power can be divided by its
/// territory count.
pub open spec fn rankable(s: Seq<Stats>) -> bool {
    &&& s.len() < i32::MAX
    &&& forall|i: int| 0 <= i < s.len() ==> (#[trigger] s[i]).territorycount != 0
        && !(s[i].starpower == i32::MIN && s[i].territorycount == -1)
}

pub open spec fn sorted_desc(s: Seq<Stats>) -> bool {
    forall|i: int, j: int| 0 <= i <= j < s.len() ==> s[i].territorycount >= s[j].territorycount
}

proof fn lemma_insert_desc_at(s: Seq<Stats>, x: Stats, j: int)
    requires
        0 <= j <= s.len(),
        forall|k: int| j <= k < s.len() ==> s[k].territorycount <= x.territorycount,
        j == 0 || s[j - 1].territorycount > x.territorycount,
    ensures
        insert_desc(s, x) == s.insert(j, x),
    decreases s.len(),
{
    if s.len() == 0 {
        assert(s.insert(j, x) =~= seq![x]);
    } else if s.last().territorycount > x.territorycount {
        assert(j == s.len());
        assert(s.insert(j, x) =~= s.push(x));
    } else {
        assert(j < s.len());
        lemma_insert_desc_at(s.drop_last(), x, j);
        assert(s.insert(j, x) =~= s.drop_last().insert(j, x).push(s.last()));
    }
}

proof fn lemma_sort_desc_facts(s: Seq<Stats>)
    ensures
        sort_desc(s).len() == s.len(),
        sorted_desc(sort_desc(s)),
        sort_desc(s).to_multiset() == s.to_multiset(),
    decreases s.len(),
{
    broadcast use vstd::seq_lib::group_seq_properties;
    if s.len() > 0 {
        let prev = sort_desc(s.drop_last());
        lemma_sort_desc_facts(s.drop_last());
        let x = s.last();
        // the position where `x` goes
        let j = insert_position(prev, x);
        lemma_insert_desc_at(prev, x, j);
        vstd::seq_lib::to_multiset_insert(prev, j, x);
        assert(s =~= s.drop_last().push(x));
        vstd::seq_lib::to_multiset_build(s.drop_last(), x);
        let r = prev.insert(j, x);
        assert forall|a: int, b: int| 0 <= a <= b < r.len() implies r[a].territorycount >= r[b].territorycount by {
            if a < j && b < j {
            } else if a < j && b == j {
                assert(prev[a].territorycount >= prev[j - 1].territorycount);
            } else if a < j && b > j {
                assert(r[b] == prev[b - 1]);
            } else if a == j && b > j {
                assert(r[b] == prev[b - 1]);
            } else if a > j {
                assert(r[a] == prev[a - 1]);
                assert(r[b] == prev[b - 1]);
            }
        }
    }
}

/// The position at which [`insert_desc`] puts `x` into the sorted list `s`.
proof fn insert_position(s: Seq<Stats>, x: Stats) -> (j: int)
    requires
        sorted_desc(s),
    ensures
        0 <= j <= s.len(),
        forall|k: int| j <= k < s.len() ==> s[k].territorycount <= x.territorycount,
        j == 0 || s[j - 1].territorycount > x.territorycount,
    decreases s.len(),
{
    if s.len() == 0 {
        0
    } else if s.last().territorycount > x.territorycount {
        s.len() as int
    } else {
        let j = insert_position(s.drop_last(), x);
        assert forall|k: int| j <= k < s.len() implies s[k].territorycount <= x.territorycount by {
            if k < s.len() - 1 {
                assert(s.drop_last()[k] == s[k]);
            }
        }
        j
    }
}

proof fn lemma_rank_at_bounds(s: Seq<Stats>, i: int)
    requires
        -1 <= i < s.len(),
    ensures
        1 <= rank_at(s, i) <= i + 2,
    decreases i + 1,
{
    if i >= 0 {
        lemma_rank_at_bounds(s, i - 1);
    }
}

impl Stats {
    /// The statistics `stats` as stored for the turn `sequence`: sorted from
    /// most to fewest territories (among equals, a later entry first), each
    /// ranked — ranks start at 1 and grow by one each time the territory count
    /// drops — with its star power per territory as its efficiency.
    pub fn rank(stats: Vec<Stats>, sequence: i32) -> (r: Vec<Stats>)
        requires
            rankable(stats@),
        ensures
            r@ == ranked(stats@, sequence),
    {
        // stable ascending insertion, reversed: the later of two equals goes first
        let mut sorted: Vec<Stats> = Vec::new();
        let mut i: usize = 0;
        while i < stats.len()
            invariant
                0 <= i <= stats.len(),
                sorted@ == sort_desc(stats@.take(i as int)),
            decreases stats.len() - i,
        {
            let x = stats[i];
            proof {
                lemma_sort_desc_facts(stats@.take(i as int));
            }
            let mut j: usize = sorted.len();
            while j > 0 && sorted[j - 1].territorycount <= x.territorycount
                invariant
                    0 <= j <= sorted.len(),
                    forall|k: int| j <= k < sorted@.len() ==> sorted@[k].territorycount <= x.territorycount,
                decreases j,
            {
                j = j - 1;
            }
            proof {
                lemma_insert_desc_at(sorted@, x, j as int);
                assert(stats@.take(i as int + 1).drop_last() =~= stats@.take(i as int));
            }
            sorted.insert(j, x);
            i = i + 1;
        }
        assert(stats@.take(stats.len() as int) =~= stats@);
        proof {
            lemma_sort_desc_facts(stats@);
            assert forall|k: int| 0 <= k < sorted@.len() implies (#[trigger] sorted@[k]).territorycount != 0
                && !(sorted@[k].starpower == i32::MIN && sorted@[k].territorycount == -1) by {
                sorted@.to_multiset_ensures();
                stats@.to_multiset_ensures();
                assert(sorted@.contains(sorted@[k]));
                assert(sorted@ == sort_desc(stats@));
                assert(sorted@.to_multiset().count(sorted@[k]) > 0);
                assert(stats@.to_multiset().count(sorted@[k]) > 0);
                assert(stats@.contains(sorted@[k]));
                let m = choose|m: int| 0 <= m < stats@.len() && stats@[m] == sorted@[k];
                assert(stats@[m].territorycount != 0);
            }
        }
        let mut out: Vec<Stats> = Vec::new();
        let mut rankings: i32 = 1;
        let mut territories: i32 = 0;
        let mut k: usize = 0;
        while k < sorted.len()
            invariant
                0 <= k <= sorted.len(),
                sorted.len() == stats.len(),
                stats@.len() < i32::MAX,
                sorted@ == sort_desc(stats@),
                rankings == rank_at(sorted@, k as int - 1),
                k == 0 ==> territories == 0,
                k > 0 ==> territories == sorted@[k as int - 1].territorycount,
                forall|m: int| 0 <= m < sorted@.len() ==> (#[trigger] sorted@[m]).territorycount != 0
                    && !(sorted@[m].starpower == i32::MIN && sorted@[m].territorycount == -1),
                out@ == Seq::new(k as nat, |m: int| ranked_row(sorted@, m, sequence)),
            decreases sorted.len() - k,
        {
            let st = sorted[k];
            proof {
                lemma_rank_at_bounds(sorted@, k as int - 1);
            }
            if st.territorycount < territories {
                rankings = rankings + 1;
            }
            territories = st.territorycount;
            let row = Stats {
                sequence,
                season: st.season,
                day: st.day,
                team: st.team,
                rank: rankings,
                territorycount: st.territorycount,
                playercount: st.playercount,
                merccount: st.merccount,
                starpower: st.starpower,
                efficiency: div_toward_zero(st.starpower, st.territorycount),
                effectivepower: st.effectivepower,
                ones: st.ones,
                twos: st.twos,
                threes: st.threes,
                fours: st.fours,
                fives: st.fives,
            };
            out.push(row);
            k = k + 1;
            assert(out@ =~= Seq::new(k as nat, |m: int| ranked_row(sorted@, m, sequence)));
        }
        out
    }
}

/// The stored statistics of a turn run from most to fewest territories.
pub proof fn lemma_ranked_sorted(s: Seq<Stats>, sequence: i32)
    ensures
        ranked(s, sequence).len() == s.len(),
        forall|i: int, j: int| 0 <= i <= j < s.len() ==>
            ranked(s, sequence)[i].territorycount >= ranked(s, sequence)[j].territorycount,
{
    lemma_sort_desc_facts(s);
}

/// The stored statistics of a turn hold the same teams and counts as the
/// statistics given: each row is an entry of the input with only its
/// sequence number, rank and efficiency set, and every entry appears as often
/// as in the input.
pub proof fn lemma_ranked_permutation(s: Seq<Stats>, sequence: i32)
    ensures
        sort_desc(s).to_multiset() == s.to_multiset(),
        forall|i: int| 0 <= i < s.len() ==> (#[trigger] ranked(s, sequence)[i]) == (Stats {
            sequence,
            rank: ranked(s, sequence)[i].rank,
            efficiency: ranked(s, sequence)[i].efficiency,
            ..sort_desc(s)[i]
        }),
{
    lemma_sort_desc_facts(s);
}

/// Row `i` keeps the rank of row `i - 1` when it holds as many territories,
/// and takes the next rank when it holds fewer.
pub open spec fn rank_step(r: Seq<Stats>, i: int) -> bool {
    &&& (r[i].territorycount == r[i - 1].territorycount ==> r[i].rank == r[i - 1].rank)
    &&& (r[i].territorycount < r[i - 1].territorycount ==> r[i].rank == r[i - 1].rank + 1)
}

/// Ranks leave no gaps: teams with as many territories share a rank, and the
/// next team down has the rank after it. The team with the most territories
/// ranks first when it holds any.
pub proof fn lemma_ranks_dense(s: Seq<Stats>, sequence: i32)
    requires
        s.len() < i32::MAX,
    ensures
        s.len() > 0 && sort_desc(s)[0].territorycount >= 0 ==> ranked(s, sequence)[0].rank == 1,
        forall|i: int| 1 <= i < s.len() ==> #[trigger] rank_step(ranked(s, sequence), i),
{
    lemma_sort_desc_facts(s);
    let d = sort_desc(s);
    assert forall|i: int| 0 <= i < s.len() implies #[trigger] ranked(s, sequence)[i].rank == rank_at(d, i) by {
        lemma_rank_at_bounds(d, i);
    }
    if s.len() > 0 {
        assert(rank_at(d, 0) == rank_at(d, -1) + if d[0].territorycount < 0 { 1int } else { 0int });
    }
    assert forall|i: int| 1 <= i < s.len() implies #[trigger] rank_step(ranked(s, sequence), i) by {
        assert(rank_at(d, i) == rank_at(d, i - 1) + if d[i].territorycount < d[i - 1].territorycount { 1int } else { 0int });
        assert(ranked(s, sequence)[i].rank == rank_at(d, i));
        assert(ranked(s, sequence)[i - 1].rank == rank_at(d, i - 1));
    }
}

// ---------------------------------------------------------------------------
// Laws of the roll

proof fn lemma_owners_upto_index(ts: Seq<TerritoryOwners>, ps: Seq<PlayerMoves>, victors: Seq<i32>, picks: Seq<int>, n: int)
    requires
        n >= 0,
    ensures
        owners_upto(ts, ps, victors, picks, n).len() == n,
        forall|i: int| 0 <= i < n ==> #[trigger] owners_upto(ts, ps, victors, picks, n)[i]
            == settle_owner(ts[i], territory_moves(ts, ps, i), victors[i], picks[i]),
    decreases n,
{
    if n > 0 {
        lemma_owners_upto_index(ts, ps, victors, picks, n - 1);
        let prev = owners_upto(ts, ps, victors, picks, n - 1);
        assert forall|i: int| 0 <= i < n implies #[trigger] owners_upto(ts, ps, victors, picks, n)[i]
            == settle_owner(ts[i], territory_moves(ts, ps, i), victors[i], picks[i]) by {
            if i < n - 1 {
                assert(owners_upto(ts, ps, victors, picks, n)[i] == prev[i]);
            }
        }
    }
}

proof fn lemma_single_team(tp: Seq<PlayerMoves>, k: int)
    requires
        team_list(tp).len() == 1,
        0 <= k < tp.len(),
    ensures
        tp[k].team == team_list(tp)[0],
{
    let teams = team_list(tp);
    lemma_team_list_exists(tp);
    assert(has_team(tp, tp[k].team));
    assert(teams.contains(tp[k].team));
}

proof fn lemma_on_team_elems(s: Seq<PlayerMoves>, team: i32)
    ensures
        forall|i: int| 0 <= i < on_team(s, team).len() ==> (#[trigger] on_team(s, team)[i]).team == team
            && s.contains(on_team(s, team)[i]),
    decreases s.len(),
{
    if s.len() > 0 {
        lemma_on_team_elems(s.drop_last(), team);
        let r = on_team(s, team);
        let r0 = on_team(s.drop_last(), team);
        assert forall|i: int| 0 <= i < r.len() implies (#[trigger] r[i]).team == team && s.contains(r[i]) by {
            if i < r0.len() {
                assert(r[i] == r0[i]);
                assert(s.drop_last().contains(r0[i]));
                let j = choose|j: int| 0 <= j < s.drop_last().len() && s.drop_last()[j] == r0[i];
                assert(s[j] == r[i]);
            } else {
                assert(s[s.len() - 1] == r[i]);
            }
        }
    }
}

proof fn lemma_eligible_elems(s: Seq<PlayerMoves>)
    ensures
        forall|i: int| 0 <= i < eligible_moves(s).len() ==> mvp_eligible(#[trigger] eligible_moves(s)[i])
            && s.contains(eligible_moves(s)[i]),
        eligible_moves(s).len() == 0 ==> forall|k: int| 0 <= k < s.len() ==> !mvp_eligible(#[trigger] s[k]),
    decreases s.len(),
{
    if s.len() > 0 {
        let pre = s.drop_last();
        lemma_eligible_elems(pre);
        let r = eligible_moves(s);
        let r0 = eligible_moves(pre);
        assert forall|i: int| 0 <= i < r.len() implies mvp_eligible(#[trigger] r[i]) && s.contains(r[i]) by {
            if i < r0.len() {
                assert(r[i] == r0[i]);
                assert(pre.contains(r0[i]));
                let j = choose|j: int| 0 <= j < pre.len() && pre[j] == r0[i];
                assert(s[j] == r[i]);
            } else {
                assert(s[s.len() - 1] == r[i]);
            }
        }
        if r.len() == 0 {
            assert forall|k: int| 0 <= k < s.len() implies !mvp_eligible(#[trigger] s[k]) by {
                if k < s.len() - 1 {
                    assert(pre[k] == s[k]);
                }
            }
        }
    }
}

proof fn lemma_on_team_complete(s: Seq<PlayerMoves>, team: i32)
    ensures
        forall|k: int| 0 <= k < s.len() && (#[trigger] s[k]).team == team ==> on_team(s, team).contains(s[k]),
    decreases s.len(),
{
    if s.len() > 0 {
        let pre = s.drop_last();
        lemma_on_team_complete(pre, team);
        assert forall|k: int| 0 <= k < s.len() && (#[trigger] s[k]).team == team implies on_team(s, team).contains(s[k]) by {
            if k < s.len() - 1 {
                assert(pre[k] == s[k]);
                assert(on_team(pre, team).contains(pre[k]));
                let j = choose|j: int| 0 <= j < on_team(pre, team).len() && on_team(pre, team)[j] == pre[k];
                if s.last().team == team {
                    assert(on_team(s, team)[j] == s[k]);
                } else {
                    assert(on_team(s, team)[j] == s[k]);
                }
            } else {
                let r = on_team(s, team);
                assert(r[r.len() - 1] == s[k]);
            }
        }
    }
}

/// What the roll decides for territory `i`: there is one new ownership per
/// territory, and the one of territory `i` names the territory, its owner
/// before the roll, the same season and the next day.
/// A territory that nobody moved on stays with its owner, with no MVP (user 0).
/// Otherwise the new owner is a team that moved on it; when one team alone
/// moved on it, that team wins it. The MVP is the user of one of the new
/// owner's moves there that has power above zero and was not flagged as an
/// alt, or user 0 when no such move exists.
pub proof fn lemma_roll_ownership(ts: Seq<TerritoryOwners>, ps: Seq<PlayerMoves>, victors: Seq<i32>, picks: Seq<int>, i: int)
    requires
        victors_valid(ts, ps, victors),
        picks_valid(ts, ps, victors, picks),
        0 <= i < ts.len(),
    ensures
        owners_upto(ts, ps, victors, picks, ts.len() as int).len() == ts.len(),
        ({
            let o = owners_upto(ts, ps, victors, picks, ts.len() as int)[i];
            let tp = territory_moves(ts, ps, i);
            &&& o.territory_id == ts[i].territory_id
            &&& o.previous_owner_id == ts[i].owner_id
            &&& o.season == ts[i].season
            &&& o.day == (ts[i].day + 1) as i32
            &&& (tp.len() == 0 ==> o.owner_id == ts[i].owner_id && o.mvp == Some(0i32))
            &&& (tp.len() > 0 ==> has_team(tp, o.owner_id))
            &&& (tp.len() > 0 ==>
                (exists|k: int| 0 <= k < tp.len() && tp[k].team == o.owner_id && mvp_eligible(tp[k])
                    && o.mvp == Some(#[trigger] tp[k].user_id))
                || (o.mvp == Some(0i32) && forall|k: int| 0 <= k < tp.len() && (#[trigger] tp[k]).team == o.owner_id
                    ==> !mvp_eligible(tp[k])))
            &&& (team_list(tp).len() == 1 ==> o.owner_id == team_list(tp)[0])
        }),
{
    lemma_owners_upto_index(ts, ps, victors, picks, ts.len() as int);
    let tp = territory_moves(ts, ps, i);
    let teams = team_list(tp);
    let o = owners_upto(ts, ps, victors, picks, ts.len() as int)[i];
    assert(o == settle_owner(ts[i], tp, victors[i], picks[i]));
    lemma_team_list_exists(tp);
    if tp.len() == 0 {
        if teams.len() > 0 {
            assert(teams.contains(teams[0]));
        }
    } else {
        assert(has_team(tp, tp[0].team));
        assert(teams.contains(tp[0].team));
        let owner = o.owner_id;
        let w = winner_moves(tp, teams, victors[i]);
        let pool = mvp_pool(tp, teams, victors[i]);
        lemma_eligible_elems(w);
        if teams.len() == 1 {
            assert(teams.contains(teams[0]));
            lemma_single_team(tp, 0);
            assert(has_team(tp, owner));
            if pool.len() > 0 {
                let m = pool[picks[i]];
                assert(tp.contains(m));
                let j = choose|j: int| 0 <= j < tp.len() && tp[j] == m;
                lemma_single_team(tp, j);
                assert(tp[j].team == owner && mvp_eligible(tp[j]) && o.mvp == Some(tp[j].user_id));
            }
        } else {
            let v = victors[i];
            assert(teams.contains(v));
            assert(has_team(tp, v));
            lemma_on_team_elems(tp, v);
            if pool.len() > 0 {
                let m = pool[picks[i]];
                assert(w.contains(m));
                let j0 = choose|j: int| 0 <= j < w.len() && w[j] == m;
                assert(tp.contains(w[j0]));
                let j = choose|j: int| 0 <= j < tp.len() && tp[j] == m;
                assert(tp[j].team == owner && mvp_eligible(tp[j]) && o.mvp == Some(tp[j].user_id));
            } else {
                lemma_on_team_complete(tp, v);
                assert forall|k: int| 0 <= k < tp.len() && (#[trigger] tp[k]).team == owner implies !mvp_eligible(tp[k]) by {
                    assert(w.contains(tp[k]));
                    let j = choose|j: int| 0 <= j < w.len() && w[j] == tp[k];
                    assert(!mvp_eligible(w[j]));
                }
            }
        }
    }
}

/// Every set of moves has a list of its teams.
pub proof fn lemma_team_list_exists(tp: Seq<PlayerMoves>)
    ensures
        is_team_list(tp, team_list(tp)),
    decreases tp.len(),
{
    if tp.len() == 0 {
        let e = Seq::<i32>::empty();
        assert(is_team_list(tp, e));
    } else {
        let prev = tp.drop_last();
        lemma_team_list_exists(prev);
        let l = team_list(prev);
        let x = tp.last().team;
        if l.contains(x) {
            assert forall|t: i32| l.contains(t) <==> has_team(tp, t) by {
                if has_team(tp, t) {
                    let j = choose|j: int| 0 <= j < tp.len() && tp[j].team == t;
                    if j < prev.len() {
                        assert(prev[j].team == t);
                    }
                }
                if l.contains(t) {
                    assert(has_team(prev, t));
                    let j = choose|j: int| 0 <= j < prev.len() && prev[j].team == t;
                    assert(tp[j].team == t);
                }
            }
            assert(is_team_list(tp, l));
        } else {
            let j = team_slot(l, x);
            let r = l.insert(j, x);
            assert forall|a: int, b: int| 0 <= a < b < r.len() implies r[a] < r[b] by {
                if b < j {
                } else if a < j && b == j {
                } else if a < j && b > j {
                    assert(r[b] == l[b - 1]);
                    if b - 1 > j {
                        assert(l[j] < l[b - 1]);
                    }
                } else if a == j {
                    assert(r[b] == l[b - 1]);
                    assert(l[j] != x);
                    if b - 1 > j {
                        assert(l[j] < l[b - 1]);
                    }
                } else {
                    assert(r[a] == l[a - 1]);
                    assert(r[b] == l[b - 1]);
                }
            }
            assert forall|t: i32| r.contains(t) <==> has_team(tp, t) by {
                if has_team(tp, t) {
                    let q = choose|q: int| 0 <= q < tp.len() && tp[q].team == t;
                    if q < prev.len() {
                        assert(prev[q].team == t);
                        assert(l.contains(t));
                        let m = choose|m: int| 0 <= m < l.len() && l[m] == t;
                        if m < j {
                            assert(r[m] == t);
                        } else {
                            assert(r[m + 1] == t);
                        }
                    } else {
                        assert(r[j] == t);
                    }
                }
                if r.contains(t) {
                    let m = choose|m: int| 0 <= m < r.len() && r[m] == t;
                    if m == j {
                        assert(tp[tp.len() - 1].team == t);
                    } else {
                        if m < j {
                            assert(l[m] == t);
                        } else {
                            assert(l[m - 1] == t);
                        }
                        assert(l.contains(t));
                        assert(has_team(prev, t));
                        let q = choose|q: int| 0 <= q < prev.len() && prev[q].team == t;
                        assert(tp[q].team == t);
                    }
                }
            }
            assert(is_team_list(tp, r));
        }
    }
}

/// The first position of the ascending list `l` holding a value not below `x`.
proof fn team_slot(l: Seq<i32>, x: i32) -> (j: int)
    ensures
        0 <= j <= l.len(),
        forall|k: int| 0 <= k < j ==> l[k] < x,
        j < l.len() ==> l[j] >= x,
    decreases l.len(),
{
    if l.len() == 0 {
        0
    } else if l[0] >= x {
        0
    } else {
        let j = team_slot(l.drop_first(), x);
        assert forall|k: int| 0 <= k < j + 1 implies l[k] < x by {
            if k > 0 {
                assert(l[k] == l.drop_first()[k - 1]);
            }
        }
        j + 1
    }
}

/// The smallest id in `ids`, or 0 for none.
pub open spec fn min_id(ids: Seq<i32>) -> i32
    decreases ids.len(),
{
    if ids.len() == 0 {
        0
    } else if ids.len() == 1 {
        ids[0]
    } else {
        let m = min_id(ids.drop_last());
        if ids.last() < m { ids.last() } else { m }
    }
}

/// The largest id in `ids`, or 0 for none.
pub open spec fn max_id(ids: Seq<i32>) -> i32
    decreases ids.len(),
{
    if ids.len() == 0 {
        0
    } else if ids.len() == 1 {
        ids[0]
    } else {
        let m = max_id(ids.drop_last());
        if ids.last() > m { ids.last() } else { m }
    }
}

/// The ids of the moves `s`, in order.
pub open spec fn move_ids(s: Seq<PlayerMoves>) -> Seq<i32> {
    s.map_values(|p: PlayerMoves| p.id)
}

/// The smallest and the largest id of the moves `players` (0 and 0 for no
/// moves): the range of moves that the roll archives.
pub fn move_id_range(players: &Vec<PlayerMoves>) -> (r: (i32, i32))
    ensures
        r == (min_id(move_ids(players@)), max_id(move_ids(players@))),
{
    if players.len() == 0 {
        return (0, 0);
    }
    let mut lo = players[0].id;
    let mut hi = players[0].id;
    let mut i: usize = 1;
    assert(move_ids(players@).take(1) =~= seq![players@[0].id]);
    while i < players.len()
        invariant
            1 <= i <= players.len(),
            lo == min_id(move_ids(players@).take(i as int)),
            hi == max_id(move_ids(players@).take(i as int)),
        decreases players.len() - i,
    {
        let id = players[i].id;
        assert(move_ids(players@).take(i as int + 1).drop_last() =~= move_ids(players@).take(i as int));
        if id < lo {
            lo = id;
        }
        if id > hi {
            hi = id;
        }
        i = i + 1;
    }
    assert(move_ids(players@).take(players.len() as int) =~= move_ids(players@));
    (lo, hi)
}

/// Every id of `ids` lies between [`min_id`] and [`max_id`], which are ids of `ids`.
pub proof fn lemma_id_range(ids: Seq<i32>)
    requires
        ids.len() > 0,
    ensures
        ids.contains(min_id(ids)),
        ids.contains(max_id(ids)),
        forall|i: int| 0 <= i < ids.len() ==> min_id(ids) <= #[trigger] ids[i] <= max_id(ids),
    decreases ids.len(),
{
    if ids.len() == 1 {
        assert(ids[0] == min_id(ids));
    } else {
        let prev = ids.drop_last();
        lemma_id_range(prev);
        assert forall|i: int| 0 <= i < ids.len() implies min_id(ids) <= #[trigger] ids[i] <= max_id(ids) by {
            if i < ids.len() - 1 {
                assert(ids[i] == prev[i]);
            }
        }
        if ids.last() < min_id(prev) {
            assert(ids[ids.len() - 1] == min_id(ids));
        } else {
            let j = choose|j: int| 0 <= j < prev.len() && prev[j] == min_id(prev);
            assert(ids[j] == min_id(ids));
        }
        if ids.last() > max_id(prev) {
            assert(ids[ids.len() - 1] == max_id(ids));
        } else {
            let j = choose|j: int| 0 <= j < prev.len() && prev[j] == max_id(prev);
            assert(ids[j] == max_id(ids));
        }
    }
}

// ---------------------------------------------------------------------------
// Every move counted once

/// The number of moves for `team` with mercenary flag `merc` among those that
/// the first `n` territories take.
pub open spec fn team_moves_upto(ts: Seq<TerritoryOwners>, ps: Seq<PlayerMoves>, team: i32, merc: bool, n: int) -> int
    decreases n,
{
    if n <= 0 {
        0
    } else {
        team_moves_upto(ts, ps, team, merc, n - 1) + team_move_count(territory_moves(ts, ps, n - 1), team, merc)
    }
}

/// What the counts can have grown to after the first `n` territories.
pub open spec fn roll_bound(ts: Seq<TerritoryOwners>, ps: Seq<PlayerMoves>, n: int) -> int
    decreases n,
{
    if n <= 0 {
        0
    } else {
        let tp = territory_moves(ts, ps, n - 1);
        roll_bound(ts, ps, n - 1) + 1 + moves_weight(tp) + abs_power_sum(tp)
    }
}

proof fn lemma_roll_bound(ts: Seq<TerritoryOwners>, ps: Seq<PlayerMoves>, n: int)
    requires
        roll_fits(ts, ps),
        0 <= n <= ts.len(),
    ensures
        roll_bound(ts, ps, n) >= 0,
        roll_bound(ts, ps, n) + placed_weight(ts, remaining_moves(ts, ps, n)) + (ts.len() - n) <= i32::MAX,
    decreases n,
{
    if n > 0 {
        lemma_roll_bound(ts, ps, n - 1);
        let rem = remaining_moves(ts, ps, n - 1);
        let tid = ts[n - 1].territory_id;
        let tp = territory_moves(ts, ps, n - 1);
        lemma_placed_split(ts, rem, tid);
        lemma_territory_moves_elems(ts, ps, n - 1);
        assert forall|k: int| 0 <= k < tp.len() implies on_some_territory(ts, #[trigger] tp[k]) by {}
        lemma_placed_all_on(ts, tp);
        lemma_placed_nonneg(ts, off_territory(rem, tid));
        lemma_moves_weight_nonneg(tp);
        lemma_abs_power_sum(tp);
    }
}

proof fn lemma_credited_within(m: Map<i32, Stats>, key: i32, init: Stats, add: int, c: int)
    requires
        c >= 0,
        table_within(m, c),
        stats_within(init, c),
        c + 1 + abs(add) <= i32::MAX,
    ensures
        table_within(credited(m, key, init, add), c + 1 + abs(add)),
        credited(m, key, init, add).contains_key(key),
        forall|k: i32| #[trigger] credited(m, key, init, add).contains_key(k) <==> (m.contains_key(k) || k == key),
        forall|k: i32| #[trigger] credited(m, key, init, add).contains_key(k) ==>
            credited(m, key, init, add)[k].playercount == entry_or(m, k, init).playercount,
{
    let r = credited(m, key, init, add);
    assert(stats_within(entry_or(m, key, init), c));
    assert forall|k: i32| r.contains_key(k) implies stats_within(#[trigger] r[k], c + 1 + abs(add)) by {
        if k != key {
            assert(stats_within(m[k], c));
        }
    }
}

proof fn lemma_settle_within(m: Map<i32, Stats>, t: TerritoryOwners, tp: Seq<PlayerMoves>, victor: i32, b: int)
    requires
        b >= 0,
        table_within(m, b),
        b + 1 + moves_weight(tp) + abs_power_sum(tp) <= i32::MAX,
    ensures
        table_within(settle_stats(m, t, tp, victor), b + 1 + moves_weight(tp) + abs_power_sum(tp)),
{
    let bound = b + 1 + moves_weight(tp) + abs_power_sum(tp);
    let teams = team_list(tp);
    lemma_moves_weight_nonneg(tp);
    lemma_abs_power_sum(tp);
    if teams.len() == 0 {
        lemma_credited_within(m, t.owner_id, territory_init(t, t.owner_id), 0, b);
        lemma_table_within_mono(settle_stats(m, t, tp, victor), b + 1, bound);
    } else if teams.len() == 1 {
        let add = power_sum(tp);
        let c1 = credited(m, teams[0], territory_init(t, teams[0]), add);
        lemma_credited_within(m, teams[0], territory_init(t, teams[0]), add, b);
        lemma_count_moves_within(c1, tp, b + 1 + abs(add));
        lemma_table_within_mono(settle_stats(m, t, tp, victor), b + 1 + abs(add) + moves_weight(tp), bound);
    } else {
        let c1 = credited(m, victor, territory_init(t, victor), 0);
        lemma_credited_within(m, victor, territory_init(t, victor), 0, b);
        lemma_count_moves_within(c1, tp, b + 1);
        lemma_table_within_mono(settle_stats(m, t, tp, victor), b + 1 + moves_weight(tp), bound);
    }
}

proof fn lemma_stats_upto_within(ts: Seq<TerritoryOwners>, ps: Seq<PlayerMoves>, victors: Seq<i32>, n: int)
    requires
        roll_fits(ts, ps),
        0 <= n <= ts.len(),
    ensures
        table_within(stats_upto(ts, ps, victors, n), roll_bound(ts, ps, n)),
    decreases n,
{
    if n > 0 {
        lemma_stats_upto_within(ts, ps, victors, n - 1);
        lemma_roll_bound(ts, ps, n - 1);
        lemma_roll_bound(ts, ps, n);
        lemma_placed_nonneg(ts, remaining_moves(ts, ps, n));
        lemma_settle_within(stats_upto(ts, ps, victors, n - 1), ts[n - 1], territory_moves(ts, ps, n - 1), victors[n - 1], roll_bound(ts, ps, n - 1));
    }
}

/// The number of moves of `s` for `team` whose mercenary flag is `merc`.
pub open spec fn team_move_count(s: Seq<PlayerMoves>, team: i32, merc: bool) -> int
    decreases s.len(),
{
    if s.len() == 0 {
        0
    } else {
        team_move_count(s.drop_last(), team, merc)
            + if s.last().team == team && s.last().merc == merc { 1int } else { 0int }
    }
}

/// Counting the moves `tp` into `m` adds each move of a team's own player to
/// that team's player count, and each mercenary's move to its mercenary
/// count, and nothing to any other team.
proof fn lemma_count_moves_players(m: Map<i32, Stats>, tp: Seq<PlayerMoves>, k: i32, c: int)
    requires
        c >= 0,
        table_within(m, c),
        c + moves_weight(tp) <= i32::MAX,
    ensures
        count_moves(m, tp).contains_key(k) <==> (m.contains_key(k) || on_team(tp, k).len() > 0),
        count_moves(m, tp).contains_key(k) ==> count_moves(m, tp)[k].playercount
            == (if m.contains_key(k) { m[k].playercount as int } else { 0 }) + team_move_count(tp, k, false),
        count_moves(m, tp).contains_key(k) ==> count_moves(m, tp)[k].merccount
            == (if m.contains_key(k) { m[k].merccount as int } else { 0 }) + team_move_count(tp, k, true),
        on_team(tp, k).len() == 0 ==> team_move_count(tp, k, false) == 0 && team_move_count(tp, k, true) == 0,
    decreases tp.len(),
{
    if tp.len() > 0 {
        let pre = tp.drop_last();
        let p = tp.last();
        lemma_moves_weight_nonneg(pre);
        lemma_count_moves_players(m, pre, k, c);
        lemma_count_moves_within(m, pre, c);
        let m1 = count_moves(m, pre);
        if p.team == k {
            let e = entry_or(m1, k, move_init(p));
            assert(stats_within(e, c + moves_weight(pre)));
            assert(on_team(tp, k) == on_team(pre, k).push(p));
        } else {
            assert(on_team(tp, k) == on_team(pre, k));
        }
    }
}

proof fn lemma_no_teams_no_moves(tp: Seq<PlayerMoves>)
    requires
        team_list(tp).len() == 0,
    ensures
        tp.len() == 0,
{
    lemma_team_list_exists(tp);
    if tp.len() > 0 {
        assert(has_team(tp, tp[0].team));
        assert(team_list(tp).contains(tp[0].team));
    }
}

/// Every move that the roll takes counts once for its own team: a move of one
/// of the team's own players toward its player count, a mercenary's move
/// toward its mercenary count. After the first `n` territories, a team's
/// statistics hold as many players and mercenaries as moves of each kind it
/// made on them, and a team without statistics made none.
pub proof fn lemma_roll_player_counts(ts: Seq<TerritoryOwners>, ps: Seq<PlayerMoves>, victors: Seq<i32>, team: i32, n: int)
    requires
        roll_fits(ts, ps),
        0 <= n <= ts.len(),
    ensures
        stats_upto(ts, ps, victors, n).contains_key(team) ==>
            stats_upto(ts, ps, victors, n)[team].playercount == team_moves_upto(ts, ps, team, false, n)
            && stats_upto(ts, ps, victors, n)[team].merccount == team_moves_upto(ts, ps, team, true, n),
        !stats_upto(ts, ps, victors, n).contains_key(team) ==>
            team_moves_upto(ts, ps, team, false, n) == 0 && team_moves_upto(ts, ps, team, true, n) == 0,
    decreases n,
{
    if n > 0 {
        lemma_roll_player_counts(ts, ps, victors, team, n - 1);
        lemma_stats_upto_within(ts, ps, victors, n - 1);
        lemma_roll_bound(ts, ps, n - 1);
        lemma_roll_bound(ts, ps, n);
        lemma_placed_nonneg(ts, remaining_moves(ts, ps, n));
        let m = stats_upto(ts, ps, victors, n - 1);
        let t = ts[n - 1];
        let tp = territory_moves(ts, ps, n - 1);
        let v = victors[n - 1];
        let b = roll_bound(ts, ps, n - 1);
        let teams = team_list(tp);
        lemma_moves_weight_nonneg(tp);
        lemma_abs_power_sum(tp);
        if teams.len() == 0 {
            lemma_no_teams_no_moves(tp);
            lemma_credited_within(m, t.owner_id, territory_init(t, t.owner_id), 0, b);
            assert(team_move_count(tp, team, false) == 0);
            assert(team_move_count(tp, team, true) == 0);
            let c1 = credited(m, t.owner_id, territory_init(t, t.owner_id), 0);
            if c1.contains_key(team) {
                assert(c1[team].merccount == entry_or(m, team, territory_init(t, t.owner_id)).merccount);
            }
        } else {
            let key = if teams.len() == 1 { teams[0] } else { v };
            let init = if teams.len() == 1 { territory_init(t, teams[0]) } else { territory_init(t, v) };
            let add = if teams.len() == 1 { power_sum(tp) } else { 0 };
            let c1 = credited(m, key, init, add);
            assert(settle_stats(m, t, tp, v) == count_moves(c1, tp));
            lemma_credited_within(m, key, init, add, b);
            lemma_count_moves_players(c1, tp, team, b + 1 + abs(add));
            assert(c1.contains_key(team) <==> (m.contains_key(team) || team == key));
            if c1.contains_key(team) {
                assert(c1[team].playercount == entry_or(m, team, init).playercount);
                assert(c1[team].merccount == entry_or(m, team, init).merccount);
            }
        }
    }
}

/// Counting moves leaves the territory counts as they were, a new entry
/// starting from none.
proof fn lemma_count_moves_territories(m: Map<i32, Stats>, tp: Seq<PlayerMoves>, k: i32)
    ensures
        count_moves(m, tp).contains_key(k) <==> (m.contains_key(k) || on_team(tp, k).len() > 0),
        count_moves(m, tp).contains_key(k) ==> count_moves(m, tp)[k].territorycount
            == (if m.contains_key(k) { m[k].territorycount } else { 0i32 }),
    decreases tp.len(),
{
    if tp.len() > 0 {
        let pre = tp.drop_last();
        let p = tp.last();
        lemma_count_moves_territories(m, pre, k);
        if p.team == k {
            assert(on_team(tp, k) == on_team(pre, k).push(p));
        } else {
            assert(on_team(tp, k) == on_team(pre, k));
        }
    }
}

/// The number of the new ownerships `owners` that go to `team`.
pub open spec fn owned_count(owners: Seq<TerritoryOwnersInsert>, team: i32) -> int
    decreases owners.len(),
{
    if owners.len() == 0 {
        0
    } else {
        owned_count(owners.drop_last(), team) + if owners.last().owner_id == team { 1int } else { 0int }
    }
}

/// Each territory counts toward the territories of the team that owns it
/// after the roll, and of no other: after the first `n` territories, a team's
/// statistics hold as many territories as it won, and a team without
/// statistics won none. This holds whichever MVPs were drawn.
pub proof fn lemma_roll_territory_counts(
    ts: Seq<TerritoryOwners>,
    ps: Seq<PlayerMoves>,
    victors: Seq<i32>,
    picks: Seq<int>,
    team: i32,
    n: int,
)
    requires
        roll_fits(ts, ps),
        0 <= n <= ts.len(),
    ensures
        stats_upto(ts, ps, victors, n).contains_key(team) ==>
            stats_upto(ts, ps, victors, n)[team].territorycount == owned_count(owners_upto(ts, ps, victors, picks, n), team),
        !stats_upto(ts, ps, victors, n).contains_key(team) ==> owned_count(owners_upto(ts, ps, victors, picks, n), team) == 0,
    decreases n,
{
    if n > 0 {
        lemma_roll_territory_counts(ts, ps, victors, picks, team, n - 1);
        lemma_stats_upto_within(ts, ps, victors, n - 1);
        lemma_roll_bound(ts, ps, n - 1);
        lemma_roll_bound(ts, ps, n);
        lemma_placed_nonneg(ts, remaining_moves(ts, ps, n));
        let m = stats_upto(ts, ps, victors, n - 1);
        let t = ts[n - 1];
        let tp = territory_moves(ts, ps, n - 1);
        let v = victors[n - 1];
        let b = roll_bound(ts, ps, n - 1);
        let teams = team_list(tp);
        lemma_moves_weight_nonneg(tp);
        lemma_abs_power_sum(tp);
        let prev = owners_upto(ts, ps, victors, picks, n - 1);
        let o = settle_owner(t, tp, v, picks[n - 1]);
        assert(owners_upto(ts, ps, victors, picks, n).drop_last() =~= prev);
        let key = winner(t, teams, v);
        assert(o.owner_id == key);
        let init = if teams.len() == 0 { territory_init(t, t.owner_id) } else if teams.len() == 1 { territory_init(t, teams[0]) } else { territory_init(t, v) };
        let add = if teams.len() == 1 { power_sum(tp) } else { 0 };
        let c1 = credited(m, key, init, add);
        lemma_credited_within(m, key, init, add, b);
        assert(stats_within(entry_or(m, key, init), b));
        if teams.len() == 0 {
            assert(settle_stats(m, t, tp, v) == c1);
        } else {
            assert(settle_stats(m, t, tp, v) == count_moves(c1, tp));
            lemma_count_moves_territories(c1, tp, team);
        }
    }
}

/// The number of entries of `keys` equal to `k`.
pub open spec fn key_hits(keys: Seq<i32>, k: i32) -> int
    decreases keys.len(),
{
    if keys.len() == 0 {
        0
    } else {
        key_hits(keys.drop_last(), k) + if keys.last() == k { 1int } else { 0int }
    }
}

/// The ownerships of `owners` summed over the teams `keys`.
pub open spec fn owned_sum(owners: Seq<TerritoryOwnersInsert>, keys: Seq<i32>) -> int
    decreases keys.len(),
{
    if keys.len() == 0 {
        0
    } else {
        owned_sum(owners, keys.drop_last()) + owned_count(owners, keys.last())
    }
}

/// The territory counts of the statistics `m` summed over the teams `keys`,
/// a team without statistics counting none.
pub open spec fn territory_sum(m: Map<i32, Stats>, keys: Seq<i32>) -> int
    decreases keys.len(),
{
    if keys.len() == 0 {
        0
    } else {
        territory_sum(m, keys.drop_last())
            + if m.contains_key(keys.last()) { m[keys.last()].territorycount as int } else { 0int }
    }
}

proof fn lemma_key_hits_one(keys: Seq<i32>, k: i32)
    requires
        keys.no_duplicates(),
    ensures
        keys.contains(k) ==> key_hits(keys, k) == 1,
        !keys.contains(k) ==> key_hits(keys, k) == 0,
    decreases keys.len(),
{
    if keys.len() > 0 {
        let pre = keys.drop_last();
        assert(pre.no_duplicates());
        lemma_key_hits_one(pre, k);
        if keys.last() == k {
            if pre.contains(k) {
                let j = choose|j: int| 0 <= j < pre.len() && pre[j] == k;
                assert(keys[j] == keys[keys.len() - 1]);
            }
        } else if keys.contains(k) {
            let j = choose|j: int| 0 <= j < keys.len() && keys[j] == k;
            assert(pre[j] == k);
        } else {
            if pre.contains(k) {
                let j = choose|j: int| 0 <= j < pre.len() && pre[j] == k;
                assert(keys[j] == k);
            }
        }
    }
}

proof fn lemma_owned_sum_push(owners: Seq<TerritoryOwnersInsert>, x: TerritoryOwnersInsert, keys: Seq<i32>)
    ensures
        owned_sum(owners.push(x), keys) == owned_sum(owners, keys) + key_hits(keys, x.owner_id),
    decreases keys.len(),
{
    if keys.len() > 0 {
        lemma_owned_sum_push(owners, x, keys.drop_last());
        assert(owners.push(x).drop_last() =~= owners);
    }
}

proof fn lemma_owned_sum_len(owners: Seq<TerritoryOwnersInsert>, keys: Seq<i32>)
    requires
        keys.no_duplicates(),
        forall|i: int| 0 <= i < owners.len() ==> keys.contains(#[trigger] owners[i].owner_id),
    ensures
        owned_sum(owners, keys) == owners.len(),
    decreases owners.len(),
{
    if owners.len() == 0 {
        lemma_owned_sum_empty(owners, keys);
    } else {
        let pre = owners.drop_last();
        let x = owners.last();
        assert forall|i: int| 0 <= i < pre.len() implies keys.contains(#[trigger] pre[i].owner_id) by {
            assert(pre[i] == owners[i]);
        }
        lemma_owned_sum_len(pre, keys);
        assert(pre.push(x) =~= owners);
        lemma_owned_sum_push(pre, x, keys);
        assert(keys.contains(owners[owners.len() - 1].owner_id));
        lemma_key_hits_one(keys, x.owner_id);
    }
}

proof fn lemma_owned_sum_empty(owners: Seq<TerritoryOwnersInsert>, keys: Seq<i32>)
    requires
        owners.len() == 0,
    ensures
        owned_sum(owners, keys) == 0,
    decreases keys.len(),
{
    if keys.len() > 0 {
        lemma_owned_sum_empty(owners, keys.drop_last());
    }
}

proof fn lemma_owned_count_positive(owners: Seq<TerritoryOwnersInsert>, i: int)
    requires
        0 <= i < owners.len(),
    ensures
        owned_count(owners, owners[i].owner_id) > 0,
    decreases owners.len(),
{
    lemma_owned_count_nonneg(owners.drop_last(), owners[i].owner_id);
    if i < owners.len() - 1 {
        assert(owners.drop_last()[i] == owners[i]);
        lemma_owned_count_positive(owners.drop_last(), i);
    }
}

proof fn lemma_owned_count_nonneg(owners: Seq<TerritoryOwnersInsert>, k: i32)
    ensures
        owned_count(owners, k) >= 0,
    decreases owners.len(),
{
    if owners.len() > 0 {
        lemma_owned_count_nonneg(owners.drop_last(), k);
    }
}

/// The territory counts of all teams add up to the number of territories:
/// summed over any list of teams that names each team with statistics once,
/// the counts after the roll give the number of territories settled.
pub proof fn lemma_roll_territories_add_up(
    ts: Seq<TerritoryOwners>,
    ps: Seq<PlayerMoves>,
    victors: Seq<i32>,
    keys: Seq<i32>,
)
    requires
        roll_fits(ts, ps),
        keys.no_duplicates(),
        forall|k: i32| stats_upto(ts, ps, victors, ts.len() as int).contains_key(k) ==> keys.contains(k),
    ensures
        territory_sum(stats_upto(ts, ps, victors, ts.len() as int), keys) == ts.len(),
{
    let n = ts.len() as int;
    let picks = Seq::new(ts.len(), |i: int| 0int);
    let m = stats_upto(ts, ps, victors, n);
    let owners = owners_upto(ts, ps, victors, picks, n);
    lemma_owners_upto_index(ts, ps, victors, picks, n);
    assert forall|i: int| 0 <= i < owners.len() implies keys.contains(#[trigger] owners[i].owner_id) by {
        lemma_owned_count_positive(owners, i);
        lemma_roll_territory_counts(ts, ps, victors, picks, owners[i].owner_id, n);
    }
    lemma_owned_sum_len(owners, keys);
    lemma_territory_sum_owned(ts, ps, victors, picks, keys);
}

proof fn lemma_territory_sum_owned(ts: Seq<TerritoryOwners>, ps: Seq<PlayerMoves>, victors: Seq<i32>, picks: Seq<int>, keys: Seq<i32>)
    requires
        roll_fits(ts, ps),
    ensures
        territory_sum(stats_upto(ts, ps, victors, ts.len() as int), keys)
            == owned_sum(owners_upto(ts, ps, victors, picks, ts.len() as int), keys),
    decreases keys.len(),
{
    if keys.len() > 0 {
        lemma_territory_sum_owned(ts, ps, victors, picks, keys.drop_last());
        lemma_roll_territory_counts(ts, ps, victors, picks, keys.last(), ts.len() as int);
    }
}

// ---------------------------------------------------------------------------
// What counting a move does to its team's tallies

/// The number of moves of `s` for `team` with exactly `k` stars.
pub open spec fn team_stars_count(s: Seq<PlayerMoves>, team: i32, k: int) -> int
    decreases s.len(),
{
    if s.len() == 0 {
        0
    } else {
        team_stars_count(s.drop_last(), team, k) + if s.last().team == team && s.last().stars == k { 1int } else { 0int }
    }
}

/// The number of moves of `s` for `team` whose star number is not 2 to 5.
pub open spec fn team_unclassed_count(s: Seq<PlayerMoves>, team: i32) -> int
    decreases s.len(),
{
    if s.len() == 0 {
        0
    } else {
        team_unclassed_count(s.drop_last(), team)
            + if s.last().team == team && !(2 <= s.last().stars <= 5) { 1int } else { 0int }
    }
}

/// The stars of the moves of `s` for `team`, added up.
pub open spec fn team_stars_total(s: Seq<PlayerMoves>, team: i32) -> int
    decreases s.len(),
{
    if s.len() == 0 {
        0
    } else {
        team_stars_total(s.drop_last(), team) + if s.last().team == team { s.last().stars as int } else { 0int }
    }
}

/// The rounded powers of the moves of `s` for `team`, added up.
pub open spec fn team_power_total(s: Seq<PlayerMoves>, team: i32) -> int
    decreases s.len(),
{
    if s.len() == 0 {
        0
    } else {
        team_power_total(s.drop_last(), team) + if s.last().team == team { s.last().power as int } else { 0int }
    }
}

/// The entry of `k` in `m`, or all-zero tallies where there is none.
pub open spec fn tallies_before(m: Map<i32, Stats>, k: i32) -> Stats {
    if m.contains_key(k) { m[k] } else { new_stats(0, 0, 0, k) }
}

/// Counting the moves `tp` raises the tallies of each team by what its own
/// moves bring, and leaves the other teams' tallies alone: each star class
/// (2 to 5 stars, any other number counting as one star) grows by the number
/// of the team's moves in that class, the star power by their stars, and the
/// effective power by their rounded powers.
pub proof fn lemma_count_moves_tallies(m: Map<i32, Stats>, tp: Seq<PlayerMoves>, k: i32, c: int)
    requires
        c >= 0,
        table_within(m, c),
        c + moves_weight(tp) <= i32::MAX,
    ensures
        count_moves(m, tp).contains_key(k) ==> ({
            let e = count_moves(m, tp)[k];
            let b = tallies_before(m, k);
            &&& e.ones == b.ones + team_unclassed_count(tp, k)
            &&& e.twos == b.twos + team_stars_count(tp, k, 2)
            &&& e.threes == b.threes + team_stars_count(tp, k, 3)
            &&& e.fours == b.fours + team_stars_count(tp, k, 4)
            &&& e.fives == b.fives + team_stars_count(tp, k, 5)
            &&& e.starpower == b.starpower + team_stars_total(tp, k)
            &&& e.effectivepower == b.effectivepower + team_power_total(tp, k)
        }),
        !count_moves(m, tp).contains_key(k) ==> team_unclassed_count(tp, k) == 0
            && team_stars_count(tp, k, 2) == 0 && team_stars_count(tp, k, 3) == 0
            && team_stars_count(tp, k, 4) == 0 && team_stars_count(tp, k, 5) == 0
            && team_stars_total(tp, k) == 0 && team_power_total(tp, k) == 0,
    decreases tp.len(),
{
    if tp.len() > 0 {
        let pre = tp.drop_last();
        let p = tp.last();
        lemma_moves_weight_nonneg(pre);
        lemma_count_moves_tallies(m, pre, k, c);
        lemma_count_moves_within(m, pre, c);
        lemma_count_moves_territories(m, pre, k);
        lemma_count_moves_territories(m, tp, k);
        let m1 = count_moves(m, pre);
        if p.team == k {
            let e = entry_or(m1, k, move_init(p));
            assert(stats_within(e, c + moves_weight(pre)));
        }
    }
}

/// The moves with exactly `k` stars.
pub open spec fn with_stars(k: i32) -> spec_fn(PlayerMoves) -> bool {
    |p: PlayerMoves| p.stars == k
}

/// The moves for `team` with exactly `k` stars whose alt score stays below
/// [`ALT_SCORE_LIMIT`].
pub open spec fn team_class(team: i32, k: i32) -> spec_fn(PlayerMoves) -> bool {
    |p: PlayerMoves| p.team == team && p.alt_score < ALT_SCORE_LIMIT && p.stars == k
}

/// On a territory that at most one team moved on, the single row counts the
/// territory's moves with exactly one, two, three, four and five stars, and
/// their rounded power; on a territory that several teams moved on, there is
/// one row per team, in ascending order, each counting that team's moves of
/// each star number whose alt score stays below the limit, beside the rounded
/// power of all the territory's moves.
pub proof fn lemma_territory_row_classes(t: TerritoryOwners, tp: Seq<PlayerMoves>)
    requires
        tp.len() <= i32::MAX,
        abs_power_sum(tp) <= i32::MAX,
    ensures
        team_list(tp).len() <= 1 ==> ({
            let r = territory_rows(t, tp);
            &&& r.len() == 1
            &&& r[0].territory == t.territory_id && !r[0].contested
            &&& r[0].ones == tp.filter(with_stars(1)).len()
            &&& r[0].twos == tp.filter(with_stars(2)).len()
            &&& r[0].threes == tp.filter(with_stars(3)).len()
            &&& r[0].fours == tp.filter(with_stars(4)).len()
            &&& r[0].fives == tp.filter(with_stars(5)).len()
            &&& r[0].territory_power == power_sum(tp)
        }),
        team_list(tp).len() >= 2 ==> ({
            let r = territory_rows(t, tp);
            let teams = team_list(tp);
            &&& r.len() == teams.len()
            &&& forall|j: int| 0 <= j < r.len() ==> {
                let team = teams[j];
                &&& (#[trigger] r[j]).team == team && r[j].territory == t.territory_id && r[j].contested
                &&& r[j].ones == tp.filter(team_class(team, 1)).len()
                &&& r[j].twos == tp.filter(team_class(team, 2)).len()
                &&& r[j].threes == tp.filter(team_class(team, 3)).len()
                &&& r[j].fours == tp.filter(team_class(team, 4)).len()
                &&& r[j].fives == tp.filter(team_class(team, 5)).len()
                &&& r[j].territory_power == power_sum(tp)
            }
        }),
{
    lemma_abs_power_sum(tp);
    let teams = team_list(tp);
    assert forall|k: i32| #[trigger] stars_count(tp, k) == tp.filter(with_stars(k)).len() by {
        lemma_stars_count_filter(tp, k);
    }
    assert forall|team: i32, k: i32| #[trigger] class_count(tp, team, k)
        == tp.filter(team_class(team, k)).len() by {
        lemma_class_count_filter(tp, team, k);
    }
    assert forall|k: i32| 0 <= #[trigger] stars_count(tp, k) <= tp.len() by {
        lemma_counts_bounded(tp, 0, k);
    }
    assert forall|team: i32, k: i32| 0 <= #[trigger] class_count(tp, team, k) <= tp.len() by {
        lemma_counts_bounded(tp, team, k);
    }
    if teams.len() <= 1 {
        assert(stars_count(tp, 1) == tp.filter(with_stars(1)).len());
        assert(stars_count(tp, 2) == tp.filter(with_stars(2)).len());
        assert(stars_count(tp, 3) == tp.filter(with_stars(3)).len());
        assert(stars_count(tp, 4) == tp.filter(with_stars(4)).len());
        assert(stars_count(tp, 5) == tp.filter(with_stars(5)).len());
        assert(0 <= stars_count(tp, 1) <= tp.len());
        assert(0 <= stars_count(tp, 2) <= tp.len());
        assert(0 <= stars_count(tp, 3) <= tp.len());
        assert(0 <= stars_count(tp, 4) <= tp.len());
        assert(0 <= stars_count(tp, 5) <= tp.len());
    } else {
        let r = territory_rows(t, tp);
        assert forall|j: int| 0 <= j < r.len() implies {
            let team = teams[j];
            &&& (#[trigger] r[j]).team == team && r[j].territory == t.territory_id && r[j].contested
            &&& r[j].ones == tp.filter(team_class(team, 1)).len()
            &&& r[j].twos == tp.filter(team_class(team, 2)).len()
            &&& r[j].threes == tp.filter(team_class(team, 3)).len()
            &&& r[j].fours == tp.filter(team_class(team, 4)).len()
            &&& r[j].fives == tp.filter(team_class(team, 5)).len()
            &&& r[j].territory_power == power_sum(tp)
        } by {
            let team = teams[j];
            assert(0 <= class_count(tp, team, 1) <= tp.len());
            assert(0 <= class_count(tp, team, 2) <= tp.len());
            assert(0 <= class_count(tp, team, 3) <= tp.len());
            assert(0 <= class_count(tp, team, 4) <= tp.len());
            assert(0 <= class_count(tp, team, 5) <= tp.len());
        }
    }
}

proof fn lemma_stars_count_filter(s: Seq<PlayerMoves>, k: i32)
    ensures
        stars_count(s, k) == s.filter(with_stars(k)).len(),
    decreases s.len(),
{
    reveal(Seq::filter);
    if s.len() > 0 {
        lemma_stars_count_filter(s.drop_last(), k);
    }
}

proof fn lemma_class_count_filter(s: Seq<PlayerMoves>, team: i32, k: i32)
    ensures
        class_count(s, team, k) == s.filter(team_class(team, k)).len(),
    decreases s.len(),
{
    reveal(Seq::filter);
    if s.len() > 0 {
        lemma_class_count_filter(s.drop_last(), team, k);
    }
}

/// The MVP candidates of a list of moves are exactly its moves whose alt
/// score stays below the limit and whose power is above zero, whatever else
/// the moves hold (a mercenary's move among them).
pub proof fn lemma_mvp_candidates_by_fields(s: Seq<PlayerMoves>)
    ensures
        forall|k: int| 0 <= k < s.len() && (#[trigger] s[k]).alt_score < ALT_SCORE_LIMIT && s[k].positive_power
            ==> eligible_moves(s).contains(s[k]),
        forall|i: int| 0 <= i < eligible_moves(s).len() ==> (#[trigger] eligible_moves(s)[i]).alt_score < ALT_SCORE_LIMIT
            && eligible_moves(s)[i].positive_power && s.contains(eligible_moves(s)[i]),
    decreases s.len(),
{
    if s.len() > 0 {
        let pre = s.drop_last();
        lemma_mvp_candidates_by_fields(pre);
        let r = eligible_moves(s);
        let r0 = eligible_moves(pre);
        assert forall|k: int| 0 <= k < s.len() && (#[trigger] s[k]).alt_score < ALT_SCORE_LIMIT && s[k].positive_power
            implies r.contains(s[k]) by {
            if k < s.len() - 1 {
                assert(pre[k] == s[k]);
                let j = choose|j: int| 0 <= j < r0.len() && r0[j] == pre[k];
                assert(r[j] == s[k]);
            } else {
                assert(r[r.len() - 1] == s[k]);
            }
        }
        assert forall|i: int| 0 <= i < r.len() implies (#[trigger] r[i]).alt_score < ALT_SCORE_LIMIT
            && r[i].positive_power && s.contains(r[i]) by {
            if i < r0.len() {
                assert(r[i] == r0[i]);
                let j = choose|j: int| 0 <= j < pre.len() && pre[j] == r0[i];
                assert(s[j] == r[i]);
            } else {
                assert(s[s.len() - 1] == r[i]);
            }
        }
    }
}

} // verus!
