//! Placing a move: who may attack or defend which territory, with what
//! multiplier and power, and who may join which team.
use vstd::prelude::*;
use crate::ratings::{Ratings, Stats, ratings_of};
use crate::rng::random_index;
use crate::text::{lowercase, to_lowercase};

verus! {

/// Why a move is refused.
#[derive(Clone, Copy, Debug, PartialEq, Eq, Structural)]
pub enum MoveError {
    /// Neither the target nor a territory next to it belongs to the player's team.
    NotAdjacent,
    /// The player's team owns the target and everything around it.
    Surrounded,
}

impl MoveError {
    /// The message shown to the player.
    pub fn message(&self) -> (r: String)
        ensures
            r@ == move_error_message(*self),
    {
        match self {
            MoveError::NotAdjacent => String::from_str("You don't own that territory or an adjacent one"),
            MoveError::Surrounded => String::from_str("You own all the surrounding territories"),
        }
    }
}

pub open spec fn move_error_message(e: MoveError) -> Seq<char> {
    match e {
        MoveError::NotAdjacent => "You don't own that territory or an adjacent one"@,
        MoveError::Surrounded => "You own all the surrounding territories"@,
    }
}

/// Some entry of `adjacent` (owner, territory) has `team` as its owner.
pub open spec fn owns_some(adjacent: Seq<(i32, i32)>, team: i32) -> bool {
    exists|k: int| 0 <= k < adjacent.len() && (#[trigger] adjacent[k]).0 == team
}

/// Some entry of `adjacent` has an owner other than `team`.
pub open spec fn others_own_some(adjacent: Seq<(i32, i32)>, team: i32) -> bool {
    exists|k: int| 0 <= k < adjacent.len() && (#[trigger] adjacent[k]).0 != team
}

/// The index of the first entry of `adjacent` for territory `target`.
pub open spec fn target_index(adjacent: Seq<(i32, i32)>, target: i32) -> int {
    choose|k: int| 0 <= k < adjacent.len() && adjacent[k].1 == target
        && forall|m: int| 0 <= m < k ==> adjacent[m].1 != target
}

/// Some entry of `adjacent` is for territory `target`.
pub open spec fn lists_target(adjacent: Seq<(i32, i32)>, target: i32) -> bool {
    exists|k: int| 0 <= k < adjacent.len() && (#[trigger] adjacent[k]).1 == target
}

/// The multiplier of a move, in halves, given the draws that the move may
/// take: `aon_draw` (0 or 1) for all-or-nothing, `unaligned_draw` (4 or 5) for
/// a player without a team.
///
/// A player with a team gets twice the number of regions the team holds
/// (at least 1), five times `aon_draw` more when playing all-or-nothing with a
/// single territory left (`aon_multiplier` otherwise 1), and one and a half
/// times that when defending — that is, when the first listed entry for the
/// target belongs to the team. A player without a team gets `unaligned_draw / 4`.
pub open spec fn multiplier_halves(
    team: i32,
    adjacent: Seq<(i32, i32)>,
    target: i32,
    regions_owned: i64,
    territory_count: i32,
    aon: Option<bool>,
    aon_draw: int,
    unaligned_draw: int,
) -> Result<int, MoveError> {
    if !owns_some(adjacent, team) {
        Err(MoveError::NotAdjacent)
    } else if !others_own_some(adjacent, team) {
        Err(MoveError::Surrounded)
    } else if team != 0 {
        let regional = if 2 * regions_owned == 0 { 1 } else { 2 * regions_owned };
        let aon_multiplier = if aon == Some(true) && territory_count == 1 { 5 * aon_draw } else { 1 };
        let defending = adjacent[target_index(adjacent, target)].0 == team;
        Ok(if defending { 3 * regional * aon_multiplier } else { 2 * regional * aon_multiplier })
    } else {
        Ok(2 * (unaligned_draw / 4))
    }
}

/// The inputs for which the multiplier exists: the region count is a count
/// small enough for the multiplier's `i64` arithmetic, and where a team player
/// may move, the target is listed.
pub open spec fn multiplier_defined(team: i32, adjacent: Seq<(i32, i32)>, target: i32, regions_owned: i64) -> bool {
    &&& 0 <= regions_owned
    &&& 30 * regions_owned <= i64::MAX
    &&& (owns_some(adjacent, team) && others_own_some(adjacent, team) && team != 0 ==> lists_target(adjacent, target))
}

fn first_index_of_target(adjacent: &Vec<(i32, i32)>, target: i32) -> (k: usize)
    requires
        lists_target(adjacent@, target),
    ensures
        k == target_index(adjacent@, target),
        k < adjacent@.len(),
{
    let mut k: usize = 0;
    while k < adjacent.len() && adjacent[k].1 != target
        invariant
            0 <= k <= adjacent.len(),
            lists_target(adjacent@, target),
            forall|m: int| 0 <= m < k ==> adjacent@[m].1 != target,
        decreases adjacent.len() - k,
    {
        k = k + 1;
    }
    proof {
        if k == adjacent.len() {
            let j = choose|j: int| 0 <= j < adjacent@.len() && (#[trigger] adjacent@[j]).1 == target;
            assert(adjacent@[j].1 != target);
        }
    }
    let ghost w = target_index(adjacent@, target);
    assert(0 <= k < adjacent@.len() && adjacent@[k as int].1 == target
        && forall|m: int| 0 <= m < k ==> adjacent@[m].1 != target);
    assert(0 <= w < adjacent@.len() && adjacent@[w].1 == target
        && forall|m: int| 0 <= m < w ==> adjacent@[m].1 != target);
    assert(k == w) by {
        if k < w {
            assert(adjacent@[k as int].1 != target);
        } else if w < k {
            assert(adjacent@[w].1 != target);
        }
    }
    k
}

/// The multiplier of a move with the draws taken as arguments: see
/// [`multiplier_halves`].
pub fn territory_multiplier(
    team: i32,
    adjacent: &Vec<(i32, i32)>,
    target: i32,
    regions_owned: i64,
    territory_count: i32,
    aon: Option<bool>,
    aon_draw: i32,
    unaligned_draw: i32,
) -> (r: Result<i64, MoveError>)
    requires
        multiplier_defined(team, adjacent@, target, regions_owned),
        0 <= aon_draw < 2,
        4 <= unaligned_draw < 6,
    ensures
        r matches Ok(m) ==> multiplier_halves(team, adjacent@, target, regions_owned, territory_count, aon, aon_draw as int, unaligned_draw as int) == Ok::<int, MoveError>(m as int),
        r matches Err(e) ==> multiplier_halves(team, adjacent@, target, regions_owned, territory_count, aon, aon_draw as int, unaligned_draw as int) == Err::<int, MoveError>(e),
{
    let mut owned = false;
    let mut other = false;
    let mut k: usize = 0;
    while k < adjacent.len()
        invariant
            0 <= k <= adjacent.len(),
            owned <==> exists|m: int| #![trigger adjacent@[m]] 0 <= m < k && adjacent@[m].0 == team,
            other <==> exists|m: int| #![trigger adjacent@[m]] 0 <= m < k && adjacent@[m].0 != team,
        decreases adjacent.len() - k,
    {
        if adjacent[k].0 == team {
            owned = true;
        } else {
            other = true;
        }
        k = k + 1;
    }
    if !owned {
        return Err(MoveError::NotAdjacent);
    }
    if !other {
        return Err(MoveError::Surrounded);
    }
    if team != 0 {
        assert(0 <= regions_owned && 30 * regions_owned <= i64::MAX);
        let mut regional: i64 = 2 * regions_owned;
        if regional == 0 {
            regional = 1;
        }
        let mut aon_multiplier: i64 = 1;
        if aon == Some(true) && territory_count == 1 {
            aon_multiplier = 5 * (aon_draw as i64);
        }
        let pos = first_index_of_target(adjacent, target);
        assert(0 <= 2 * regional * aon_multiplier <= 3 * regional * aon_multiplier <= 15 * regional) by (nonlinear_arith)
            requires
                0 <= aon_multiplier <= 5,
                1 <= regional,
        ;
        if adjacent[pos].0 == team {
            Ok(3 * regional * aon_multiplier)
        } else {
            Ok(2 * regional * aon_multiplier)
        }
    } else {
        Ok(2 * ((unaligned_draw / 4) as i64))
    }
}

/// The multiplier of a move of a player of team `team` (0 for none) on
/// `target`, where `adjacent` lists (owner, territory) for the target and its
/// neighbours, `regions_owned` is the number of regions that the team alone
/// holds, and `territory_count` the number of territories it holds. The
/// all-or-nothing draw and the draw for a player without a team are made here.
pub fn handle_territory_info(
    team: i32,
    adjacent: &Vec<(i32, i32)>,
    target: i32,
    regions_owned: i64,
    territory_count: i32,
    aon: Option<bool>,
) -> (r: Result<i64, MoveError>)
    requires
        multiplier_defined(team, adjacent@, target, regions_owned),
    ensures
        exists|aon_draw: int, unaligned_draw: int|
            0 <= aon_draw < 2 && 4 <= unaligned_draw < 6 && #[trigger] multiplier_halves(team, adjacent@, target, regions_owned, territory_count, aon, aon_draw, unaligned_draw)
                == (match r {
                    Ok(m) => Ok::<int, MoveError>(m as int),
                    Err(e) => Err::<int, MoveError>(e),
                }),
{
    let aon_draw: i32 = if aon == Some(true) && territory_count == 1 && team != 0 {
        random_index(0, 2) as i32
    } else {
        0
    };
    let unaligned_draw: i32 = if team == 0 { (random_index(4, 6)) as i32 } else { 4 };
    let r = territory_multiplier(team, adjacent, target, regions_owned, territory_count, aon, aon_draw, unaligned_draw);
    assert(multiplier_halves(team, adjacent@, target, regions_owned, territory_count, aon, aon_draw as int, unaligned_draw as int)
        == (match r {
            Ok(m) => Ok::<int, MoveError>(m as int),
            Err(e) => Err::<int, MoveError>(e),
        }));
    r
}

// ---------------------------------------------------------------------------
// The power of a move

/// A player's record as the move route loads it.
#[derive(Clone, Copy, Debug)]
pub struct MoveUser {
    pub playing_for: i32,
    pub id: i32,
    pub overall: Option<i32>,
    pub turns: Option<i32>,
    pub game_turns: Option<i32>,
    pub mvps: Option<i32>,
    pub streak: Option<i32>,
    pub awards: Option<i32>,
    pub current_team: i32,
}

/// What placing a move records: the player's statistics and ratings, the
/// weight of the move, its multiplier and power (both in halves), whether the
/// player plays as a mercenary, and the overall rating stored for the player.
#[derive(Clone, Copy, Debug)]
pub struct MovePlan {
    pub stats: Stats,
    pub awards: i32,
    pub ratings: Ratings,
    pub weight: i32,
    pub multiplier_halves: i64,
    pub power_halves: i64,
    pub merc: bool,
    pub overall: i32,
}

/// The award points of a player on the partner site; fixed at 5.
pub fn get_cfb_points(name: String) -> (r: i64)
    ensures
        r == 5,
{
    5
}

pub open spec fn unwrap_or_zero(x: Option<i32>) -> i32 {
    match x {
        Some(v) => v,
        None => 0,
    }
}

/// The weight of a move: the player's overall stars from 1 to 5, and 1 for
/// any other rating.
pub open spec fn spec_star_weight(overall: i32) -> i32 {
    if 1 <= overall <= 5 { overall } else { 1 }
}

/// The weight of a move of a player with `overall` stars.
pub fn star_weight(overall: i32) -> (r: i32)
    ensures
        r == spec_star_weight(overall),
{
    match overall {
        1 => 1,
        2 => 2,
        3 => 3,
        4 => 4,
        5 => 5,
        _ => 1,
    }
}

/// The statistics of the player `u`, missing counts read as zero.
pub open spec fn move_stats(u: MoveUser) -> Stats {
    Stats {
        totalTurns: unwrap_or_zero(u.turns),
        gameTurns: unwrap_or_zero(u.game_turns),
        mvps: unwrap_or_zero(u.mvps),
        streak: unwrap_or_zero(u.streak),
    }
}

/// The record of a move of `user` with the given award points and
/// multiplier (in halves).
pub open spec fn spec_plan_move(user: MoveUser, awards: i64, multiplier_halves: i64) -> MovePlan {
    let stats = move_stats(user);
    let ratings = ratings_of(stats);
    let weight = spec_star_weight(ratings.overall);
    let power = multiplier_halves * weight;
    MovePlan {
        stats,
        awards: awards as i32,
        ratings,
        weight,
        multiplier_halves,
        power_halves: power as i64,
        merc: user.playing_for != user.current_team,
        overall: (power / 2) as i32,
    }
}

/// The record of a move of `user` with the given award points and multiplier
/// (in halves): its weight is the player's overall stars, its power the
/// multiplier times the weight, the stored overall rating the power rounded
/// toward zero, and the player plays as a mercenary when the team played for
/// differs from the player's own.
pub fn plan_move(user: &MoveUser, awards: i64, multiplier_halves: i64) -> (r: MovePlan)
    requires
        0 <= multiplier_halves,
        5 * multiplier_halves <= 2 * (i32::MAX as int) + 1,
    ensures
        r == spec_plan_move(*user, awards, multiplier_halves),
{
    let stats = Stats {
        totalTurns: match user.turns { Some(v) => v, None => 0 },
        gameTurns: match user.game_turns { Some(v) => v, None => 0 },
        mvps: match user.mvps { Some(v) => v, None => 0 },
        streak: match user.streak { Some(v) => v, None => 0 },
    };
    let ratings = Ratings::load(&stats);
    let weight = star_weight(ratings.overall);
    assert(1 <= weight <= 5);
    assert(0 <= multiplier_halves * weight <= 5 * multiplier_halves) by (nonlinear_arith)
        requires
            0 <= multiplier_halves,
            1 <= weight <= 5,
    ;
    let power_halves: i64 = multiplier_halves * (weight as i64);
    let merc = user.playing_for != user.current_team;
    MovePlan {
        stats,
        awards: awards as i32,
        ratings,
        weight,
        multiplier_halves,
        power_halves,
        merc,
        overall: (power_halves / 2) as i32,
    }
}

// ---------------------------------------------------------------------------
// Joining a team

/// A player's record as the join route loads it.
#[derive(Clone, Debug)]
pub struct JoinUser {
    pub name: String,
    /// The name of the player's own team, if any
    pub team_name: Option<String>,
    /// The name of the team the player plays for, if any
    pub active_team_name: Option<String>,
}

/// Why a request to join a team is refused, with its HTTP status.
#[derive(Clone, Copy, Debug, PartialEq, Eq, Structural)]
pub enum JoinRefusal {
    /// 401: no such player, or the token names another player
    Unauthorized,
    /// 500: the player already plays for a team
    InternalServerError,
    /// 406: no such team, or its strength is unknown
    NotAcceptable,
    /// 403: the team holds no territory
    Forbidden,
}

impl JoinRefusal {
    /// The HTTP status code of the refusal.
    pub fn status_code(&self) -> (r: u16)
        ensures
            r == spec_join_status(*self),
    {
        match self {
            JoinRefusal::Unauthorized => 401,
            JoinRefusal::InternalServerError => 500,
            JoinRefusal::NotAcceptable => 406,
            JoinRefusal::Forbidden => 403,
        }
    }
}

pub open spec fn spec_join_status(r: JoinRefusal) -> u16 {
    match r {
        JoinRefusal::Unauthorized => 401,
        JoinRefusal::InternalServerError => 500,
        JoinRefusal::NotAcceptable => 406,
        JoinRefusal::Forbidden => 403,
    }
}

/// The answer to a request of the player named `claimed` to join `team`:
/// refused unless the player exists under that name (compared in lowercase),
/// plays for no team yet, the team exists and its strength is known with at
/// least one territory. An accepted request makes the player a mercenary
/// (`false`) when the player has a team of its own, a new member (`true`)
/// otherwise.
pub open spec fn spec_join_decision(
    user: Option<(Seq<char>, bool, bool)>,
    claimed: Seq<char>,
    team: i32,
    team_ids: Seq<i32>,
    territories: Option<i32>,
) -> Result<bool, JoinRefusal> {
    match user {
        None => Err(JoinRefusal::Unauthorized),
        Some((name, has_team, has_active_team)) => {
            if lowercase(name) != lowercase(claimed) {
                Err(JoinRefusal::Unauthorized)
            } else if has_active_team {
                Err(JoinRefusal::InternalServerError)
            } else if !team_ids.contains(team) {
                Err(JoinRefusal::NotAcceptable)
            } else {
                match territories {
                    None => Err(JoinRefusal::NotAcceptable),
                    Some(t) => if t > 0 { Ok(!has_team) } else { Err(JoinRefusal::Forbidden) },
                }
            }
        },
    }
}

/// The player record `u` as [`spec_join_decision`] reads it.
pub open spec fn join_view(u: Option<&JoinUser>) -> Option<(Seq<char>, bool, bool)> {
    match u {
        None => None,
        Some(j) => Some((j.name@, j.team_name is Some, j.active_team_name is Some)),
    }
}

/// Whether the player may join `team`, and how: see [`spec_join_decision`].
/// `team_ids` are the ids of all teams, `territories` the territory count of
/// the team's latest statistics when they load.
pub fn join_team(
    user: Option<&JoinUser>,
    claimed: &str,
    team: i32,
    team_ids: &Vec<i32>,
    territories: Option<i32>,
) -> (r: Result<bool, JoinRefusal>)
    ensures
        r == spec_join_decision(join_view(user), claimed@, team, team_ids@, territories),
{
    match user {
        None => Err(JoinRefusal::Unauthorized),
        Some(u) => {
            let a = to_lowercase(u.name.as_str());
            let b = to_lowercase(claimed);
            if a != b {
                return Err(JoinRefusal::Unauthorized);
            }
            if u.active_team_name.is_some() {
                return Err(JoinRefusal::InternalServerError);
            }
            let mut exists = false;
            let mut k: usize = 0;
            while k < team_ids.len()
                invariant
                    0 <= k <= team_ids.len(),
                    exists <==> exists|m: int| 0 <= m < k && team_ids@[m] == team,
                decreases team_ids.len() - k,
            {
                if team_ids[k] == team {
                    exists = true;
                }
                k = k + 1;
            }
            if !exists {
                return Err(JoinRefusal::NotAcceptable);
            }
            match territories {
                None => Err(JoinRefusal::NotAcceptable),
                Some(t) => {
                    if t > 0 {
                        Ok(u.team_name.is_none())
                    } else {
                        Err(JoinRefusal::Forbidden)
                    }
                },
            }
        },
    }
}

/// Whether the player record named `loaded` is the player named `claimed`:
/// the two names agree in lowercase.
pub fn same_player(loaded: &str, claimed: &str) -> (r: bool)
    ensures
        r == (lowercase(loaded@) == lowercase(claimed@)),
{
    let a = to_lowercase(loaded);
    let b = to_lowercase(claimed);
    a == b
}

/// The all-or-nothing stake: for a team player who may move, playing
/// all-or-nothing with a single territory left gives either nothing or five
/// times the multiplier of an ordinary move.
pub proof fn lemma_all_or_nothing(
    team: i32,
    adjacent: Seq<(i32, i32)>,
    target: i32,
    regions_owned: i64,
    aon_draw: int,
    unaligned_draw: int,
)
    requires
        team != 0,
        owns_some(adjacent, team),
        others_own_some(adjacent, team),
        0 <= aon_draw < 2,
    ensures
        ({
            let plain = multiplier_halves(team, adjacent, target, regions_owned, 1, None, aon_draw, unaligned_draw);
            let staked = multiplier_halves(team, adjacent, target, regions_owned, 1, Some(true), aon_draw, unaligned_draw);
            &&& plain is Ok && staked is Ok
            &&& (aon_draw == 0 ==> staked == Ok::<int, MoveError>(0))
            &&& (aon_draw == 1 ==> staked->Ok_0 == 5 * plain->Ok_0)
        }),
{
    let regional = if 2 * regions_owned == 0 { 1 } else { 2 * regions_owned };
    assert(5 * aon_draw * regional * 3 == 5 * (regional * 3 * 1) * aon_draw) by (nonlinear_arith);
    assert(5 * aon_draw * regional * 2 == 5 * (regional * 2 * 1) * aon_draw) by (nonlinear_arith);
    assert(3 * regional * (5 * aon_draw) == 5 * aon_draw * regional * 3) by (nonlinear_arith);
    assert(2 * regional * (5 * aon_draw) == 5 * aon_draw * regional * 2) by (nonlinear_arith);
}

/// What a planned move records: the player's statistics with missing counts
/// as zero, the ratings of those statistics, a weight equal to the overall
/// rating when that lies from 1 to 5 (1 otherwise), a power of the
/// multiplier times that weight, a stored overall rating of half the power
/// rounded toward zero, and the mercenary flag when the team played for is
/// not the player's own.
pub proof fn lemma_plan_move_weight(user: MoveUser, awards: i64, multiplier_halves: i64)
    requires
        0 <= multiplier_halves,
        5 * multiplier_halves <= 2 * (i32::MAX as int) + 1,
    ensures
        ({
            let r = spec_plan_move(user, awards, multiplier_halves);
            &&& r.stats.totalTurns == (match user.turns { Some(v) => v, None => 0 })
            &&& r.stats.gameTurns == (match user.game_turns { Some(v) => v, None => 0 })
            &&& r.stats.mvps == (match user.mvps { Some(v) => v, None => 0 })
            &&& r.stats.streak == (match user.streak { Some(v) => v, None => 0 })
            &&& r.ratings == ratings_of(r.stats)
            &&& r.weight == (if 1 <= r.ratings.overall <= 5 { r.ratings.overall } else { 1 })
            &&& r.multiplier_halves == multiplier_halves
            &&& r.power_halves == multiplier_halves * r.weight
            &&& r.overall == r.power_halves / 2
            &&& r.merc == (user.playing_for != user.current_team)
        }),
{
    let r = spec_plan_move(user, awards, multiplier_halves);
    assert(1 <= r.weight <= 5);
    assert(0 <= multiplier_halves * r.weight <= 5 * multiplier_halves) by (nonlinear_arith)
        requires
            0 <= multiplier_halves,
            1 <= r.weight <= 5,
    ;
}

} // verus!
