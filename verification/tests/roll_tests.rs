use risk::roll::{
    contenders, count_class, count_stars, drain_territory, getmvp, getteams, handleteamstats,
    move_id_range, moves_of_team, process_territories, roll_within_limits, sum_power, PlayerMoves, Stats,
    TerritoryOwners, ALT_SCORE_LIMIT,
};
use std::collections::HashMap;

fn mv(id: i32, user_id: i32, territory: i32, team: i32, power: i32, stars: i32) -> PlayerMoves {
    PlayerMoves {
        id,
        user_id,
        season: Some(1),
        day: Some(5),
        territory,
        mvp: false,
        power,
        positive_power: power > 0,
        stars,
        team,
        alt_score: 0,
        merc: false,
    }
}

fn territory(id: i32, territory_id: i32, owner: i32) -> TerritoryOwners {
    TerritoryOwners {
        id,
        territory_id,
        territory_name: None,
        owner_id: owner,
        day: 5,
        season: 1,
        previous_owner_id: owner,
        mvp: None,
    }
}

fn stats(team: i32, territorycount: i32, starpower: i32) -> Stats {
    let mut s = Stats::new(0, 1, 5, team);
    s.territorycount = territorycount;
    s.starpower = starpower;
    s
}

#[test]
fn new_stats_are_empty() {
    let s = Stats::new(1006, 1, 5, 7);
    assert_eq!((s.sequence, s.season, s.day, s.team), (1006, 1, 5, 7));
    assert_eq!((s.rank, s.territorycount, s.playercount, s.merccount), (0, 0, 0, 0));
    assert_eq!((s.starpower, s.efficiency, s.effectivepower), (0, 0, 0));
    assert_eq!((s.ones, s.twos, s.threes, s.fours, s.fives), (0, 0, 0, 0, 0));
}

#[test]
fn getteams_lists_each_team_once_ascending() {
    let moves = vec![mv(1, 1, 1, 3, 1, 1), mv(2, 2, 1, 1, 1, 1), mv(3, 3, 1, 3, 1, 1), mv(4, 4, 1, 2, 1, 1)];
    assert_eq!(getteams(&moves), vec![1, 2, 3]);
    assert_eq!(getteams(&vec![]), Vec::<i32>::new());
}

#[test]
fn drain_territory_splits_in_order() {
    let moves = vec![mv(1, 1, 1, 3, 1, 1), mv(2, 2, 2, 1, 1, 1), mv(3, 3, 1, 3, 1, 1)];
    let (on, off) = drain_territory(moves, 1);
    assert_eq!(on.iter().map(|m| m.id).collect::<Vec<_>>(), vec![1, 3]);
    assert_eq!(off.iter().map(|m| m.id).collect::<Vec<_>>(), vec![2]);
}

#[test]
fn counting_helpers() {
    let mut high_alt = mv(3, 3, 1, 1, 5, 2);
    high_alt.alt_score = ALT_SCORE_LIMIT;
    let moves = vec![mv(1, 1, 1, 1, 3, 2), mv(2, 2, 1, 2, -4, 2), high_alt];
    assert_eq!(sum_power(&moves), 4);
    assert_eq!(count_stars(&moves, 2), 3);
    assert_eq!(count_stars(&moves, 5), 0);
    // the move at the alt-score limit does not count
    assert_eq!(count_class(&moves, 1, 2), 1);
    assert_eq!(count_class(&moves, 2, 2), 1);
    assert_eq!(moves_of_team(&moves, 1).iter().map(|m| m.id).collect::<Vec<_>>(), vec![1, 3]);
}

#[test]
fn mvp_of_a_single_move_is_that_move() {
    let only = mv(9, 90, 1, 1, 1, 1);
    assert_eq!(getmvp(vec![only]), Some(only));
}

#[test]
fn mvp_needs_power_and_no_alt_flag() {
    let mut alt = mv(1, 10, 1, 1, 3, 2);
    alt.alt_score = ALT_SCORE_LIMIT;
    let powerless = mv(2, 20, 1, 1, 0, 2);
    assert_eq!(getmvp(vec![alt]), None);
    assert_eq!(getmvp(vec![powerless]), None);
    assert_eq!(getmvp(vec![]), None);
    // a power that rounds to zero but is above zero still qualifies
    let mut small = mv(4, 40, 1, 1, 0, 2);
    small.positive_power = true;
    assert_eq!(getmvp(vec![small]), Some(small));
    // only the one eligible move can be drawn
    let ok = mv(3, 30, 1, 1, 2, 2);
    for _ in 0..20 {
        assert_eq!(getmvp(vec![alt, ok, powerless]), Some(ok));
    }
}

#[test]
fn mvp_is_never_the_first_of_several_moves() {
    let moves = vec![mv(1, 10, 1, 1, 1, 1), mv(2, 20, 1, 1, 1, 1), mv(3, 30, 1, 1, 1, 1)];
    for _ in 0..50 {
        let m = getmvp(moves.clone()).unwrap();
        assert!(m.user_id == 20 || m.user_id == 30);
    }
}

#[test]
fn handleteamstats_counts_each_move_for_its_team() {
    let mut table: HashMap<i32, Stats> = HashMap::new();
    let mut merc = mv(2, 2, 1, 10, 4, 3);
    merc.merc = true;
    handleteamstats(&mut table, vec![mv(1, 1, 1, 10, 3, 2), merc, mv(3, 3, 1, 20, 5, 7)]);
    let a = table[&10];
    assert_eq!(a.sequence, 1006);
    // the mercenary counts as a mercenary, not as a player
    assert_eq!((a.playercount, a.merccount, a.starpower, a.effectivepower), (1, 1, 5, 7));
    assert_eq!((a.ones, a.twos, a.threes, a.fours, a.fives), (0, 1, 1, 0, 0));
    let b = table[&20];
    // a star class other than 2 to 5 counts as one star
    assert_eq!((b.playercount, b.starpower, b.effectivepower, b.ones), (1, 7, 5, 1));
    assert_eq!(table.len(), 2);
}

#[test]
fn process_territories_settles_every_territory() {
    let territories = vec![territory(1, 1, 10), territory(2, 2, 20), territory(3, 3, 30)];
    let mut b = mv(2, 102, 2, 10, 4, 3);
    b.merc = true;
    let mut c = mv(3, 103, 2, 20, 5, 5);
    c.alt_score = 200;
    let players = vec![mv(1, 101, 1, 10, 3, 2), b, c];
    assert_eq!(contenders(&territories, &players), vec![vec![10], vec![10, 20], vec![]]);

    let (owners, mvps, table, rows) = process_territories(territories, players, vec![0, 20, 0]);

    let got: Vec<(i32, i32, i32, i32, i32, Option<i32>)> = owners
        .iter()
        .map(|o| (o.territory_id, o.owner_id, o.previous_owner_id, o.season, o.day, o.mvp))
        .collect();
    assert_eq!(
        got,
        vec![(1, 10, 10, 1, 6, Some(101)), (2, 20, 20, 1, 6, Some(0)), (3, 30, 30, 1, 6, Some(0))]
    );
    // the only move of the winner on territory 2 is flagged as an alt: no MVP
    assert!(mvps.is_empty());

    assert_eq!(table.len(), 3);
    let t10 = table[&10];
    assert_eq!((t10.sequence, t10.season, t10.day, t10.team), (1002, 1, 5, 10));
    assert_eq!((t10.territorycount, t10.playercount, t10.merccount), (1, 1, 1));
    assert_eq!((t10.starpower, t10.effectivepower), (8, 7));
    assert_eq!((t10.ones, t10.twos, t10.threes, t10.fours, t10.fives), (0, 1, 1, 0, 0));
    let t20 = table[&20];
    assert_eq!((t20.territorycount, t20.playercount, t20.starpower, t20.effectivepower, t20.fives), (1, 1, 5, 5, 1));
    let t30 = table[&30];
    assert_eq!((t30.territorycount, t30.playercount, t30.starpower), (1, 0, 0));

    let got: Vec<(i32, i32, i32, i32, i32, bool)> =
        rows.iter().map(|r| (r.territory, r.team, r.twos, r.threes, r.territory_power, r.contested)).collect();
    assert_eq!(
        got,
        vec![(1, 10, 1, 0, 3, false), (2, 10, 0, 1, 9, true), (2, 20, 0, 0, 9, true), (3, 30, 0, 0, 0, false)]
    );
    // the contested row of team 20 leaves out its move above the alt-score limit
    assert_eq!(rows[2].fives, 0);
}

#[test]
fn process_territories_picks_mvp_after_the_first_move() {
    let territories = vec![territory(1, 7, 4)];
    let players = vec![mv(1, 11, 7, 5, 1, 1), mv(2, 12, 7, 5, 1, 1), mv(3, 13, 7, 5, 1, 1)];
    for _ in 0..20 {
        let (owners, mvps, _, _) = process_territories(territories.clone(), players.clone(), vec![0]);
        assert_eq!(owners[0].owner_id, 5);
        assert_eq!(owners[0].previous_owner_id, 4);
        assert!(owners[0].mvp == Some(12) || owners[0].mvp == Some(13));
        assert!(mvps.is_empty());
    }
}

#[test]
fn moves_go_to_the_first_entry_of_their_territory() {
    // a territory listed twice: its second entry finds no moves left
    let territories = vec![territory(1, 7, 4), territory(2, 7, 4)];
    let players = vec![mv(1, 11, 7, 5, 2, 1)];
    assert_eq!(contenders(&territories, &players), vec![vec![5], vec![]]);
    let (owners, _, table, _) = process_territories(territories, players, vec![0, 0]);
    assert_eq!(owners[0].owner_id, 5);
    assert_eq!(owners[1].owner_id, 4);
    assert_eq!(owners[1].mvp, Some(0));
    // the taken territory counts for the team that took it
    assert_eq!(table[&5].territorycount, 1);
    assert_eq!(table[&5].starpower, 1 + 2);
    assert_eq!(table[&4].territorycount, 1);
}

#[test]
fn contested_mvp_comes_from_the_victor() {
    let territories = vec![territory(1, 2, 20)];
    let players = vec![mv(1, 101, 2, 10, 4, 3), mv(2, 102, 2, 20, 5, 5), mv(3, 103, 2, 20, 2, 2)];
    for _ in 0..20 {
        let (owners, mvps, table, rows) = process_territories(territories.clone(), players.clone(), vec![10]);
        assert_eq!(owners[0].owner_id, 10);
        assert_eq!(owners[0].mvp, Some(101));
        assert_eq!(mvps, vec![players[0]]);
        assert_eq!(table[&10].territorycount, 1);
        assert_eq!(table[&20].territorycount, 0);
        assert_eq!((table[&20].playercount, table[&10].playercount), (2, 1));
        assert_eq!(rows.iter().map(|r| r.team).collect::<Vec<_>>(), vec![10, 20]);
    }
}

#[test]
fn territory_counts_add_up() {
    let territories = vec![territory(1, 1, 10), territory(2, 2, 20), territory(3, 3, 30), territory(4, 4, 30)];
    let players = vec![mv(1, 1, 1, 20, 2, 1), mv(2, 2, 2, 20, 2, 1), mv(3, 3, 4, 10, 2, 1)];
    let (owners, _, table, _) = process_territories(territories, players, vec![0, 0, 0, 0]);
    let total: i32 = table.values().map(|s| s.territorycount).sum();
    assert_eq!(total, 4);
    for (team, s) in &table {
        let won = owners.iter().filter(|o| o.owner_id == *team).count() as i32;
        assert_eq!(s.territorycount, won);
    }
    assert_eq!(table[&20].territorycount, 2);
}

#[test]
fn rank_sorts_and_ranks_densely() {
    let input = vec![stats(1, 3, 9), stats(2, 5, 10), stats(3, 3, 7), stats(4, 1, 2)];
    let out = Stats::rank(input, 1006);
    assert_eq!(out.iter().map(|s| s.team).collect::<Vec<_>>(), vec![2, 3, 1, 4]);
    assert_eq!(out.iter().map(|s| s.rank).collect::<Vec<_>>(), vec![1, 2, 2, 3]);
    assert_eq!(out.iter().map(|s| s.efficiency).collect::<Vec<_>>(), vec![2, 2, 3, 2]);
    assert!(out.iter().all(|s| s.sequence == 1006));
}

#[test]
fn rank_of_an_empty_table() {
    assert!(Stats::rank(vec![], 1).is_empty());
}

#[test]
fn move_id_range_spans_the_ids() {
    let moves = vec![mv(7, 1, 1, 1, 1, 1), mv(3, 1, 1, 1, 1, 1), mv(9, 1, 1, 1, 1, 1)];
    assert_eq!(move_id_range(&moves), (3, 9));
}

#[test]
fn roll_limits() {
    let territories = vec![territory(1, 1, 10)];
    assert!(roll_within_limits(&territories, &vec![mv(1, 1, 1, 10, 3, 2)]));
    // a move on no listed territory is not weighed
    assert!(roll_within_limits(&territories, &vec![mv(1, 1, 9, 10, i32::MAX, 2)]));
    assert!(!roll_within_limits(&territories, &vec![mv(1, 1, 1, 10, i32::MAX, 2)]));
    let mut far = mv(1, 1, 1, 10, 3, 2);
    far.season = Some(3_000_000);
    assert!(!roll_within_limits(&territories, &vec![far]));
    let mut late = territory(1, 1, 10);
    late.day = i32::MAX;
    assert!(!roll_within_limits(&vec![late], &vec![]));
}
