use risk::moves::{
    get_cfb_points, handle_territory_info, join_team, plan_move, same_player, star_weight,
    territory_multiplier, JoinRefusal, JoinUser, MoveError, MoveUser,
};

fn adjacent() -> Vec<(i32, i32)> {
    // (owner, territory): territory 1 is team 10's, territory 2 team 20's
    vec![(10, 1), (20, 2), (10, 3)]
}

#[test]
fn multiplier_defending_and_attacking() {
    let adj = adjacent();
    // no regions held: the regional factor is 1
    assert_eq!(territory_multiplier(10, &adj, 1, 0, 3, None, 0, 4), Ok(3));
    assert_eq!(territory_multiplier(10, &adj, 2, 0, 3, None, 0, 4), Ok(2));
    // two regions: twice that
    assert_eq!(territory_multiplier(10, &adj, 1, 2, 3, None, 0, 4), Ok(12));
    assert_eq!(territory_multiplier(10, &adj, 2, 2, 3, None, 0, 4), Ok(8));
}

#[test]
fn multiplier_all_or_nothing() {
    let adj = adjacent();
    assert_eq!(territory_multiplier(10, &adj, 2, 2, 1, Some(true), 1, 4), Ok(40));
    assert_eq!(territory_multiplier(10, &adj, 2, 2, 1, Some(true), 0, 4), Ok(0));
    // only with a single territory left
    assert_eq!(territory_multiplier(10, &adj, 2, 2, 2, Some(true), 1, 4), Ok(8));
    assert_eq!(territory_multiplier(10, &adj, 2, 2, 1, Some(false), 1, 4), Ok(8));
}

#[test]
fn multiplier_refusals() {
    let adj = adjacent();
    assert_eq!(territory_multiplier(30, &adj, 2, 0, 1, None, 0, 4), Err(MoveError::NotAdjacent));
    let mine = vec![(10, 1), (10, 3)];
    assert_eq!(territory_multiplier(10, &mine, 1, 0, 1, None, 0, 4), Err(MoveError::Surrounded));
    assert_eq!(handle_territory_info(30, &adj, 2, 0, 1, None), Err(MoveError::NotAdjacent));
    assert_eq!(handle_territory_info(10, &mine, 1, 0, 1, None), Err(MoveError::Surrounded));
    assert_eq!(MoveError::NotAdjacent.message(), "You don't own that territory or an adjacent one");
    assert_eq!(MoveError::Surrounded.message(), "You own all the surrounding territories");
}

#[test]
fn multiplier_without_a_team() {
    let adj = vec![(0, 1), (20, 2)];
    assert_eq!(territory_multiplier(0, &adj, 2, 0, 0, None, 0, 4), Ok(2));
    assert_eq!(territory_multiplier(0, &adj, 2, 0, 0, None, 0, 5), Ok(2));
    for _ in 0..20 {
        assert_eq!(handle_territory_info(0, &adj, 2, 0, 0, None), Ok(2));
    }
}

#[test]
fn handle_territory_info_draws_all_or_nothing() {
    let adj = adjacent();
    assert_eq!(handle_territory_info(10, &adj, 1, 0, 3, None), Ok(3));
    for _ in 0..20 {
        let m = handle_territory_info(10, &adj, 1, 1, 1, Some(true)).unwrap();
        assert!(m == 0 || m == 30);
    }
}

fn user(turns: Option<i32>, playing_for: i32, current_team: i32) -> MoveUser {
    MoveUser {
        playing_for,
        id: 42,
        overall: None,
        turns,
        game_turns: turns,
        mvps: turns,
        streak: turns,
        awards: None,
        current_team,
    }
}

#[test]
fn plan_move_of_a_new_player() {
    let p = plan_move(&user(None, 10, 10), get_cfb_points(String::from("bob")), 3);
    assert_eq!(p.awards, 5);
    assert_eq!((p.stats.totalTurns, p.stats.gameTurns, p.stats.mvps, p.stats.streak), (0, 0, 0, 0));
    assert_eq!(p.ratings.overall, 1);
    assert_eq!((p.weight, p.multiplier_halves, p.power_halves), (1, 3, 3));
    // a power of 1.5 is stored as 1
    assert_eq!(p.overall, 1);
    assert!(!p.merc);
}

#[test]
fn plan_move_of_a_veteran_mercenary() {
    let p = plan_move(&user(Some(100), 10, 20), 5, 3);
    assert_eq!(p.ratings.overall, 5);
    assert_eq!((p.weight, p.power_halves, p.overall), (5, 15, 7));
    assert!(p.merc);
}

#[test]
fn star_weights() {
    assert_eq!(star_weight(0), 1);
    assert_eq!(star_weight(1), 1);
    assert_eq!(star_weight(3), 3);
    assert_eq!(star_weight(5), 5);
    assert_eq!(star_weight(6), 1);
}

fn joiner(team: Option<&str>, active: Option<&str>) -> JoinUser {
    JoinUser {
        name: String::from("Bob"),
        team_name: team.map(String::from),
        active_team_name: active.map(String::from),
    }
}

#[test]
fn join_team_accepts() {
    let ids = vec![1, 2, 3];
    assert_eq!(join_team(Some(&joiner(None, None)), "bob", 2, &ids, Some(4)), Ok(true));
    assert_eq!(join_team(Some(&joiner(Some("Rice"), None)), "BOB", 2, &ids, Some(4)), Ok(false));
}

#[test]
fn join_team_refusals() {
    let ids = vec![1, 2, 3];
    let r = join_team(None, "bob", 2, &ids, Some(4));
    assert_eq!(r, Err(JoinRefusal::Unauthorized));
    assert_eq!(r.unwrap_err().status_code(), 401);
    assert_eq!(join_team(Some(&joiner(None, None)), "alice", 2, &ids, Some(4)), Err(JoinRefusal::Unauthorized));
    let r = join_team(Some(&joiner(None, Some("Rice"))), "bob", 2, &ids, Some(4));
    assert_eq!(r, Err(JoinRefusal::InternalServerError));
    assert_eq!(r.unwrap_err().status_code(), 500);
    let r = join_team(Some(&joiner(None, None)), "bob", 9, &ids, Some(4));
    assert_eq!(r, Err(JoinRefusal::NotAcceptable));
    assert_eq!(r.unwrap_err().status_code(), 406);
    assert_eq!(join_team(Some(&joiner(None, None)), "bob", 2, &ids, None), Err(JoinRefusal::NotAcceptable));
    let r = join_team(Some(&joiner(None, None)), "bob", 2, &ids, Some(0));
    assert_eq!(r, Err(JoinRefusal::Forbidden));
    assert_eq!(r.unwrap_err().status_code(), 403);
}

#[test]
fn same_player_ignores_case() {
    assert!(same_player("Bob", "bOB"));
    assert!(!same_player("Bob", "Rob"));
}
