use risk::ratings::{Ratings, Stats};

#[test]
fn fromarr_counts_reached_thresholds() {
    assert_eq!(Ratings::fromarr(0, [0, 10, 25, 50, 100]), 1);
    assert_eq!(Ratings::fromarr(9, [0, 10, 25, 50, 100]), 1);
    assert_eq!(Ratings::fromarr(10, [0, 10, 25, 50, 100]), 2);
    assert_eq!(Ratings::fromarr(100, [0, 10, 25, 50, 100]), 5);
    assert_eq!(Ratings::fromarr(1000, [0, 10, 25, 50, 100]), 5);
    assert_eq!(Ratings::fromarr(-1, [0, 10, 25, 50, 100]), 0);
}

#[test]
fn fromarr_stops_at_first_threshold_above() {
    // an unsorted table: counting stops at the first threshold above the number
    assert_eq!(Ratings::fromarr(5, [0, 10, 1, 2, 3]), 1);
}

#[test]
fn load_new_player_has_one_star() {
    let r = Ratings::load(&Stats { totalTurns: 0, gameTurns: 0, mvps: 0, streak: 0 });
    assert_eq!((r.overall, r.totalTurns, r.gameTurns, r.mvps, r.streak), (1, 1, 1, 1, 1));
}

#[test]
fn load_overall_is_rounded_up_median() {
    // ratings 5, 4, 2, 1: middle two are 2 and 4 -> 3
    let r = Ratings::load(&Stats { totalTurns: 100, gameTurns: 25, mvps: 1, streak: 0 });
    assert_eq!((r.totalTurns, r.gameTurns, r.mvps, r.streak), (5, 4, 2, 1));
    assert_eq!(r.overall, 3);
    // ratings 5, 5, 2, 1: middle two are 2 and 5 -> 3.5 rounds up to 4
    let r = Ratings::load(&Stats { totalTurns: 100, gameTurns: 40, mvps: 1, streak: 0 });
    assert_eq!((r.totalTurns, r.gameTurns, r.mvps, r.streak), (5, 5, 2, 1));
    assert_eq!(r.overall, 4);
}

#[test]
fn load_top_player_has_five_stars() {
    let r = Ratings::load(&Stats { totalTurns: 500, gameTurns: 50, mvps: 30, streak: 30 });
    assert_eq!((r.overall, r.totalTurns, r.gameTurns, r.mvps, r.streak), (5, 5, 5, 5, 5));
}
