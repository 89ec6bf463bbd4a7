//! The statistics and star ratings of a player as the player pages show them.
use vstd::prelude::*;

verus! {

/// A set of statistics about a player.
#[derive(Clone, Copy, Debug, PartialEq, Eq, Structural)]
pub struct Stat {
    /// The total number of turns made by the player in all games
    pub turns: i32,
    /// The total number of turns made by the player in this game
    pub game_turns: i32,
    /// The total number of times the player has been MVP in all games
    pub mvps: i32,
    /// The total number of consecutive turns the player has made
    pub streak: i32,
}

/// A set of ratings (1-5) for a player.
#[derive(Clone, Copy, Debug, PartialEq, Eq, Structural)]
pub struct Rating {
    pub overall: i32,
    pub turns: i32,
    pub game_turns: i32,
    pub mvps: i32,
    pub streak: i32,
}

impl Rating {
    /// The rating shown for the statistics `input`: one star in every rating.
    pub fn from(input: Stat) -> (r: Rating)
        ensures
            r == (Rating { overall: 1, turns: 1, game_turns: 1, mvps: 1, streak: 1 }),
    {
        Rating { overall: 1, turns: 1, game_turns: 1, mvps: 1, streak: 1 }
    }
}

} // verus!
