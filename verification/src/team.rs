//! Teams and their colors.
use vstd::prelude::*;
use vstd::string::*;

verus! {

/// A team as the database lists it.
#[derive(Debug)]
pub struct Team {
    pub name: Option<String>,
    pub color_1: Option<String>,
    pub color_2: Option<String>,
}

/// The colors of a team.
#[derive(Debug)]
pub struct Colors {
    pub primary: String,
    pub secondary: String,
}

/// A team with its colors.
#[derive(Debug)]
pub struct TeamWithColors {
    pub name: Option<String>,
    pub colors: Colors,
}

/// The color used where a team has none.
pub open spec fn default_color() -> Seq<char> {
    "#000"@
}

impl Default for TeamWithColors {
    /// No team: no name, black on black.
    fn default() -> (r: TeamWithColors)
        ensures
            r.name is None,
            r.colors.primary@ == default_color(),
            r.colors.secondary@ == default_color(),
    {
        TeamWithColors {
            name: None,
            colors: Colors { primary: String::from_str("#000"), secondary: String::from_str("#000") },
        }
    }
}

pub open spec fn color_or_default(c: Option<String>) -> Seq<char> {
    match c {
        Some(s) => s@,
        None => default_color(),
    }
}

impl TeamWithColors {
    /// The team `team` with its colors, a missing color shown as `#000`.
    pub fn from_team(team: Team) -> (r: TeamWithColors)
        ensures
            r.name == team.name,
            r.colors.primary@ == color_or_default(team.color_1),
            r.colors.secondary@ == color_or_default(team.color_2),
    {
        let primary = match team.color_1 {
            Some(c) => c,
            None => String::from_str("#000"),
        };
        let secondary = match team.color_2 {
            Some(c) => c,
            None => String::from_str("#000"),
        };
        TeamWithColors { name: team.name, colors: Colors { primary, secondary } }
    }
}

/// A team with minimal information.
#[derive(Debug)]
pub struct SimpleTeam {
    pub id: i32,
    pub name: String,
}

/// The breakdown of players by overall stars.
#[derive(Clone, Copy, Debug, PartialEq, Eq, Structural)]
pub struct StarBreakdown {
    pub ones: i32,
    pub twos: i32,
    pub threes: i32,
    pub fours: i32,
    pub fives: i32,
}

/// The current turn.
#[derive(Clone, Copy, Debug, PartialEq, Eq, Structural)]
pub struct Latest {
    pub season: i32,
    pub day: i32,
    pub id: i32,
}

} // verus!
