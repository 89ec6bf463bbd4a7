//! Game rules of a Risk-style territory game: player star ratings, the nightly
//! roll that settles territory ownership and team statistics, move validation,
//! and the request checks of the web API.
use vstd::prelude::*;

pub mod api;
pub mod arith;
pub mod auth;
pub mod cases;
pub mod error;
pub mod moves;
pub mod player;
pub mod ratings;
pub mod rng;
pub mod roll;
pub mod sys;
pub mod team;
pub mod text;

verus! {

} // verus!
