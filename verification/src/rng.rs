//! Random draws, made with the `rand` crate.
use vstd::prelude::*;
use rand::Rng;

verus! {

/// Draws a number uniformly from `low..high` with `rand::thread_rng().gen_range`.
/// The contract claims only that the number lies in that range; the draw itself
/// is left unsaid.
#[verifier::external_body]
pub(crate) fn random_index(low: usize, high: usize) -> (r: usize)
    requires
        low < high,
    ensures
        low <= r < high,
{
    rand::thread_rng().gen_range(low..high)
}

} // verus!

verus! {

/// An ASCII letter or digit.
pub open spec fn ascii_alphanumeric(c: char) -> bool {
    ('a' <= c && c <= 'z') || ('A' <= c && c <= 'Z') || ('0' <= c && c <= '9')
}

/// Draws `n` characters with `rand::distributions::Alphanumeric`, which
/// samples uniformly among the 62 ASCII letters and digits. The contract
/// claims the length and the alphabet; the draw itself is left unsaid.
#[verifier::external_body]
pub(crate) fn random_alphanumeric(n: usize) -> (r: String)
    ensures
        r@.len() == n,
        forall|i: int| 0 <= i < r@.len() ==> ascii_alphanumeric(#[trigger] r@[i]),
{
    rand::thread_rng().sample_iter(&rand::distributions::Alphanumeric).take(n).map(char::from).collect()
}

} // verus!
