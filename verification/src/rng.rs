//! The two draws the spawner needs from the process's random generator.

use vstd::prelude::*;
use rand::Rng;
use rand::distributions::Distribution;

verus! {

/// Relies on rand's `Rng::gen_range`: on the nonempty range `0..n` it
/// returns a value of the range, and only an empty range makes it panic.
#[verifier::external_body]
pub(crate) fn pick_index(n: usize) -> (r: usize)
    requires
        n >= 1,
    ensures
        r < n,
{
    rand::thread_rng().gen_range(0..n)
}

/// Relies on rand's `Bernoulli::from_ratio` and `Distribution::sample`:
/// `from_ratio(9, 10)` returns `Ok` since 9 <= 10, and sampling the
/// distribution draws true with probability 9/10. Nothing is promised of
/// the outcome.
#[verifier::external_body]
pub(crate) fn nine_in_ten() -> bool {
    match rand::distributions::Bernoulli::from_ratio(9, 10) {
        Ok(b) => b.sample(&mut rand::thread_rng()),
        Err(_) => true,
    }
}

} // verus!
