//! Uniform integer draws.

use rand::Rng;
use vstd::prelude::*;

verus! {

/// Draws an integer from the closed range `min..=max`.
///
/// Trusted: the body calls `rand::Rng::random_range` on the generator that
/// `rand::rng` hands out for the current thread. That call aborts on an
/// empty range, which the precondition leaves out; on any other range its
/// result lies inside the range, and that is all this contract claims.
#[verifier::external_body]
pub fn random_int_range(min: i32, max: i32) -> (r: i32)
    requires
        min <= max,
    ensures
        min <= r <= max,
{
    let mut rng = rand::rng();
    rng.random_range(min..=max)
}

/// Largest number of candidates `random_index` can choose among.
pub const MAX_CHOICES: usize = 0x8000_0000;

/// Picks one of `count` candidates, `None` when there is none to pick.
pub fn random_index(count: usize) -> (r: Option<usize>)
    requires
        count <= MAX_CHOICES,
    ensures
        count == 0 <==> r is None,
        r matches Some(i) ==> i < count,
{
    if count == 0 {
        None
    } else {
        let last: i32 = (count - 1) as i32;
        let drawn: i32 = random_int_range(0, last);
        Some(drawn as usize)
    }
}

} // verus!
