//! Where new identifiers come from.

use rand::rngs::{StdRng, SysRng};
use rand::{RngExt, SeedableRng};
use vstd::prelude::*;

verus! {

/// `StdRng::try_from_rng` on the system's generator, and then
/// `RngExt::random_range`: a number of `low..high`, drawn from a generator
/// that the system has seeded, or `None` where the system gives no seed.
/// Which it is is not known before the call, and two calls need not agree.
#[verifier::external_body]
pub(crate) fn draw(low: u32, high: u32) -> (drawn: Option<u32>)
    requires
        low < high,
    ensures
        drawn matches Some(n) ==> low <= n < high,
{
    let mut generator = StdRng::try_from_rng(&mut SysRng).ok()?;
    Some(generator.random_range(low..high))
}

} // verus!
