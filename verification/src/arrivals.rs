//! Randomized arrival generation: the pluggable policy that invents new
//! passengers each tick. The core depends on it only through "zero or more
//! people, each travelling between floors of the building"; tests may hand
//! the building deterministic arrivals instead.

use vstd::prelude::*;

use crate::person::Person;
use crate::person::person_ok;

verus! {

/// Relies on rand's `thread_rng` and `Rng::gen_range` over `0..n`: the draw
/// returns a value of the range, uniformly at random, and panics only on an
/// empty range. Nothing more is promised of the draw, so whatever callers
/// prove holds for every outcome.
#[verifier::external_body]
fn random_below(n: usize) -> (r: usize)
    requires
        n >= 1,
    ensures
        r < n,
{
    rand::Rng::gen_range(&mut rand::thread_rng(), 0..n)
}

impl Person {
    /// A randomly generated passenger of a building with `max_floor` floors:
    /// a random origin, and a destination that is usually the first floor
    /// (most people head there) and occasionally random. `coming_in` swaps
    /// the two, modelling people leaving instead of entering. Nothing is
    /// promised of the draw beyond both floors lying inside the building.
    pub fn new_random_person(coming_in: bool, max_floor: usize) -> (p: Person)
        requires
            max_floor >= 2,
        ensures
            person_ok(p, max_floor as int),
            p.wait_time == 0,
    {
        let origin = random_below(max_floor);
        let mut destination: usize = 1;

        // the majority of people will go to the first floor
        if random_below(100) < 5 {
            destination = random_below(max_floor);
        }

        if coming_in {
            Person { origin, destination, wait_time: 0 }
        } else {
            Person { origin: destination, destination: origin, wait_time: 0 }
        }
    }
}

} // verus!
