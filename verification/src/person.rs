//! Passengers and travel directions.

use vstd::prelude::*;

verus! {

/// Travel intent derived from comparing two floor numbers.
#[derive(Clone, Copy, PartialEq, Eq, Structural, Debug)]
pub enum Direction {
    Up,
    Down,
    Still,
}

/// The direction of travel from floor `from` to floor `to`.
pub open spec fn direction_of(from: int, to: int) -> Direction {
    if from < to {
        Direction::Up
    } else if from > to {
        Direction::Down
    } else {
        Direction::Still
    }
}

/// A passenger: created on arrival at its origin floor, removed from the
/// simulation once delivered to its destination floor. `wait_time` counts the
/// ticks it has spent undelivered.
#[derive(Clone, Copy, PartialEq, Eq, Structural, Debug)]
pub struct Person {
    pub origin: usize,
    pub destination: usize,
    pub wait_time: u64,
}

/// `p` after one more tick spent undelivered: its wait time grows by one
/// (saturating at the counter's maximum).
pub open spec fn aged(p: Person) -> Person {
    Person {
        wait_time: if p.wait_time == u64::MAX {
            u64::MAX
        } else {
            (p.wait_time + 1) as u64
        },
        ..p
    }
}

/// A person's floors both lie inside a building with `nf` floors.
pub open spec fn person_ok(p: Person, nf: int) -> bool {
    (p.origin as int) < nf && (p.destination as int) < nf
}

impl Person {
    /// The direction this person wants to travel in.
    pub open spec fn direction(self) -> Direction {
        direction_of(self.origin as int, self.destination as int)
    }

    /// A fresh passenger that has not waited yet.
    pub fn new(origin: usize, destination: usize) -> (p: Person)
        ensures
            p == (Person { origin, destination, wait_time: 0 }),
    {
        Person { origin, destination, wait_time: 0 }
    }

    /// This person after one more tick spent undelivered.
    pub fn after_tick(&self) -> (q: Person)
        ensures
            q == aged(*self),
    {
        Person {
            wait_time: if self.wait_time == u64::MAX {
                u64::MAX
            } else {
                self.wait_time + 1
            },
            ..*self
        }
    }

    pub fn going_in_direction(&self) -> (d: Direction)
        ensures
            d == self.direction(),
    {
        if self.origin < self.destination {
            Direction::Up
        } else if self.origin > self.destination {
            Direction::Down
        } else {
            Direction::Still
        }
    }
}

/// A person's wait time strictly increases on every tick they remain
/// undelivered (as long as the counter has not saturated).
pub proof fn lemma_wait_time_monotonic(p: Person)
    requires
        p.wait_time < u64::MAX,
    ensures
        aged(p).wait_time > p.wait_time,
        aged(p).origin == p.origin,
        aged(p).destination == p.destination,
{
}

} // verus!
