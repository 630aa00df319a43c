//! Capacity-bounded elevators with a committed destination and a derived
//! travel direction.

use vstd::prelude::*;

use crate::person::Direction;
use crate::person::Person;
use crate::person::aged;
use crate::person::direction_of;
use crate::person::person_ok;

verus! {

/// The mathematical model of an elevator.
#[verifier::ext_equal]
pub ghost struct ElevatorV {
    pub id: usize,
    pub current_floor: int,
    pub destination_floor: int,
    pub pending: Seq<usize>,
    pub capacity: usize,
    pub occupants: Seq<Person>,
}

impl ElevatorV {
    /// The travel direction the elevator is committed to.
    pub open spec fn dir(self) -> Direction {
        direction_of(self.current_floor, self.destination_floor)
    }

    /// The capacity invariant: an elevator never holds more people than its
    /// capacity.
    pub open spec fn wf(self) -> bool {
        self.occupants.len() <= self.capacity
    }

    pub open spec fn with_destination(self, d: int) -> ElevatorV {
        ElevatorV { destination_floor: d, ..self }
    }

    /// Direction commitment: while between floors, the committed destination
    /// may only move farther along the current direction of travel; a still
    /// elevator may accept any destination.
    pub open spec fn may_retarget(self, d: int) -> bool {
        match self.dir() {
            Direction::Still => true,
            Direction::Up => d > self.destination_floor,
            Direction::Down => d < self.destination_floor,
        }
    }

    /// One movement step: move one floor toward the committed destination;
    /// on arrival, immediately commit to the next pending destination (if
    /// any), so no idle tick is spent between consecutive trips.
    pub open spec fn stepped(self) -> ElevatorV {
        let moved = match self.dir() {
            Direction::Still => self,
            Direction::Up => ElevatorV { current_floor: self.current_floor + 1, ..self },
            Direction::Down => ElevatorV { current_floor: self.current_floor - 1, ..self },
        };
        if moved.current_floor == moved.destination_floor && moved.pending.len() > 0 {
            ElevatorV {
                destination_floor: moved.pending[0] as int,
                pending: moved.pending.drop_first(),
                ..moved
            }
        } else {
            moved
        }
    }

    /// Whether a person standing at the elevator's current floor travels the
    /// way this elevator is going (a still elevator accepts anyone: it is
    /// about to commit to the direction of whoever boards first).
    pub open spec fn accepts_direction(self, p: Person) -> bool {
        self.dir() == Direction::Still || direction_of(
            self.current_floor,
            p.destination as int,
        ) == self.dir()
    }

    /// The elevator after `p` boards: the destination commits (if still) or
    /// extends (if `p` travels farther along the current direction), and `p`
    /// joins the occupants.
    pub open spec fn boarded(self, p: Person) -> ElevatorV {
        let d = p.destination as int;
        let e = if self.may_retarget(d) {
            self.with_destination(d)
        } else {
            self
        };
        ElevatorV { occupants: e.occupants.push(p), ..e }
    }

    /// The occupants among the first `n` who are not bound for the current
    /// floor, in their original order.
    pub open spec fn staying_prefix(self, n: int) -> Seq<Person>
        decreases n,
    {
        if n <= 0 {
            Seq::empty()
        } else {
            let rest = self.staying_prefix(n - 1);
            if 0 <= n - 1 < self.occupants.len() && self.occupants[n - 1].destination as int
                != self.current_floor {
                rest.push(self.occupants[n - 1])
            } else {
                rest
            }
        }
    }

    /// The elevator after everyone bound for its current floor has alighted
    /// (they are delivered and leave the simulation).
    pub open spec fn alighted(self) -> ElevatorV {
        ElevatorV { occupants: self.staying_prefix(self.occupants.len() as int), ..self }
    }

    /// The elevator after one tick of waiting: every occupant still aboard
    /// has waited one tick longer.
    pub open spec fn aged_occupants(self) -> ElevatorV {
        ElevatorV { occupants: self.occupants.map_values(|p: Person| aged(p)), ..self }
    }
}

/// A well-placed elevator in a building of `nf` floors: it respects its
/// capacity, stands at and heads for floors of the building, every queued
/// destination is a floor of the building, and every occupant travels
/// between floors of the building.
pub open spec fn elevator_ok(e: ElevatorV, nf: int) -> bool {
    &&& e.wf()
    &&& 0 <= e.current_floor < nf
    &&& 0 <= e.destination_floor < nf
    &&& forall|k: int| 0 <= k < e.pending.len() ==> (#[trigger] e.pending[k] as int) < nf
    &&& forall|k: int| 0 <= k < e.occupants.len() ==> person_ok(#[trigger] e.occupants[k], nf)
}

/// Everyone still aboard after alighting was already aboard.
pub proof fn lemma_staying_prefix_elems(e: ElevatorV, n: int)
    ensures
        forall|k: int|
            0 <= k < e.staying_prefix(n).len() ==> e.occupants.contains(
                #[trigger] e.staying_prefix(n)[k],
            ),
    decreases n,
{
    if n > 0 {
        lemma_staying_prefix_elems(e, n - 1);
        let cur = e.staying_prefix(n);
        let rest = e.staying_prefix(n - 1);
        assert forall|k: int| 0 <= k < cur.len() implies e.occupants.contains(cur[k]) by {
            if 0 <= n - 1 < e.occupants.len() && e.occupants[n - 1].destination as int
                != e.current_floor {
                if k < rest.len() {
                    assert(cur[k] == rest[k]);
                } else {
                    assert(cur[k] == e.occupants[n - 1]);
                }
            } else {
                assert(cur[k] == rest[k]);
            }
        }
    }
}

/// One movement step keeps an elevator well-placed and does not touch its
/// occupants.
pub proof fn lemma_stepped_ok(e: ElevatorV, nf: int)
    requires
        elevator_ok(e, nf),
    ensures
        elevator_ok(e.stepped(), nf),
        e.stepped().occupants == e.occupants,
        e.stepped().id == e.id,
        e.stepped().capacity == e.capacity,
{
    let s = e.stepped();
    assert(forall|k: int| 0 <= k < s.pending.len() ==> (#[trigger] s.pending[k] as int) < nf);
}

/// The models of a collection of elevators, in the same order.
pub open spec fn elevator_views(s: Seq<Elevator>) -> Seq<ElevatorV> {
    s.map_values(|e: Elevator| e@)
}

/// Direction commitment during movement: a moving elevator's committed
/// destination changes only at the moment it arrives there (and then only to
/// the next queued destination), never mid-trip.
pub proof fn lemma_step_commitment(e: ElevatorV)
    ensures
        e.stepped().destination_floor != e.destination_floor ==> e.stepped().current_floor
            == e.destination_floor,
{
}

/// At most the first `n` occupants can stay aboard after alighting.
pub proof fn lemma_staying_prefix_len(e: ElevatorV, n: int)
    requires
        n >= 0,
    ensures
        e.staying_prefix(n).len() <= n,
    decreases n,
{
    if n > 0 {
        lemma_staying_prefix_len(e, n - 1);
    }
}

/// A capacity-bounded carrier. Its direction is derived from comparing
/// `current_floor` with `destination_floor`; it is eligible for a new
/// dispatcher assignment only while the two are equal.
pub struct Elevator {
    pub id: usize,
    pub current_floor: usize,
    pub destination_floor: usize,
    pub pending_destinations: Vec<usize>,
    pub capacity: usize,
    pub occupants: Vec<Person>,
}

impl View for Elevator {
    type V = ElevatorV;

    open spec fn view(&self) -> ElevatorV {
        ElevatorV {
            id: self.id,
            current_floor: self.current_floor as int,
            destination_floor: self.destination_floor as int,
            pending: self.pending_destinations@,
            capacity: self.capacity,
            occupants: self.occupants@,
        }
    }
}

impl Elevator {
    /// A new, empty elevator resting at `start_floor`.
    pub fn new(id: usize, start_floor: usize, capacity: usize) -> (e: Elevator)
        ensures
            e@ == (ElevatorV {
                id,
                current_floor: start_floor as int,
                destination_floor: start_floor as int,
                pending: Seq::<usize>::empty(),
                capacity,
                occupants: Seq::<Person>::empty(),
            }),
            e@.wf(),
            e@.dir() == Direction::Still,
    {
        let e = Elevator {
            id,
            current_floor: start_floor,
            destination_floor: start_floor,
            pending_destinations: Vec::new(),
            capacity,
            occupants: Vec::new(),
        };
        proof {
            assert(e@.pending =~= Seq::<usize>::empty());
            assert(e@.occupants =~= Seq::<Person>::empty());
        }
        e
    }

    pub fn going_in_direction(&self) -> (d: Direction)
        ensures
            d == self@.dir(),
    {
        if self.current_floor < self.destination_floor {
            Direction::Up
        } else if self.current_floor > self.destination_floor {
            Direction::Down
        } else {
            Direction::Still
        }
    }

    /// Whether a person standing at this elevator's floor travels the way the
    /// elevator is going (a still elevator accepts anyone).
    pub fn accepts(&self, person: &Person) -> (b: bool)
        ensures
            b == self@.accepts_direction(*person),
    {
        match self.going_in_direction() {
            Direction::Still => true,
            Direction::Up => self.current_floor < person.destination,
            Direction::Down => self.current_floor > person.destination,
        }
    }

    pub fn has_capacity(&self) -> (b: bool)
        ensures
            b == (self@.occupants.len() < self@.capacity),
    {
        self.occupants.len() < self.capacity
    }

    /// Accept a new destination, but only while resting: a moving elevator
    /// keeps its commitment.
    pub fn set_destionation(&mut self, destination: usize)
        ensures
            old(self)@.dir() == Direction::Still ==> final(self)@ == old(self)@.with_destination(
                destination as int,
            ),
            old(self)@.dir() != Direction::Still ==> final(self)@ == old(self)@,
    {
        match self.going_in_direction() {
            Direction::Still => {
                self.destination_floor = destination;
            },
            _ => {},
        }
    }

    /// Retarget the committed destination where the commitment rule allows
    /// it: any destination while still, only a farther one while moving.
    pub fn extend_destination(&mut self, destination: usize)
        ensures
            old(self)@.may_retarget(destination as int) ==> final(self)@ == old(
                self,
            )@.with_destination(destination as int),
            !old(self)@.may_retarget(destination as int) ==> final(self)@ == old(self)@,
    {
        match self.going_in_direction() {
            Direction::Still => {
                self.destination_floor = destination;
            },
            Direction::Up => {
                if destination > self.destination_floor {
                    self.destination_floor = destination;
                }
            },
            Direction::Down => {
                if destination < self.destination_floor {
                    self.destination_floor = destination;
                }
            },
        }
    }

    /// Queue a destination to be served after the current trip completes.
    pub fn queue_destination(&mut self, destination: usize)
        ensures
            final(self)@ == (ElevatorV { pending: old(self)@.pending.push(destination), ..old(
                self,
            )@ }),
    {
        self.pending_destinations.push(destination);
    }

    /// One movement step of the simulation tick: move one floor toward the
    /// committed destination, and on arrival commit at once to the next
    /// pending destination, if one is queued.
    pub fn tick(&mut self)
        ensures
            final(self)@ == old(self)@.stepped(),
    {
        match self.going_in_direction() {
            Direction::Still => {},
            Direction::Up => {
                self.current_floor = self.current_floor + 1;
            },
            Direction::Down => {
                self.current_floor = self.current_floor - 1;
            },
        }
        if self.current_floor == self.destination_floor && self.pending_destinations.len() > 0 {
            self.destination_floor = self.pending_destinations.remove(0);
            proof {
                assert(self@.pending =~= old(self)@.stepped().pending);
            }
        }
    }

    /// Take `person` aboard: commit or extend the destination per the
    /// direction-commitment rule, then add them to the occupants.
    pub fn add_person_to_elevator(&mut self, person: Person)
        requires
            old(self)@.occupants.len() < old(self)@.capacity,
        ensures
            final(self)@ == old(self)@.boarded(person),
            final(self)@.wf(),
    {
        self.extend_destination(person.destination);
        self.occupants.push(person);
    }

    /// One tick of waiting for everyone still aboard.
    pub fn age_occupants(&mut self)
        ensures
            final(self)@ == old(self)@.aged_occupants(),
    {
        let n = self.occupants.len();
        let mut i: usize = 0;
        while i < n
            invariant
                n == self.occupants.len(),
                n == old(self)@.occupants.len(),
                i <= n,
                self.id == old(self).id,
                self.current_floor == old(self).current_floor,
                self.destination_floor == old(self).destination_floor,
                self.pending_destinations == old(self).pending_destinations,
                self.capacity == old(self).capacity,
                forall|k: int| 0 <= k < i ==> self.occupants@[k] == aged(old(self)@.occupants[k]),
                forall|k: int| i <= k < n ==> self.occupants@[k] == old(self)@.occupants[k],
            decreases n - i,
        {
            let p = self.occupants[i];
            self.occupants[i] = p.after_tick();
            i = i + 1;
        }
        proof {
            assert(self@.occupants =~= old(self)@.aged_occupants().occupants);
        }
    }
}

} // verus!
