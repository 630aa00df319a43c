//! Floors: numbered holding areas for people waiting to board.

use vstd::prelude::*;

use crate::person::Person;
use crate::person::aged;
use crate::person::person_ok;

verus! {

/// The mathematical model of a floor.
#[verifier::ext_equal]
pub ghost struct FloorV {
    pub number: usize,
    pub waiting: Seq<Person>,
}

impl FloorV {
    /// Everyone waiting on a floor is waiting at their own origin.
    pub open spec fn wf(self) -> bool {
        forall|k: int| 0 <= k < self.waiting.len() ==> (#[trigger] self.waiting[k]).origin
            == self.number
    }

    /// The people among the first `n` waiting who still need transport (their
    /// destination is some other floor), in their original order.
    pub open spec fn needing_prefix(self, n: int) -> Seq<Person>
        decreases n,
    {
        if n <= 0 {
            Seq::empty()
        } else {
            let rest = self.needing_prefix(n - 1);
            if 0 <= n - 1 < self.waiting.len() && self.waiting[n - 1].destination != self.number {
                rest.push(self.waiting[n - 1])
            } else {
                rest
            }
        }
    }

    /// The floor after everyone already standing at their destination has
    /// been delivered in place (the degenerate `origin == destination` case).
    pub open spec fn cleared(self) -> FloorV {
        FloorV { waiting: self.needing_prefix(self.waiting.len() as int), ..self }
    }

    /// The floor with one more arrival queued at the back.
    pub open spec fn with_arrival(self, p: Person) -> FloorV {
        FloorV { waiting: self.waiting.push(p), ..self }
    }

    /// The floor after one tick of waiting: everyone still waiting has waited
    /// one tick longer.
    pub open spec fn aged_waiting(self) -> FloorV {
        FloorV { waiting: self.waiting.map_values(|p: Person| aged(p)), ..self }
    }
}

/// At most the first `n` waiting people can still need transport.
pub proof fn lemma_needing_prefix_len(f: FloorV, n: int)
    requires
        n >= 0,
    ensures
        f.needing_prefix(n).len() <= n,
    decreases n,
{
    if n > 0 {
        lemma_needing_prefix_len(f, n - 1);
    }
}

/// Everyone kept by in-place delivery was already waiting on the floor.
pub proof fn lemma_needing_prefix_elems(f: FloorV, n: int)
    ensures
        forall|k: int|
            0 <= k < f.needing_prefix(n).len() ==> f.waiting.contains(
                #[trigger] f.needing_prefix(n)[k],
            ),
    decreases n,
{
    if n > 0 {
        lemma_needing_prefix_elems(f, n - 1);
        let cur = f.needing_prefix(n);
        let rest = f.needing_prefix(n - 1);
        assert forall|k: int| 0 <= k < cur.len() implies f.waiting.contains(cur[k]) by {
            if 0 <= n - 1 < f.waiting.len() && f.waiting[n - 1].destination != f.number {
                if k < rest.len() {
                    assert(cur[k] == rest[k]);
                } else {
                    assert(cur[k] == f.waiting[n - 1]);
                }
            } else {
                assert(cur[k] == rest[k]);
            }
        }
    }
}

/// A well-placed floor in a building of `nf` floors: it sits at its own
/// index, and everyone waiting on it arrived there (their origin is this
/// floor) and is bound for a floor of the building.
pub open spec fn floor_ok(f: FloorV, i: int, nf: int) -> bool {
    &&& f.number as int == i
    &&& forall|k: int|
        0 <= k < f.waiting.len() ==> person_ok(#[trigger] f.waiting[k], nf) && f.waiting[k].origin
            == f.number
}

/// The models of a collection of floors, in the same order.
pub open spec fn floor_views(s: Seq<Floor>) -> Seq<FloorV> {
    s.map_values(|f: Floor| f@)
}

/// A holding area for people waiting to board, identified by an immutable
/// number.
pub struct Floor {
    pub number: usize,
    pub waiting: Vec<Person>,
}

impl View for Floor {
    type V = FloorV;

    open spec fn view(&self) -> FloorV {
        FloorV { number: self.number, waiting: self.waiting@ }
    }
}

impl Floor {
    /// A new, empty floor.
    pub fn new(number: usize) -> (f: Floor)
        ensures
            f@ == (FloorV { number, waiting: Seq::<Person>::empty() }),
            f@.wf(),
    {
        let f = Floor { number, waiting: Vec::new() };
        proof {
            assert(f@.waiting =~= Seq::<Person>::empty());
        }
        f
    }

    /// Queue a newly arrived person at the back of the waiting line.
    pub fn add_person(&mut self, person: Person)
        ensures
            final(self)@ == old(self)@.with_arrival(person),
    {
        self.waiting.push(person);
    }

    /// Deliver in place everyone whose destination is this very floor: they
    /// need no transport and leave the simulation at once. Returns how many
    /// were delivered.
    pub fn remove_arrived(&mut self) -> (delivered: usize)
        ensures
            final(self)@ == old(self)@.cleared(),
            final(self)@.waiting.len() + delivered == old(self)@.waiting.len(),
    {
        let n = self.waiting.len();
        let mut kept: Vec<Person> = Vec::new();
        let mut i: usize = 0;
        while i < n
            invariant
                i <= n,
                n == self.waiting.len(),
                self == old(self),
                kept@ == old(self)@.needing_prefix(i as int),
                kept@.len() <= i,
            decreases n - i,
        {
            let p = self.waiting[i];
            if p.destination != self.number {
                kept.push(p);
            }
            i = i + 1;
        }
        let delivered = n - kept.len();
        self.waiting = kept;
        delivered
    }

    /// One tick of waiting for everyone still on this floor.
    pub fn age_people(&mut self)
        ensures
            final(self)@ == old(self)@.aged_waiting(),
    {
        let n = self.waiting.len();
        let mut i: usize = 0;
        while i < n
            invariant
                n == self.waiting.len(),
                n == old(self)@.waiting.len(),
                i <= n,
                self.number == old(self).number,
                forall|k: int| 0 <= k < i ==> self.waiting@[k] == aged(old(self)@.waiting[k]),
                forall|k: int| i <= k < n ==> self.waiting@[k] == old(self)@.waiting[k],
            decreases n - i,
        {
            let p = self.waiting[i];
            self.waiting[i] = p.after_tick();
            i = i + 1;
        }
        proof {
            assert(self@.waiting =~= old(self)@.aged_waiting().waiting);
        }
    }
}

} // verus!
