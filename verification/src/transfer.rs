//! Passenger transfer between floors and elevators: alight first, then board,
//! in that order within a tick.

use vstd::prelude::*;

use crate::elevator::Elevator;
use crate::elevator::ElevatorV;
use crate::elevator::elevator_ok;
use crate::floor::Floor;
use crate::floor::FloorV;
use crate::person::Person;
use crate::person::person_ok;

verus! {

/// What boarding does from position `i` of a floor's waiting line: people are
/// scanned in order; one going the elevator's way boards while there is room;
/// a full elevator stops the whole line for this tick (everyone from `i` on
/// stays); one going the other way is passed over and the scan continues.
/// The result pairs the people left waiting with the elevator afterwards.
pub open spec fn board_from(w: Seq<Person>, e: ElevatorV, i: int) -> (Seq<Person>, ElevatorV)
    decreases w.len() - i,
{
    if i < 0 || i >= w.len() {
        (Seq::<Person>::empty(), e)
    } else if e.occupants.len() >= e.capacity {
        (w.skip(i), e)
    } else if e.accepts_direction(w[i]) {
        board_from(w, e.boarded(w[i]), i + 1)
    } else {
        let r = board_from(w, e, i + 1);
        (seq![w[i]] + r.0, r.1)
    }
}

/// Boarding preserves the capacity invariant, never creates or loses a
/// person, does not move the elevator, and retargets its destination only as
/// the direction-commitment rule allows.
pub proof fn lemma_board_from_props(w: Seq<Person>, e: ElevatorV, i: int)
    requires
        0 <= i <= w.len(),
    ensures
        ({
            let r = board_from(w, e, i);
            &&& e.wf() ==> r.1.wf()
            &&& r.0.len() + r.1.occupants.len() == (w.len() - i) + e.occupants.len()
            &&& r.1.id == e.id
            &&& r.1.current_floor == e.current_floor
            &&& r.1.pending == e.pending
            &&& r.1.capacity == e.capacity
            &&& (r.1.destination_floor == e.destination_floor || e.may_retarget(
                r.1.destination_floor,
            ))
        }),
    decreases w.len() - i,
{
    if i == w.len() {
    } else if e.occupants.len() >= e.capacity {
    } else if e.accepts_direction(w[i]) {
        lemma_board_from_props(w, e.boarded(w[i]), i + 1);
    } else {
        lemma_board_from_props(w, e, i + 1);
    }
}

/// Boarding keeps the building well-formed: the elevator stays well-placed,
/// and everyone left waiting was already waiting at the same floor.
pub proof fn lemma_board_from_ok(w: Seq<Person>, e: ElevatorV, i: int, nf: int, fnum: usize)
    requires
        0 <= i <= w.len(),
        elevator_ok(e, nf),
        forall|k: int|
            0 <= k < w.len() ==> person_ok(#[trigger] w[k], nf) && w[k].origin == fnum,
    ensures
        ({
            let r = board_from(w, e, i);
            &&& elevator_ok(r.1, nf)
            &&& forall|k: int|
                0 <= k < r.0.len() ==> person_ok(#[trigger] r.0[k], nf) && r.0[k].origin == fnum
        }),
    decreases w.len() - i,
{
    if i == w.len() {
    } else if e.occupants.len() >= e.capacity {
    } else if e.accepts_direction(w[i]) {
        lemma_board_from_ok(w, e.boarded(w[i]), i + 1, nf, fnum);
    } else {
        lemma_board_from_ok(w, e, i + 1, nf, fnum);
    }
}

/// Alighting: everyone aboard whose destination is the elevator's current
/// floor is delivered and leaves the simulation; the rest stay aboard in
/// order. Only meaningful when the elevator stands at `floor`. Returns how
/// many were delivered.
pub fn transfer_elevator_to_floor(floor: &Floor, elevator: &mut Elevator) -> (delivered: usize)
    requires
        old(elevator)@.current_floor == floor@.number as int,
    ensures
        final(elevator)@ == old(elevator)@.alighted(),
        final(elevator)@.occupants.len() + delivered == old(elevator)@.occupants.len(),
{
    let n = elevator.occupants.len();
    let mut kept: Vec<Person> = Vec::new();
    let mut i: usize = 0;
    while i < n
        invariant
            i <= n,
            n == elevator.occupants.len(),
            elevator == old(elevator),
            kept@ == old(elevator)@.staying_prefix(i as int),
            kept@.len() <= i,
        decreases n - i,
    {
        let p = elevator.occupants[i];
        if p.destination != elevator.current_floor {
            kept.push(p);
        }
        i = i + 1;
    }
    let delivered = n - kept.len();
    elevator.occupants = kept;
    delivered
}

/// Boarding: scan the floor's waiting line in order and move people into the
/// elevator per `board_from`: matching direction and free capacity board; a
/// full elevator keeps the rest of the line waiting; a direction mismatch is
/// skipped so that people farther back are not starved.
pub fn transfer_floor_to_elevator(floor: &mut Floor, elevator: &mut Elevator)
    requires
        old(elevator)@.wf(),
        old(elevator)@.current_floor == old(floor)@.number as int,
    ensures
        ({
            let r = board_from(old(floor)@.waiting, old(elevator)@, 0);
            &&& final(floor)@ == (FloorV { waiting: r.0, ..old(floor)@ })
            &&& final(elevator)@ == r.1
        }),
        final(elevator)@.wf(),
{
    let ghost w0 = old(floor)@.waiting;
    let ghost e0 = old(elevator)@;
    let n = floor.waiting.len();
    let mut kept: Vec<Person> = Vec::new();
    let mut i: usize = 0;
    proof {
        assert(kept@ + board_from(w0, e0, 0).0 =~= board_from(w0, e0, 0).0);
    }
    while i < n
        invariant
            i <= n,
            n == floor.waiting.len(),
            floor == old(floor),
            w0 == floor@.waiting,
            elevator@.wf(),
            board_from(w0, e0, 0) == (
            {
                let r = board_from(w0, elevator@, i as int);
                (kept@ + r.0, r.1)
            }),
        decreases n - i,
    {
        let ghost e_pre = elevator@;
        let ghost kept_pre = kept@;
        let p = floor.waiting[i];
        if elevator.has_capacity() {
            if elevator.accepts(&p) {
                elevator.add_person_to_elevator(p);
            } else {
                kept.push(p);
                proof {
                    let r = board_from(w0, e_pre, i + 1);
                    assert(kept_pre + (seq![p] + r.0) =~= kept_pre.push(p) + r.0);
                }
            }
        } else {
            kept.push(p);
            proof {
                let r = board_from(w0, e_pre, i + 1 as int);
                assert(w0.skip(i as int) =~= seq![p] + r.0);
                assert(kept_pre + w0.skip(i as int) =~= kept_pre.push(p) + r.0);
            }
        }
        i = i + 1;
    }
    proof {
        assert(kept@ + board_from(w0, elevator@, n as int).0 =~= kept@);
    }
    floor.waiting = kept;
}

} // verus!
