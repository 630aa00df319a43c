//! The dispatcher: derive the pending calls from the floors' waiting lines
//! and assign or extend elevator destinations, call by call, first elevator
//! wins. The policy is intentionally simple: elevators are scanned in fixed
//! index order with no load balancing and no starvation guarantee.

use vstd::prelude::*;

use crate::elevator::Elevator;
use crate::elevator::ElevatorV;
use crate::elevator::elevator_views;
use crate::floor::Floor;
use crate::floor::FloorV;
use crate::floor::floor_views;
use crate::person::Direction;
use crate::person::Person;
use crate::person::direction_of;

verus! {

/// The direction of travel of a call or trip `(origin, destination)`.
pub fn path_direction(path: (usize, usize)) -> (d: Direction)
    ensures
        d == direction_of(path.0 as int, path.1 as int),
{
    if path.0 < path.1 {
        Direction::Up
    } else if path.0 > path.1 {
        Direction::Down
    } else {
        Direction::Still
    }
}

/// Whether the elevator travels the same way as the person intends to.
pub fn same_direction(elevator: &Elevator, person: &Person) -> (b: bool)
    ensures
        b == (elevator@.dir() == person.direction()),
{
    let ed = elevator.going_in_direction();
    let pd = person.going_in_direction();
    ed == pd
}

/// The calls a floor raises among its first `n` waiting people: one
/// `(origin, destination)` pair per person still needing transport, in
/// waiting order. A person already at their destination raises no call.
pub open spec fn floor_calls_prefix(f: FloorV, n: int) -> Seq<(usize, usize)>
    decreases n,
{
    if n <= 0 {
        Seq::<(usize, usize)>::empty()
    } else {
        let rest = floor_calls_prefix(f, n - 1);
        if 0 <= n - 1 < f.waiting.len() && f.waiting[n - 1].destination != f.number {
            rest.push((f.number, f.waiting[n - 1].destination))
        } else {
            rest
        }
    }
}

/// The calls raised by the first `n` floors, in floor order.
pub open spec fn calls_prefix(floors: Seq<FloorV>, n: int) -> Seq<(usize, usize)>
    decreases n,
{
    if n <= 0 || n > floors.len() {
        Seq::<(usize, usize)>::empty()
    } else {
        calls_prefix(floors, n - 1) + floor_calls_prefix(
            floors[n - 1],
            floors[n - 1].waiting.len() as int,
        )
    }
}

/// All calls the building raises this tick, derived afresh from the waiting
/// lines: the floors' waiting lists are the only queue of unserved calls.
pub open spec fn calls_of(floors: Seq<FloorV>) -> Seq<(usize, usize)> {
    calls_prefix(floors, floors.len() as int)
}

/// Scan every floor's waiting line and collect the pending calls, one
/// `(origin floor, desired destination)` pair per person still needing
/// transport, in floor-number order.
pub fn get_people_waiting(floors: &Vec<Floor>) -> (paths: Vec<(usize, usize)>)
    ensures
        paths@ == calls_of(floor_views(floors@)),
{
    let ghost fv = floor_views(floors@);
    let mut paths: Vec<(usize, usize)> = Vec::new();
    let nf = floors.len();
    let mut i: usize = 0;
    proof {
        assert(paths@ =~= calls_prefix(fv, 0));
    }
    while i < nf
        invariant
            i <= nf,
            nf == floors@.len(),
            fv == floor_views(floors@),
            paths@ == calls_prefix(fv, i as int),
        decreases nf - i,
    {
        let nw = floors[i].waiting.len();
        let mut j: usize = 0;
        proof {
            assert(paths@ =~= calls_prefix(fv, i as int) + floor_calls_prefix(fv[i as int], 0));
        }
        while j < nw
            invariant
                j <= nw,
                i < nf,
                nf == floors@.len(),
                nw == fv[i as int].waiting.len(),
                fv == floor_views(floors@),
                paths@ == calls_prefix(fv, i as int) + floor_calls_prefix(fv[i as int], j as int),
            decreases nw - j,
        {
            let fl = &floors[i];
            let p = fl.waiting[j];
            if p.destination != fl.number {
                paths.push((fl.number, p.destination));
                proof {
                    assert(paths@ =~= calls_prefix(fv, i as int) + floor_calls_prefix(
                        fv[i as int],
                        j + 1 as int,
                    ));
                }
            }
            j = j + 1;
        }
        i = i + 1;
    }
    proof {
        assert(calls_prefix(fv, nf as int) =~= calls_of(fv));
    }
    paths
}

/// Whether an elevator can take a call this tick: a still elevator takes any
/// call; a moving one only serves a call en route, in its own direction, whose
/// origin lies ahead and whose destination reaches farther than the current
/// commitment.
pub open spec fn call_matches(e: ElevatorV, c: (usize, usize)) -> bool {
    match e.dir() {
        Direction::Still => true,
        Direction::Up => direction_of(c.0 as int, c.1 as int) == Direction::Up && (c.0 as int)
            >= e.current_floor && (c.1 as int) > e.destination_floor,
        Direction::Down => direction_of(c.0 as int, c.1 as int) == Direction::Down && (c.0 as int)
            <= e.current_floor && (c.1 as int) < e.destination_floor,
    }
}

/// The assignment a matching call makes: a still elevator heads for the
/// call's origin to pick up; a moving one extends its commitment to the
/// call's destination, serving the origin on the way.
pub open spec fn assign_call(e: ElevatorV, c: (usize, usize)) -> ElevatorV {
    match e.dir() {
        Direction::Still => e.with_destination(c.0 as int),
        _ => e.with_destination(c.1 as int),
    }
}

/// One call assigned to the first matching elevator at or after index `j`;
/// if none matches, the call is simply left for the next tick.
pub open spec fn dispatch_one_from(es: Seq<ElevatorV>, c: (usize, usize), j: int) -> Seq<
    ElevatorV,
>
    decreases es.len() - j,
{
    if j < 0 || j >= es.len() {
        es
    } else if call_matches(es[j], c) {
        es.update(j, assign_call(es[j], c))
    } else {
        dispatch_one_from(es, c, j + 1)
    }
}

/// The first `n` calls dispatched in order.
pub open spec fn dispatch_prefix(
    es: Seq<ElevatorV>,
    calls: Seq<(usize, usize)>,
    n: int,
) -> Seq<ElevatorV>
    decreases n,
{
    if n <= 0 || n > calls.len() {
        es
    } else {
        dispatch_one_from(dispatch_prefix(es, calls, n - 1), calls[n - 1], 0)
    }
}

/// All calls dispatched in order.
pub open spec fn dispatch_calls(es: Seq<ElevatorV>, calls: Seq<(usize, usize)>) -> Seq<
    ElevatorV,
> {
    dispatch_prefix(es, calls, calls.len() as int)
}

/// Direction commitment, relating an elevator before and after dispatching:
/// nothing changes but possibly the committed destination, and that only as
/// the commitment rule allows — freely while still, otherwise only farther
/// along the current direction of travel.
pub open spec fn commitment_kept(a: ElevatorV, b: ElevatorV) -> bool {
    &&& b.id == a.id
    &&& b.current_floor == a.current_floor
    &&& b.pending == a.pending
    &&& b.capacity == a.capacity
    &&& b.occupants == a.occupants
    &&& (b.destination_floor == a.destination_floor || a.may_retarget(b.destination_floor))
}

/// `commitment_kept` chains across successive assignments.
pub proof fn lemma_commitment_trans(a: ElevatorV, b: ElevatorV, c: ElevatorV)
    requires
        commitment_kept(a, b),
        commitment_kept(b, c),
    ensures
        commitment_kept(a, c),
{
}

/// Every call names floors of a building with `nf` floors.
pub open spec fn calls_ok(cs: Seq<(usize, usize)>, nf: int) -> bool {
    forall|k: int|
        0 <= k < cs.len() ==> ((#[trigger] cs[k]).0 as int) < nf && (cs[k].1 as int) < nf
}

proof fn lemma_floor_calls_ok(f: FloorV, n: int, nf: int)
    requires
        (f.number as int) < nf,
        forall|k: int|
            0 <= k < f.waiting.len() ==> ((#[trigger] f.waiting[k]).destination as int) < nf,
    ensures
        calls_ok(floor_calls_prefix(f, n), nf),
    decreases n,
{
    if n > 0 {
        lemma_floor_calls_ok(f, n - 1, nf);
    }
}

/// The calls a well-formed building raises name floors of the building.
pub proof fn lemma_calls_prefix_ok(fs: Seq<FloorV>, n: int, nf: int)
    requires
        forall|i: int| 0 <= i < fs.len() ==> crate::floor::floor_ok(#[trigger] fs[i], i, nf),
        fs.len() <= nf,
    ensures
        calls_ok(calls_prefix(fs, n), nf),
    decreases n,
{
    if 0 < n <= fs.len() {
        lemma_calls_prefix_ok(fs, n - 1, nf);
        let f = fs[n - 1];
        lemma_floor_calls_ok(f, f.waiting.len() as int, nf);
    }
}

proof fn lemma_dispatch_one_from_props(es: Seq<ElevatorV>, c: (usize, usize), j: int, nf: int)
    requires
        (c.0 as int) < nf,
        (c.1 as int) < nf,
        forall|k: int| 0 <= k < es.len() ==> 0 <= (#[trigger] es[k]).destination_floor < nf,
    ensures
        ({
            let r = dispatch_one_from(es, c, j);
            &&& r.len() == es.len()
            &&& forall|k: int| 0 <= k < es.len() ==> commitment_kept(#[trigger] es[k], r[k])
            &&& forall|k: int| 0 <= k < es.len() ==> 0 <= (#[trigger] r[k]).destination_floor < nf
        }),
    decreases es.len() - j,
{
    if 0 <= j < es.len() && !call_matches(es[j], c) {
        lemma_dispatch_one_from_props(es, c, j + 1, nf);
    }
}

/// Dispatching keeps every elevator's commitment: nothing changes but
/// destinations, and those only per the commitment rule, toward floors the
/// calls name.
pub proof fn lemma_dispatch_prefix_props(
    es: Seq<ElevatorV>,
    cs: Seq<(usize, usize)>,
    n: int,
    nf: int,
)
    requires
        calls_ok(cs, nf),
        forall|k: int| 0 <= k < es.len() ==> 0 <= (#[trigger] es[k]).destination_floor < nf,
    ensures
        ({
            let r = dispatch_prefix(es, cs, n);
            &&& r.len() == es.len()
            &&& forall|k: int| 0 <= k < es.len() ==> commitment_kept(#[trigger] es[k], r[k])
            &&& forall|k: int| 0 <= k < es.len() ==> 0 <= (#[trigger] r[k]).destination_floor < nf
        }),
    decreases n,
{
    if 0 < n <= cs.len() {
        lemma_dispatch_prefix_props(es, cs, n - 1, nf);
        let prev = dispatch_prefix(es, cs, n - 1);
        lemma_dispatch_one_from_props(prev, cs[n - 1], 0, nf);
        let r = dispatch_prefix(es, cs, n);
        assert forall|k: int| 0 <= k < es.len() implies commitment_kept(#[trigger] es[k], r[k]) by {
            lemma_commitment_trans(es[k], prev[k], r[k]);
        }
    }
}

proof fn lemma_dispatch_one_from_skip(es: Seq<ElevatorV>, c: (usize, usize), j: int)
    requires
        0 <= j <= es.len(),
        forall|k: int| 0 <= k < j ==> !call_matches(#[trigger] es[k], c),
    ensures
        dispatch_one_from(es, c, 0) == dispatch_one_from(es, c, j),
    decreases j,
{
    if j > 0 {
        lemma_dispatch_one_from_skip(es, c, j - 1);
    }
}

/// Assign every call to the first elevator that can take it, scanning
/// elevators in fixed index order; calls no elevator can take are dropped
/// here and re-derived from the still-waiting people next tick.
pub fn call_elevators(elevators: &mut Vec<Elevator>, paths: Vec<(usize, usize)>)
    ensures
        elevator_views(final(elevators)@) == dispatch_calls(
            elevator_views(old(elevators)@),
            paths@,
        ),
        final(elevators)@.len() == old(elevators)@.len(),
{
    let ghost es0 = elevator_views(old(elevators)@);
    let np = paths.len();
    let mut i: usize = 0;
    while i < np
        invariant
            i <= np,
            np == paths@.len(),
            elevators@.len() == old(elevators)@.len(),
            elevator_views(elevators@) == dispatch_prefix(es0, paths@, i as int),
        decreases np - i,
    {
        let c = paths[i];
        let ghost es_i = elevator_views(elevators@);
        let m = elevators.len();
        let mut j: usize = 0;
        let mut found = false;
        while j < m && !found
            invariant
                j <= m,
                m == elevators@.len(),
                found ==> elevator_views(elevators@) == dispatch_one_from(es_i, c, 0),
                !found ==> elevator_views(elevators@) == es_i,
                !found ==> forall|k: int| 0 <= k < j ==> !call_matches(#[trigger] es_i[k], c),
            decreases m - j,
        {
            let e_ref = &elevators[j];
            let d = e_ref.going_in_direction();
            let pd = path_direction(c);
            let matched = match d {
                Direction::Still => true,
                Direction::Up => pd == Direction::Up && c.0 >= e_ref.current_floor && c.1
                    > e_ref.destination_floor,
                Direction::Down => pd == Direction::Down && c.0 <= e_ref.current_floor && c.1
                    < e_ref.destination_floor,
            };
            if matched {
                let e = &mut elevators[j];
                match d {
                    Direction::Still => e.set_destionation(c.0),
                    _ => e.extend_destination(c.1),
                }
                proof {
                    lemma_dispatch_one_from_skip(es_i, c, j as int);
                    assert(elevator_views(elevators@) =~= es_i.update(
                        j as int,
                        assign_call(es_i[j as int], c),
                    ));
                }
                found = true;
            } else {
                proof {
                    assert(es_i[j as int] == elevators@[j as int]@);
                    assert(!call_matches(es_i[j as int], c));
                }
            }
            j = j + 1;
        }
        proof {
            if !found {
                lemma_dispatch_one_from_skip(es_i, c, m as int);
                assert(dispatch_one_from(es_i, c, m as int) == es_i);
            }
        }
        i = i + 1;
    }
}

} // verus!
