//! The building: it owns the floors and elevators and drives one simulation
//! tick in a fixed phase order: arrivals, dispatch, movement, alighting,
//! boarding, and finally the waiting-time bookkeeping.

use vstd::prelude::*;

use crate::count::elevators_people;
use crate::count::elevators_people_prefix;
use crate::count::floors_people;
use crate::count::floors_people_prefix;
use crate::count::lemma_elevators_people_pointwise;
use crate::count::lemma_elevators_people_update;
use crate::count::lemma_floors_people_pointwise;
use crate::count::lemma_floors_people_update;
use crate::count::lemma_elevators_people_prefix_le;
use crate::count::lemma_floors_people_prefix_le;
use crate::count::people_total;
use crate::dispatch::call_elevators;
use crate::dispatch::calls_of;
use crate::dispatch::commitment_kept;
use crate::dispatch::dispatch_calls;
use crate::dispatch::get_people_waiting;
use crate::dispatch::lemma_calls_prefix_ok;
use crate::dispatch::lemma_dispatch_prefix_props;
use crate::elevator::Elevator;
use crate::elevator::ElevatorV;
use crate::elevator::elevator_ok;
use crate::elevator::elevator_views;
use crate::floor::Floor;
use crate::floor::floor_views;
use crate::transfer::transfer_elevator_to_floor;
use crate::transfer::transfer_floor_to_elevator;
use crate::elevator::lemma_staying_prefix_elems;
use crate::elevator::lemma_staying_prefix_len;
use crate::elevator::lemma_stepped_ok;
use crate::floor::FloorV;
use crate::floor::floor_ok;
use crate::floor::lemma_needing_prefix_elems;
use crate::person::Person;
use crate::person::person_ok;
use crate::transfer::board_from;
use crate::transfer::lemma_board_from_ok;
use crate::transfer::lemma_board_from_props;

verus! {

/// A well-formed building state: floor `i` sits at index `i` and holds only
/// people who arrived there and travel within the building; every elevator is
/// well-placed and within capacity.
pub open spec fn wf_state(fs: Seq<FloorV>, es: Seq<ElevatorV>) -> bool {
    &&& forall|i: int| 0 <= i < fs.len() ==> floor_ok(#[trigger] fs[i], i, fs.len() as int)
    &&& forall|j: int| 0 <= j < es.len() ==> elevator_ok(#[trigger] es[j], fs.len() as int)
}

/// The floors after the first `n` arrivals have each joined the waiting line
/// of their origin floor, in arrival order.
pub open spec fn placed_prefix(fs: Seq<FloorV>, arrivals: Seq<Person>, n: int) -> Seq<FloorV>
    decreases n,
{
    if n <= 0 || n > arrivals.len() {
        fs
    } else {
        let prev = placed_prefix(fs, arrivals, n - 1);
        let p = arrivals[n - 1];
        if (p.origin as int) < prev.len() {
            prev.update(p.origin as int, prev[p.origin as int].with_arrival(p))
        } else {
            prev
        }
    }
}

/// Every elevator one movement step later.
pub open spec fn all_moved(es: Seq<ElevatorV>) -> Seq<ElevatorV> {
    es.map_values(|e: ElevatorV| e.stepped())
}

/// Every floor after its in-place deliveries.
pub open spec fn all_cleared(fs: Seq<FloorV>) -> Seq<FloorV> {
    fs.map_values(|f: FloorV| f.cleared())
}

/// How many people the first `n` floors deliver in place.
pub open spec fn cleared_total_prefix(fs: Seq<FloorV>, n: int) -> int
    decreases n,
{
    if n <= 0 || n > fs.len() {
        0
    } else {
        cleared_total_prefix(fs, n - 1) + fs[n - 1].waiting.len() - fs[
            n - 1
        ].cleared().waiting.len()
    }
}

pub open spec fn cleared_total(fs: Seq<FloorV>) -> int {
    cleared_total_prefix(fs, fs.len() as int)
}

/// Every elevator after its passengers for the current floor have alighted.
pub open spec fn all_alighted(es: Seq<ElevatorV>) -> Seq<ElevatorV> {
    es.map_values(|e: ElevatorV| e.alighted())
}

/// How many people the first `n` elevators deliver at their current floors.
pub open spec fn alight_total_prefix(es: Seq<ElevatorV>, n: int) -> int
    decreases n,
{
    if n <= 0 || n > es.len() {
        0
    } else {
        alight_total_prefix(es, n - 1) + es[n - 1].occupants.len() - es[
            n - 1
        ].alighted().occupants.len()
    }
}

pub open spec fn alight_total(es: Seq<ElevatorV>) -> int {
    alight_total_prefix(es, es.len() as int)
}

/// Elevator `j` boards from the floor it stands at.
pub open spec fn board_step_at(fs: Seq<FloorV>, es: Seq<ElevatorV>, j: int) -> (
    Seq<FloorV>,
    Seq<ElevatorV>,
) {
    if 0 <= j < es.len() && 0 <= es[j].current_floor < fs.len() {
        let e = es[j];
        let f = fs[e.current_floor];
        let r = board_from(f.waiting, e, 0);
        (fs.update(e.current_floor, FloorV { waiting: r.0, ..f }), es.update(j, r.1))
    } else {
        (fs, es)
    }
}

/// The building after the first `n` elevators have boarded, in index order.
pub open spec fn board_prefix(fs: Seq<FloorV>, es: Seq<ElevatorV>, n: int) -> (
    Seq<FloorV>,
    Seq<ElevatorV>,
)
    decreases n,
{
    if n <= 0 {
        (fs, es)
    } else {
        let prev = board_prefix(fs, es, n - 1);
        board_step_at(prev.0, prev.1, n - 1)
    }
}

/// Everyone still waiting on a floor has waited one tick longer.
pub open spec fn aged_floors(fs: Seq<FloorV>) -> Seq<FloorV> {
    fs.map_values(|f: FloorV| f.aged_waiting())
}

/// Everyone still riding has waited one tick longer.
pub open spec fn aged_elevators(es: Seq<ElevatorV>) -> Seq<ElevatorV> {
    es.map_values(|e: ElevatorV| e.aged_occupants())
}

/// One full simulation tick over the building's model: place the arrivals,
/// dispatch the calls the waiting lines raise, move every elevator one step,
/// deliver in place and let passengers alight, board, and advance every
/// remaining person's wait time. Returns the floors, the elevators, and how
/// many people were delivered this tick.
pub open spec fn tick_spec(fs: Seq<FloorV>, es: Seq<ElevatorV>, arrivals: Seq<Person>) -> (
    Seq<FloorV>,
    Seq<ElevatorV>,
    int,
) {
    let fs_a = placed_prefix(fs, arrivals, arrivals.len() as int);
    let es_d = dispatch_calls(es, calls_of(fs_a));
    let es_m = all_moved(es_d);
    let fs_c = all_cleared(fs_a);
    let es_l = all_alighted(es_m);
    let delivered = cleared_total(fs_a) + alight_total(es_m);
    let b = board_prefix(fs_c, es_l, es_l.len() as int);
    (aged_floors(b.0), aged_elevators(b.1), delivered)
}

/// Placing arrivals keeps every floor well-formed and adds exactly the
/// arrivals to the waiting count.
pub proof fn lemma_placed_props(fs: Seq<FloorV>, arrivals: Seq<Person>, n: int)
    requires
        0 <= n <= arrivals.len(),
        forall|i: int| 0 <= i < fs.len() ==> floor_ok(#[trigger] fs[i], i, fs.len() as int),
        forall|k: int|
            0 <= k < arrivals.len() ==> person_ok(#[trigger] arrivals[k], fs.len() as int),
    ensures
        ({
            let r = placed_prefix(fs, arrivals, n);
            &&& r.len() == fs.len()
            &&& forall|i: int| 0 <= i < r.len() ==> floor_ok(#[trigger] r[i], i, fs.len() as int)
            &&& floors_people(r) == floors_people(fs) + n
        }),
    decreases n,
{
    if n > 0 {
        lemma_placed_props(fs, arrivals, n - 1);
        let prev = placed_prefix(fs, arrivals, n - 1);
        let p = arrivals[n - 1];
        let o = p.origin as int;
        let newf = prev[o].with_arrival(p);
        let r = placed_prefix(fs, arrivals, n);
        lemma_floors_people_update(prev, o, newf, prev.len() as int);
        assert(floor_ok(newf, o, fs.len() as int)) by {
            assert(forall|k: int|
                0 <= k < prev[o].waiting.len() ==> #[trigger] newf.waiting[k] == prev[o].waiting[k]);
            assert(newf.waiting[prev[o].waiting.len() as int] == p);
        }
        assert(forall|i: int| 0 <= i < r.len() ==> floor_ok(#[trigger] r[i], i, fs.len() as int));
    }
}

/// In-place delivery keeps every floor well-formed.
pub proof fn lemma_cleared_ok(fs: Seq<FloorV>, nf: int)
    requires
        forall|i: int| 0 <= i < fs.len() ==> floor_ok(#[trigger] fs[i], i, nf),
    ensures
        all_cleared(fs).len() == fs.len(),
        forall|i: int| 0 <= i < fs.len() ==> floor_ok(#[trigger] all_cleared(fs)[i], i, nf),
{
    assert forall|i: int| 0 <= i < fs.len() implies floor_ok(
        #[trigger] all_cleared(fs)[i],
        i,
        nf,
    ) by {
        let f = fs[i];
        lemma_needing_prefix_elems(f, f.waiting.len() as int);
        let c = f.cleared();
        assert(all_cleared(fs)[i] == c);
        assert forall|k: int| 0 <= k < c.waiting.len() implies person_ok(
            #[trigger] c.waiting[k],
            nf,
        ) && c.waiting[k].origin == c.number by {
            assert(f.waiting.contains(c.waiting[k]));
            let l = choose|l: int| 0 <= l < f.waiting.len() && f.waiting[l] == c.waiting[k];
            assert(person_ok(f.waiting[l], nf));
        }
    }
}

/// In-place delivery removes exactly the people it counts as delivered.
pub proof fn lemma_cleared_count(fs: Seq<FloorV>, n: int)
    requires
        0 <= n <= fs.len(),
    ensures
        floors_people_prefix(all_cleared(fs), n) + cleared_total_prefix(fs, n)
            == floors_people_prefix(fs, n),
    decreases n,
{
    if n > 0 {
        lemma_cleared_count(fs, n - 1);
        assert(all_cleared(fs)[n - 1] == fs[n - 1].cleared());
    }
}

/// Alighting keeps every elevator well-placed and within capacity.
pub proof fn lemma_alighted_ok(es: Seq<ElevatorV>, nf: int)
    requires
        forall|j: int| 0 <= j < es.len() ==> elevator_ok(#[trigger] es[j], nf),
    ensures
        all_alighted(es).len() == es.len(),
        forall|j: int| 0 <= j < es.len() ==> elevator_ok(#[trigger] all_alighted(es)[j], nf),
        forall|j: int|
            0 <= j < es.len() ==> (#[trigger] all_alighted(es)[j]).occupants.len()
                <= es[j].occupants.len(),
{
    assert forall|j: int| 0 <= j < es.len() implies elevator_ok(#[trigger] all_alighted(es)[j], nf)
        && all_alighted(es)[j].occupants.len() <= es[j].occupants.len() by {
        let e = es[j];
        lemma_staying_prefix_elems(e, e.occupants.len() as int);
        lemma_staying_prefix_len(e, e.occupants.len() as int);
        let a = e.alighted();
        assert(all_alighted(es)[j] == a);
        assert forall|k: int| 0 <= k < a.occupants.len() implies person_ok(
            #[trigger] a.occupants[k],
            nf,
        ) by {
            assert(e.occupants.contains(a.occupants[k]));
            let l = choose|l: int| 0 <= l < e.occupants.len() && e.occupants[l] == a.occupants[k];
            assert(person_ok(e.occupants[l], nf));
        }
    }
}

/// Alighting removes exactly the people it counts as delivered.
pub proof fn lemma_alighted_count(es: Seq<ElevatorV>, n: int)
    requires
        0 <= n <= es.len(),
    ensures
        elevators_people_prefix(all_alighted(es), n) + alight_total_prefix(es, n)
            == elevators_people_prefix(es, n),
    decreases n,
{
    if n > 0 {
        lemma_alighted_count(es, n - 1);
        assert(all_alighted(es)[n - 1] == es[n - 1].alighted());
    }
}

/// Boarding, elevator by elevator, keeps the building well-formed, keeps
/// every person, and leaves elevators at or after `n` untouched.
pub proof fn lemma_board_prefix_props(fs: Seq<FloorV>, es: Seq<ElevatorV>, n: int)
    requires
        wf_state(fs, es),
        0 <= n <= es.len(),
    ensures
        ({
            let b = board_prefix(fs, es, n);
            &&& b.0.len() == fs.len()
            &&& b.1.len() == es.len()
            &&& wf_state(b.0, b.1)
            &&& floors_people(b.0) + elevators_people(b.1) == floors_people(fs)
                + elevators_people(es)
            &&& forall|j: int| n <= j < es.len() ==> b.1[j] == es[j]
        }),
    decreases n,
{
    if n > 0 {
        lemma_board_prefix_props(fs, es, n - 1);
        let prev = board_prefix(fs, es, n - 1);
        let j = n - 1;
        let e = prev.1[j];
        let b = board_prefix(fs, es, n);
        if 0 <= e.current_floor < prev.0.len() {
            let cf = e.current_floor;
            let f = prev.0[cf];
            let r = board_from(f.waiting, e, 0);
            lemma_board_from_props(f.waiting, e, 0);
            lemma_board_from_ok(f.waiting, e, 0, fs.len() as int, f.number);
            let newf = FloorV { waiting: r.0, ..f };
            lemma_floors_people_update(prev.0, cf, newf, prev.0.len() as int);
            lemma_elevators_people_update(prev.1, j, r.1, prev.1.len() as int);
            assert(floor_ok(newf, cf, fs.len() as int));
            assert(wf_state(b.0, b.1)) by {
                assert(forall|i: int|
                    0 <= i < b.0.len() ==> floor_ok(#[trigger] b.0[i], i, fs.len() as int));
                assert(forall|k: int|
                    0 <= k < b.1.len() ==> elevator_ok(#[trigger] b.1[k], fs.len() as int));
            }
        }
    }
}

/// The waiting-time bookkeeping keeps the building well-formed and every
/// person in place.
pub proof fn lemma_aged_props(fs: Seq<FloorV>, es: Seq<ElevatorV>)
    requires
        wf_state(fs, es),
    ensures
        aged_floors(fs).len() == fs.len(),
        aged_elevators(es).len() == es.len(),
        wf_state(aged_floors(fs), aged_elevators(es)),
        floors_people(aged_floors(fs)) == floors_people(fs),
        elevators_people(aged_elevators(es)) == elevators_people(es),
{
    let nf = fs.len() as int;
    assert forall|i: int| 0 <= i < fs.len() implies floor_ok(#[trigger] aged_floors(fs)[i], i, nf)
        && aged_floors(fs)[i].waiting.len() == fs[i].waiting.len() by {
        let f = fs[i];
        let a = f.aged_waiting();
        assert(aged_floors(fs)[i] == a);
        assert(forall|k: int|
            0 <= k < f.waiting.len() ==> #[trigger] a.waiting[k] == crate::person::aged(
                f.waiting[k],
            ));
    }
    assert forall|j: int| 0 <= j < es.len() implies elevator_ok(
        #[trigger] aged_elevators(es)[j],
        nf,
    ) && aged_elevators(es)[j].occupants.len() == es[j].occupants.len() by {
        let e = es[j];
        let a = e.aged_occupants();
        assert(aged_elevators(es)[j] == a);
        assert(forall|k: int|
            0 <= k < e.occupants.len() ==> #[trigger] a.occupants[k] == crate::person::aged(
                e.occupants[k],
            ));
    }
    lemma_floors_people_pointwise(fs, aged_floors(fs), fs.len() as int);
    lemma_elevators_people_pointwise(es, aged_elevators(es), es.len() as int);
}

/// The whole tick keeps the building well-formed, and conserves people: what
/// is waiting or riding afterwards, plus what was delivered, is what was
/// waiting or riding before, plus what arrived. This is the conservation law
/// of the simulation.
pub proof fn lemma_tick_props(fs: Seq<FloorV>, es: Seq<ElevatorV>, arrivals: Seq<Person>)
    requires
        wf_state(fs, es),
        forall|k: int|
            0 <= k < arrivals.len() ==> person_ok(#[trigger] arrivals[k], fs.len() as int),
    ensures
        ({
            let r = tick_spec(fs, es, arrivals);
            &&& r.0.len() == fs.len()
            &&& r.1.len() == es.len()
            &&& wf_state(r.0, r.1)
            &&& floors_people(r.0) + elevators_people(r.1) + r.2 == floors_people(fs)
                + elevators_people(es) + arrivals.len()
        }),
{
    let nf = fs.len() as int;
    lemma_placed_props(fs, arrivals, arrivals.len() as int);
    let fs_a = placed_prefix(fs, arrivals, arrivals.len() as int);
    lemma_calls_prefix_ok(fs_a, fs_a.len() as int, nf);
    let cs = calls_of(fs_a);
    lemma_dispatch_prefix_props(es, cs, cs.len() as int, nf);
    let es_d = dispatch_calls(es, cs);
    assert forall|j: int| 0 <= j < es.len() implies elevator_ok(#[trigger] es_d[j], nf)
        && es_d[j].occupants.len() == es[j].occupants.len() by {
        assert(commitment_kept(es[j], es_d[j]));
    }
    lemma_elevators_people_pointwise(es, es_d, es.len() as int);
    let es_m = all_moved(es_d);
    assert forall|j: int| 0 <= j < es_d.len() implies elevator_ok(#[trigger] es_m[j], nf)
        && es_m[j].occupants.len() == es_d[j].occupants.len() by {
        assert(es_m[j] == es_d[j].stepped());
        lemma_stepped_ok(es_d[j], nf);
    }
    lemma_elevators_people_pointwise(es_d, es_m, es_d.len() as int);
    let fs_c = all_cleared(fs_a);
    lemma_cleared_ok(fs_a, nf);
    lemma_cleared_count(fs_a, fs_a.len() as int);
    let es_l = all_alighted(es_m);
    lemma_alighted_ok(es_m, nf);
    lemma_alighted_count(es_m, es_m.len() as int);
    assert(wf_state(fs_c, es_l));
    lemma_board_prefix_props(fs_c, es_l, es_l.len() as int);
    let b = board_prefix(fs_c, es_l, es_l.len() as int);
    lemma_aged_props(b.0, b.1);
}

/// The capacity invariant: in a well-formed building, every elevator holds
/// at most its capacity.
pub proof fn lemma_capacity_invariant(fs: Seq<FloorV>, es: Seq<ElevatorV>)
    requires
        wf_state(fs, es),
    ensures
        forall|j: int|
            0 <= j < es.len() ==> (#[trigger] es[j]).occupants.len() <= es[j].capacity,
{
}

/// Advance the whole simulation by one discrete step, in the fixed phase
/// order: place the arrivals on their origin floors, dispatch the calls the
/// waiting lines raise, move every elevator one floor, deliver (in place and
/// by alighting), board, and advance every remaining person's wait time.
pub fn similation_tick(
    elevators: &mut Vec<Elevator>,
    floors: &mut Vec<Floor>,
    arrivals: Vec<Person>,
)
    requires
        wf_state(floor_views(old(floors)@), elevator_views(old(elevators)@)),
        forall|k: int|
            0 <= k < arrivals@.len() ==> person_ok(
                #[trigger] arrivals@[k],
                old(floors)@.len() as int,
            ),
    ensures
        ({
            let r = tick_spec(
                floor_views(old(floors)@),
                elevator_views(old(elevators)@),
                arrivals@,
            );
            &&& floor_views(final(floors)@) == r.0
            &&& elevator_views(final(elevators)@) == r.1
            &&& wf_state(r.0, r.1)
            &&& floors_people(r.0) + elevators_people(r.1) + r.2 == floors_people(
                floor_views(old(floors)@),
            ) + elevators_people(elevator_views(old(elevators)@)) + arrivals@.len()
        }),
        final(floors)@.len() == old(floors)@.len(),
        final(elevators)@.len() == old(elevators)@.len(),
{
    let ghost fs0 = floor_views(old(floors)@);
    let ghost es0 = elevator_views(old(elevators)@);
    let nf = floors.len();
    let m = elevators.len();

    // place the new arrivals on their origin floors
    let na = arrivals.len();
    let mut a: usize = 0;
    while a < na
        invariant
            a <= na,
            na == arrivals@.len(),
            nf == floors@.len(),
            fs0.len() == nf,
            m == elevators@.len(),
            forall|k: int| 0 <= k < na ==> person_ok(#[trigger] arrivals@[k], nf as int),
            floor_views(floors@) == placed_prefix(fs0, arrivals@, a as int),
            elevator_views(elevators@) == es0,
        decreases na - a,
    {
        let p = arrivals[a];
        let fl = &mut floors[p.origin];
        fl.add_person(p);
        proof {
            assert(floor_views(floors@) =~= placed_prefix(fs0, arrivals@, a as int + 1));
        }
        a = a + 1;
    }
    let ghost fs_a = placed_prefix(fs0, arrivals@, arrivals@.len() as int);

    // derive the pending calls and assign elevator destinations
    let paths = get_people_waiting(floors);
    call_elevators(elevators, paths);
    let ghost es_d = dispatch_calls(es0, calls_of(fs_a));

    proof {
        lemma_placed_props(fs0, arrivals@, arrivals@.len() as int);
        lemma_calls_prefix_ok(fs_a, fs_a.len() as int, nf as int);
        lemma_dispatch_prefix_props(es0, calls_of(fs_a), calls_of(fs_a).len() as int, nf as int);
        assert forall|k: int| 0 <= k < m implies elevator_ok(#[trigger] es_d[k], nf as int) by {
            assert(commitment_kept(es0[k], es_d[k]));
        }
    }

    // move every elevator one floor toward its committed destination
    proof {
        assert forall|k: int| 0 <= k < m implies (#[trigger] elevators@[k])@ == es_d[k] by {
            assert(elevator_views(elevators@)[k] == elevators@[k]@);
        }
    }
    let mut j: usize = 0;
    while j < m
        invariant
            j <= m,
            m == elevators@.len(),
            es_d.len() == m,
            nf == floors@.len(),
            floor_views(floors@) == fs_a,
            forall|k: int| 0 <= k < j ==> (#[trigger] elevators@[k])@ == es_d[k].stepped(),
            forall|k: int| j <= k < m ==> (#[trigger] elevators@[k])@ == es_d[k],
        decreases m - j,
    {
        let e = &mut elevators[j];
        e.tick();
        j = j + 1;
    }
    let ghost es_m = all_moved(es_d);
    proof {
        assert(elevator_views(elevators@) =~= es_m);
        assert forall|k: int| 0 <= k < m implies elevator_ok(#[trigger] es_m[k], nf as int) by {
            assert(elevator_ok(es_d[k], nf as int));
            lemma_stepped_ok(es_d[k], nf as int);
            assert(es_m[k] == es_d[k].stepped());
        }
    }

    // deliver in place: people already standing at their destination leave
    proof {
        assert forall|k: int| 0 <= k < nf implies (#[trigger] floors@[k])@ == fs_a[k] by {
            assert(floor_views(floors@)[k] == floors@[k]@);
        }
    }
    let mut i: usize = 0;
    while i < nf
        invariant
            i <= nf,
            nf == floors@.len(),
            fs_a.len() == nf,
            m == elevators@.len(),
            elevator_views(elevators@) == es_m,
            forall|k: int| 0 <= k < i ==> (#[trigger] floors@[k])@ == fs_a[k].cleared(),
            forall|k: int| i <= k < nf ==> (#[trigger] floors@[k])@ == fs_a[k],
        decreases nf - i,
    {
        let fl = &mut floors[i];
        fl.remove_arrived();
        i = i + 1;
    }
    let ghost fs_c = all_cleared(fs_a);
    proof {
        assert(floor_views(floors@) =~= fs_c);
        lemma_cleared_ok(fs_a, nf as int);
        lemma_alighted_ok(es_m, nf as int);
    }

    // alight: deliver everyone whose destination is their elevator's floor
    proof {
        assert forall|k: int| 0 <= k < nf implies (#[trigger] floors@[k])@ == fs_c[k] by {
            assert(floor_views(floors@)[k] == floors@[k]@);
        }
    }
    j = 0;
    while j < m
        invariant
            j <= m,
            m == elevators@.len(),
            nf == floors@.len(),
            es_m.len() == m,
            fs_c.len() == nf,
            forall|k: int| 0 <= k < nf ==> (#[trigger] floors@[k])@ == fs_c[k],
            forall|k: int| 0 <= k < m ==> 0 <= (#[trigger] es_m[k]).current_floor < nf as int,
            forall|k: int| 0 <= k < nf ==> (#[trigger] fs_c[k]).number as int == k,
            forall|k: int| 0 <= k < j ==> (#[trigger] elevators@[k])@ == es_m[k].alighted(),
            forall|k: int| j <= k < m ==> (#[trigger] elevators@[k])@ == es_m[k],
        decreases m - j,
    {
        let cf = elevators[j].current_floor;
        transfer_elevator_to_floor(&floors[cf], &mut elevators[j]);
        j = j + 1;
    }
    let ghost es_l = all_alighted(es_m);
    proof {
        assert(floor_views(floors@) =~= fs_c);
        assert(elevator_views(elevators@) =~= es_l);
        assert(wf_state(fs_c, es_l));
    }

    // board: each elevator takes on whoever goes its way, while room lasts
    j = 0;
    while j < m
        invariant
            j <= m,
            m == elevators@.len(),
            nf == floors@.len(),
            fs_c.len() == nf,
            es_l.len() == m,
            wf_state(fs_c, es_l),
            (floor_views(floors@), elevator_views(elevators@)) == board_prefix(
                fs_c,
                es_l,
                j as int,
            ),
        decreases m - j,
    {
        let ghost prev = board_prefix(fs_c, es_l, j as int);
        proof {
            lemma_board_prefix_props(fs_c, es_l, j as int);
            assert(elevator_views(elevators@)[j as int] == prev.1[j as int]);
            assert(elevator_ok(prev.1[j as int], nf as int));
        }
        let cf = elevators[j].current_floor;
        proof {
            assert(floor_ok(prev.0[cf as int], cf as int, nf as int));
        }
        transfer_floor_to_elevator(&mut floors[cf], &mut elevators[j]);
        proof {
            assert(floor_views(floors@) =~= board_step_at(prev.0, prev.1, j as int).0);
            assert(elevator_views(elevators@) =~= board_step_at(prev.0, prev.1, j as int).1);
        }
        j = j + 1;
    }
    let ghost b_f = board_prefix(fs_c, es_l, m as int).0;
    let ghost b_e = board_prefix(fs_c, es_l, m as int).1;

    // everyone still in the simulation has now waited one tick longer
    proof {
        assert forall|k: int| 0 <= k < nf implies (#[trigger] floors@[k])@ == b_f[k] by {
            assert(floor_views(floors@)[k] == floors@[k]@);
        }
        assert forall|k: int| 0 <= k < m implies (#[trigger] elevators@[k])@ == b_e[k] by {
            assert(elevator_views(elevators@)[k] == elevators@[k]@);
        }
    }
    i = 0;
    while i < nf
        invariant
            i <= nf,
            nf == floors@.len(),
            b_f.len() == nf,
            m == elevators@.len(),
            b_e.len() == m,
            forall|k: int| 0 <= k < m ==> (#[trigger] elevators@[k])@ == b_e[k],
            forall|k: int| 0 <= k < i ==> (#[trigger] floors@[k])@ == b_f[k].aged_waiting(),
            forall|k: int| i <= k < nf ==> (#[trigger] floors@[k])@ == b_f[k],
        decreases nf - i,
    {
        let fl = &mut floors[i];
        fl.age_people();
        i = i + 1;
    }
    proof {
        assert(floor_views(floors@) =~= aged_floors(b_f));
    }
    j = 0;
    while j < m
        invariant
            j <= m,
            m == elevators@.len(),
            nf == floors@.len(),
            b_e.len() == m,
            floor_views(floors@) == aged_floors(b_f),
            forall|k: int| 0 <= k < j ==> (#[trigger] elevators@[k])@ == b_e[k].aged_occupants(),
            forall|k: int| j <= k < m ==> (#[trigger] elevators@[k])@ == b_e[k],
        decreases m - j,
    {
        let e = &mut elevators[j];
        e.age_occupants();
        j = j + 1;
    }
    proof {
        assert(elevator_views(elevators@) =~= aged_elevators(b_e));
        assert(b_f.len() == fs_c.len() && b_e.len() == es_l.len()) by {
            lemma_board_prefix_props(fs_c, es_l, m as int);
        }
        lemma_tick_props(fs0, es0, arrivals@);
    }
}

/// The default carrying capacity of a newly built elevator.
pub const DEFAULT_CAPACITY: usize = 10;

/// The building owns its floors and elevators for the simulation's lifetime;
/// both collections are fixed at construction and never grow or shrink.
pub struct Building {
    pub floors: Vec<Floor>,
    pub elevators: Vec<Elevator>,
}

impl Building {
    /// A well-formed building.
    pub open spec fn wf(self) -> bool {
        wf_state(floor_views(self.floors@), elevator_views(self.elevators@))
    }

    /// Fixed-size construction: `floor_count` empty floors numbered from the
    /// ground up, and `elevator_count` empty elevators of the default
    /// capacity resting at the ground floor.
    pub fn new(floor_count: usize, elevator_count: usize) -> (b: Building)
        requires
            floor_count >= 1,
        ensures
            b.wf(),
            b.floors@.len() == floor_count,
            b.elevators@.len() == elevator_count,
            forall|i: int|
                0 <= i < floor_count ==> #[trigger] floor_views(b.floors@)[i] == (FloorV {
                    number: i as usize,
                    waiting: Seq::<Person>::empty(),
                }),
            forall|j: int|
                0 <= j < elevator_count ==> #[trigger] elevator_views(b.elevators@)[j]
                    == (ElevatorV {
                    id: j as usize,
                    current_floor: 0,
                    destination_floor: 0,
                    pending: Seq::<usize>::empty(),
                    capacity: DEFAULT_CAPACITY,
                    occupants: Seq::<Person>::empty(),
                }),
    {
        let mut floors: Vec<Floor> = Vec::new();
        let mut i: usize = 0;
        while i < floor_count
            invariant
                i <= floor_count,
                floors@.len() == i,
                forall|k: int|
                    0 <= k < i ==> #[trigger] floors@[k]@ == (FloorV {
                        number: k as usize,
                        waiting: Seq::<Person>::empty(),
                    }),
            decreases floor_count - i,
        {
            floors.push(Floor::new(i));
            i = i + 1;
        }
        let mut elevators: Vec<Elevator> = Vec::new();
        let mut j: usize = 0;
        while j < elevator_count
            invariant
                j <= elevator_count,
                elevators@.len() == j,
                forall|k: int|
                    0 <= k < j ==> #[trigger] elevators@[k]@ == (ElevatorV {
                        id: k as usize,
                        current_floor: 0,
                        destination_floor: 0,
                        pending: Seq::<usize>::empty(),
                        capacity: DEFAULT_CAPACITY,
                        occupants: Seq::<Person>::empty(),
                    }),
            decreases elevator_count - j,
        {
            elevators.push(Elevator::new(j, 0, DEFAULT_CAPACITY));
            j = j + 1;
        }
        let b = Building { floors, elevators };
        proof {
            assert(b.wf()) by {
                assert(forall|k: int|
                    0 <= k < floor_count ==> crate::floor::floor_ok(
                        #[trigger] floor_views(b.floors@)[k],
                        k,
                        floor_count as int,
                    ));
                assert(forall|k: int|
                    0 <= k < elevator_count ==> elevator_ok(
                        #[trigger] elevator_views(b.elevators@)[k],
                        floor_count as int,
                    ));
            }
        }
        b
    }

    /// Advance the simulation by exactly one discrete step; the given
    /// arrivals join their origin floors first, and every later phase runs
    /// in the fixed order that `tick_spec` lays down.
    pub fn tick(&mut self, arrivals: Vec<Person>)
        requires
            old(self).wf(),
            forall|k: int|
                0 <= k < arrivals@.len() ==> person_ok(
                    #[trigger] arrivals@[k],
                    old(self).floors@.len() as int,
                ),
        ensures
            ({
                let r = tick_spec(
                    floor_views(old(self).floors@),
                    elevator_views(old(self).elevators@),
                    arrivals@,
                );
                &&& floor_views(final(self).floors@) == r.0
                &&& elevator_views(final(self).elevators@) == r.1
                &&& people_total(r.0, r.1) + r.2 == people_total(
                    floor_views(old(self).floors@),
                    elevator_views(old(self).elevators@),
                ) + arrivals@.len()
            }),
            final(self).wf(),
            final(self).floors@.len() == old(self).floors@.len(),
            final(self).elevators@.len() == old(self).elevators@.len(),
    {
        similation_tick(&mut self.elevators, &mut self.floors, arrivals);
    }

    /// How many people are waiting or riding right now.
    pub fn total_people(&self) -> (n: usize)
        requires
            people_total(floor_views(self.floors@), elevator_views(self.elevators@)) <= usize::MAX,
        ensures
            n as int == people_total(floor_views(self.floors@), elevator_views(self.elevators@)),
    {
        let ghost fs = floor_views(self.floors@);
        let ghost es = elevator_views(self.elevators@);
        let mut n: usize = 0;
        let nf = self.floors.len();
        let mut i: usize = 0;
        while i < nf
            invariant
                i <= nf,
                nf == self.floors@.len(),
                fs == floor_views(self.floors@),
                es == elevator_views(self.elevators@),
                people_total(fs, es) <= usize::MAX,
                n as int == floors_people_prefix(fs, i as int),
            decreases nf - i,
        {
            let w = self.floors[i].waiting.len();
            proof {
                lemma_floors_people_prefix_le(fs, i as int + 1, fs.len() as int);
                lemma_elevators_people_prefix_le(es, 0, es.len() as int);
                assert(floors_people_prefix(fs, i as int + 1) == floors_people_prefix(
                    fs,
                    i as int,
                ) + fs[i as int].waiting.len());
            }
            n = n + w;
            i = i + 1;
        }
        let ne = self.elevators.len();
        let mut j: usize = 0;
        while j < ne
            invariant
                j <= ne,
                ne == self.elevators@.len(),
                fs == floor_views(self.floors@),
                es == elevator_views(self.elevators@),
                people_total(fs, es) <= usize::MAX,
                n as int == floors_people(fs) + elevators_people_prefix(es, j as int),
            decreases ne - j,
        {
            let w = self.elevators[j].occupants.len();
            proof {
                lemma_elevators_people_prefix_le(es, j as int + 1, es.len() as int);
                lemma_floors_people_prefix_le(fs, 0, fs.len() as int);
                assert(elevators_people_prefix(es, j as int + 1) == elevators_people_prefix(
                    es,
                    j as int,
                ) + es[j as int].occupants.len());
            }
            n = n + w;
            j = j + 1;
        }
        n
    }
}

} // verus!
