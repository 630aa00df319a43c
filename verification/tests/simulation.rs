//! Building-level scenarios: a full tick drives arrivals, dispatch,
//! movement, alighting and boarding in a fixed order.

use elevators::Building;
use elevators::Elevator;
use elevators::Floor;
use elevators::Person;

fn empty_floors(n: usize) -> Vec<Floor> {
    let mut floors = Vec::new();
    for i in 0..n {
        floors.push(Floor::new(i));
    }
    floors
}

fn person(origin: usize, destination: usize) -> Person {
    Person { origin, destination, wait_time: 0 }
}

#[test]
fn scenario_still_elevator_fetches_caller() {
    // One person waits on floor 3, bound for floor 1; a still elevator of
    // capacity 4 rests at floor 1.
    let mut floors = empty_floors(5);
    floors[3].waiting.push(person(3, 1));
    let elevator = Elevator::new(0, 1, 4);
    let mut b = Building { floors, elevators: vec![elevator] };

    // First tick: the dispatcher sends the elevator to floor 3, and the
    // movement phase of the same tick already takes it one floor up.
    b.tick(Vec::new());
    assert_eq!(b.elevators[0].destination_floor, 3);
    assert_eq!(b.elevators[0].current_floor, 2);
    assert_eq!(b.floors[3].waiting.len(), 1);

    // Second tick: the elevator reaches floor 3 and the person boards,
    // committing the elevator to floor 1.
    b.tick(Vec::new());
    assert_eq!(b.elevators[0].current_floor, 3);
    assert_eq!(b.floors[3].waiting.len(), 0);
    assert_eq!(b.elevators[0].occupants.len(), 1);
    assert_eq!(b.elevators[0].occupants[0].origin, 3);
    assert_eq!(b.elevators[0].destination_floor, 1);

    // Two more ticks carry the person down to floor 1, where they alight
    // and leave the simulation.
    b.tick(Vec::new());
    assert_eq!(b.elevators[0].current_floor, 2);
    b.tick(Vec::new());
    assert_eq!(b.elevators[0].current_floor, 1);
    assert_eq!(b.elevators[0].occupants.len(), 0);
    assert_eq!(b.total_people(), 0);
}

#[test]
fn scenario_full_elevator_rejects_boarding() {
    // An elevator of capacity 1 already carries one occupant and arrives at
    // the floor of a person going the same way: the board phase leaves the
    // person on the floor, and their wait time keeps growing.
    let mut floors = empty_floors(6);
    floors[2].waiting.push(person(2, 4));
    let rider = person(1, 4);
    let elevator = Elevator {
        id: 0,
        current_floor: 1,
        destination_floor: 4,
        pending_destinations: Vec::new(),
        capacity: 1,
        occupants: vec![rider],
    };
    let mut b = Building { floors, elevators: vec![elevator] };

    b.tick(Vec::new());
    // The elevator moved to floor 2 but is full: the person stays waiting.
    assert_eq!(b.elevators[0].current_floor, 2);
    assert_eq!(b.elevators[0].occupants.len(), 1);
    assert_eq!(b.floors[2].waiting.len(), 1);
    assert_eq!(b.floors[2].waiting[0].wait_time, 1);

    b.tick(Vec::new());
    // Still waiting the next tick, one tick older.
    assert_eq!(b.floors[2].waiting.len(), 1);
    assert_eq!(b.floors[2].waiting[0].wait_time, 2);
}

#[test]
fn scenario_degenerate_trip_is_delivered_in_place() {
    // A person whose origin equals their destination raises no call and is
    // delivered in place; no elevator ever moves for them.
    let mut floors = empty_floors(3);
    floors[2].waiting.push(person(2, 2));
    let elevator = Elevator::new(0, 0, 4);
    let mut b = Building { floors, elevators: vec![elevator] };

    b.tick(Vec::new());
    assert_eq!(b.floors[2].waiting.len(), 0);
    assert_eq!(b.total_people(), 0);
    assert_eq!(b.elevators[0].current_floor, 0);
    assert_eq!(b.elevators[0].destination_floor, 0);

    // Nothing keeps happening afterwards: no dispatch loop results.
    for _ in 0..3 {
        b.tick(Vec::new());
        assert_eq!(b.elevators[0].current_floor, 0);
        assert_eq!(b.elevators[0].destination_floor, 0);
        assert_eq!(b.total_people(), 0);
    }
}

#[test]
fn conservation_over_a_run() {
    // People are only created by arrivals and only removed by delivery: the
    // running total matches the ledger at every tick.
    let mut b = Building::new(4, 1);
    assert_eq!(b.total_people(), 0);

    b.tick(vec![person(0, 2)]);
    // The arrival is still in the simulation: they boarded the still
    // elevator resting at their floor.
    assert_eq!(b.total_people(), 1);
    assert_eq!(b.elevators[0].occupants.len(), 1);
    assert_eq!(b.elevators[0].destination_floor, 2);

    b.tick(vec![person(1, 3)]);
    // En-route extension picks the second caller up on the way: the trip
    // stretches from floor 2 to floor 3, and both now ride.
    assert_eq!(b.total_people(), 2);
    assert_eq!(b.elevators[0].occupants.len(), 2);
    assert_eq!(b.elevators[0].destination_floor, 3);
    assert_eq!(b.elevators[0].current_floor, 1);

    b.tick(Vec::new());
    // At floor 2 the first passenger alights: one delivery.
    assert_eq!(b.elevators[0].current_floor, 2);
    assert_eq!(b.total_people(), 1);

    b.tick(Vec::new());
    // At floor 3 the second passenger alights: all delivered.
    assert_eq!(b.elevators[0].current_floor, 3);
    assert_eq!(b.total_people(), 0);
}

#[test]
fn wait_time_grows_while_unserved() {
    // With no elevator to serve them, a waiting person's wait time strictly
    // increases every tick.
    let mut b = Building { floors: empty_floors(2), elevators: Vec::new() };
    b.tick(vec![person(0, 1)]);
    assert_eq!(b.floors[0].waiting[0].wait_time, 1);
    b.tick(Vec::new());
    assert_eq!(b.floors[0].waiting[0].wait_time, 2);
    b.tick(Vec::new());
    assert_eq!(b.floors[0].waiting[0].wait_time, 3);
}

#[test]
fn building_new_is_empty_and_fixed_size() {
    let b = Building::new(10, 3);
    assert_eq!(b.floors.len(), 10);
    assert_eq!(b.elevators.len(), 3);
    assert_eq!(b.total_people(), 0);
    for (i, f) in b.floors.iter().enumerate() {
        assert_eq!(f.number, i);
        assert_eq!(f.waiting.len(), 0);
    }
    for (j, e) in b.elevators.iter().enumerate() {
        assert_eq!(e.id, j);
        assert_eq!(e.current_floor, 0);
        assert_eq!(e.destination_floor, 0);
        assert_eq!(e.capacity, 10);
        assert_eq!(e.occupants.len(), 0);
        assert_eq!(e.pending_destinations.len(), 0);
    }
}

#[test]
fn random_arrivals_stay_inside_the_building() {
    // The generated passengers always travel between floors of the
    // building, whatever the draws.
    for _ in 0..100 {
        let p = Person::new_random_person(true, 10);
        assert!(p.origin < 10);
        assert!(p.destination < 10);
        assert_eq!(p.wait_time, 0);
        let q = Person::new_random_person(false, 10);
        assert!(q.origin < 10);
        assert!(q.destination < 10);
    }
}

#[test]
fn random_arrivals_drive_a_full_simulation() {
    // Fifty ticks of randomized arrivals, as the surrounding program runs
    // them: the capacity invariant holds at every step.
    let mut b = Building::new(10, 3);
    for _ in 0..50 {
        let mut arrivals = Vec::new();
        for _ in 0..2 {
            arrivals.push(Person::new_random_person(true, 10));
        }
        b.tick(arrivals);
        for e in b.elevators.iter() {
            assert!(e.occupants.len() <= e.capacity);
            assert!(e.current_floor < 10);
        }
    }
}
