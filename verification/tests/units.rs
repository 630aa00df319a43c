//! Unit tests for the individual pieces: directions, elevator movement and
//! commitment, transfers, and the dispatcher.

use elevators::Direction;
use elevators::Elevator;
use elevators::Floor;
use elevators::Person;
use elevators::call_elevators;
use elevators::get_people_waiting;
use elevators::path_direction;
use elevators::same_direction;
use elevators::transfer_elevator_to_floor;
use elevators::transfer_floor_to_elevator;

fn person(origin: usize, destination: usize) -> Person {
    Person { origin, destination, wait_time: 0 }
}

fn elevator_at(current: usize, destination: usize, capacity: usize) -> Elevator {
    Elevator {
        id: 0,
        current_floor: current,
        destination_floor: destination,
        pending_destinations: Vec::new(),
        capacity,
        occupants: Vec::new(),
    }
}

#[test]
fn path_direction_compares_floors() {
    assert_eq!(path_direction((0, 5)), Direction::Up);
    assert_eq!(path_direction((5, 0)), Direction::Down);
    assert_eq!(path_direction((3, 3)), Direction::Still);
}

#[test]
fn person_direction_compares_origin_and_destination() {
    assert_eq!(person(1, 4).going_in_direction(), Direction::Up);
    assert_eq!(person(4, 1).going_in_direction(), Direction::Down);
    assert_eq!(person(2, 2).going_in_direction(), Direction::Still);
}

#[test]
fn elevator_direction_and_capacity() {
    assert_eq!(elevator_at(1, 4, 2).going_in_direction(), Direction::Up);
    assert_eq!(elevator_at(4, 1, 2).going_in_direction(), Direction::Down);
    assert_eq!(elevator_at(3, 3, 2).going_in_direction(), Direction::Still);

    let mut e = elevator_at(0, 0, 1);
    assert!(e.has_capacity());
    e.occupants.push(person(0, 1));
    assert!(!e.has_capacity());
}

#[test]
fn same_direction_matches_elevator_and_person() {
    let up = elevator_at(1, 4, 2);
    assert!(same_direction(&up, &person(1, 3)));
    assert!(!same_direction(&up, &person(3, 1)));
    let still = elevator_at(2, 2, 2);
    assert!(!same_direction(&still, &person(2, 4)));
    assert!(same_direction(&still, &person(2, 2)));
}

#[test]
fn set_destionation_only_while_still() {
    let mut still = elevator_at(2, 2, 2);
    still.set_destionation(5);
    assert_eq!(still.destination_floor, 5);

    let mut moving = elevator_at(1, 3, 2);
    moving.set_destionation(0);
    assert_eq!(moving.destination_floor, 3);
}

#[test]
fn extend_destination_only_farther_along_the_direction() {
    let mut up = elevator_at(1, 3, 2);
    up.extend_destination(2);
    assert_eq!(up.destination_floor, 3);
    up.extend_destination(5);
    assert_eq!(up.destination_floor, 5);

    let mut down = elevator_at(5, 3, 2);
    down.extend_destination(4);
    assert_eq!(down.destination_floor, 3);
    down.extend_destination(1);
    assert_eq!(down.destination_floor, 1);
}

#[test]
fn elevator_tick_moves_one_floor() {
    let mut up = elevator_at(1, 3, 2);
    up.tick();
    assert_eq!(up.current_floor, 2);
    up.tick();
    assert_eq!(up.current_floor, 3);
    up.tick();
    assert_eq!(up.current_floor, 3);

    let mut down = elevator_at(3, 1, 2);
    down.tick();
    assert_eq!(down.current_floor, 2);
}

#[test]
fn elevator_commits_to_pending_destination_on_arrival() {
    // A resting elevator with a queued destination commits to it at once.
    let mut resting = elevator_at(2, 2, 2);
    resting.queue_destination(5);
    assert_eq!(resting.pending_destinations, vec![5]);
    resting.tick();
    assert_eq!(resting.current_floor, 2);
    assert_eq!(resting.destination_floor, 5);
    assert_eq!(resting.pending_destinations.len(), 0);

    // An arriving elevator pops the queue in the same tick, spending no
    // idle tick between consecutive trips.
    let mut arriving = elevator_at(1, 2, 2);
    arriving.queue_destination(0);
    arriving.tick();
    assert_eq!(arriving.current_floor, 2);
    assert_eq!(arriving.destination_floor, 0);
    assert_eq!(arriving.pending_destinations.len(), 0);
}

#[test]
fn boarding_commits_or_extends_the_destination() {
    let mut still = elevator_at(3, 3, 4);
    still.add_person_to_elevator(person(3, 1));
    assert_eq!(still.destination_floor, 1);
    assert_eq!(still.occupants.len(), 1);

    let mut up = elevator_at(1, 3, 4);
    up.add_person_to_elevator(person(1, 5));
    assert_eq!(up.destination_floor, 5);
    up.add_person_to_elevator(person(1, 2));
    assert_eq!(up.destination_floor, 5);
    assert_eq!(up.occupants.len(), 2);
}

#[test]
fn get_people_waiting_lists_calls_in_floor_order() {
    let mut floors = Vec::new();
    for i in 0..4 {
        floors.push(Floor::new(i));
    }
    floors[2].waiting.push(person(2, 0));
    floors[2].waiting.push(person(2, 2));  // already at destination: no call
    floors[3].waiting.push(person(3, 1));
    floors[0].waiting.push(person(0, 3));
    let paths = get_people_waiting(&floors);
    assert_eq!(paths, vec![(0, 3), (2, 0), (3, 1)]);
}

#[test]
fn dispatcher_sends_still_elevator_to_the_calls_origin() {
    let mut elevators = vec![elevator_at(0, 0, 2)];
    call_elevators(&mut elevators, vec![(3, 1)]);
    assert_eq!(elevators[0].destination_floor, 3);
    assert_eq!(elevators[0].current_floor, 0);
}

#[test]
fn dispatcher_first_elevator_wins() {
    let mut elevators = vec![elevator_at(0, 0, 2), elevator_at(1, 1, 2)];
    call_elevators(&mut elevators, vec![(4, 0)]);
    assert_eq!(elevators[0].destination_floor, 4);
    assert_eq!(elevators[1].destination_floor, 1);
}

#[test]
fn dispatcher_extends_an_elevator_en_route() {
    // An upward call from a floor ahead, reaching past the committed
    // destination, extends the trip instead of queuing a second one.
    let mut elevators = vec![elevator_at(1, 3, 2)];
    call_elevators(&mut elevators, vec![(2, 5)]);
    assert_eq!(elevators[0].destination_floor, 5);

    // A call from behind the elevator does not retarget it.
    let mut behind = vec![elevator_at(3, 5, 2)];
    call_elevators(&mut behind, vec![(1, 4)]);
    assert_eq!(behind[0].destination_floor, 5);

    // A downward call never retargets an upward elevator.
    let mut opposite = vec![elevator_at(1, 3, 2)];
    call_elevators(&mut opposite, vec![(4, 0)]);
    assert_eq!(opposite[0].destination_floor, 3);
}

#[test]
fn alighting_delivers_exactly_the_arrivals() {
    let floor = Floor::new(2);
    let mut e = elevator_at(2, 2, 4);
    e.occupants.push(person(0, 2));
    e.occupants.push(person(0, 3));
    e.occupants.push(person(1, 2));
    let delivered = transfer_elevator_to_floor(&floor, &mut e);
    assert_eq!(delivered, 2);
    assert_eq!(e.occupants.len(), 1);
    assert_eq!(e.occupants[0].destination, 3);
}

#[test]
fn boarding_skips_a_direction_mismatch_but_keeps_scanning() {
    // The person going the wrong way stays; the matching person behind them
    // still boards, so nobody is starved by queue position alone.
    let mut floor = Floor::new(2);
    floor.waiting.push(person(2, 0));
    floor.waiting.push(person(2, 4));
    let mut e = elevator_at(2, 5, 4);
    transfer_floor_to_elevator(&mut floor, &mut e);
    assert_eq!(e.occupants.len(), 1);
    assert_eq!(e.occupants[0].destination, 4);
    assert_eq!(floor.waiting.len(), 1);
    assert_eq!(floor.waiting[0].destination, 0);
}

#[test]
fn boarding_stops_the_line_when_the_elevator_fills() {
    let mut floor = Floor::new(2);
    floor.waiting.push(person(2, 3));
    floor.waiting.push(person(2, 0));
    floor.waiting.push(person(2, 4));
    let mut e = elevator_at(2, 2, 1);
    transfer_floor_to_elevator(&mut floor, &mut e);
    // The first person boards and fills the elevator; everyone after stays,
    // in order.
    assert_eq!(e.occupants.len(), 1);
    assert_eq!(e.occupants[0].destination, 3);
    assert_eq!(e.destination_floor, 3);
    assert_eq!(floor.waiting.len(), 2);
    assert_eq!(floor.waiting[0].destination, 0);
    assert_eq!(floor.waiting[1].destination, 4);
}

#[test]
fn remove_arrived_clears_only_the_degenerate_trips() {
    let mut floor = Floor::new(1);
    floor.waiting.push(person(1, 1));
    floor.waiting.push(person(1, 3));
    floor.waiting.push(person(1, 1));
    let delivered = floor.remove_arrived();
    assert_eq!(delivered, 2);
    assert_eq!(floor.waiting.len(), 1);
    assert_eq!(floor.waiting[0].destination, 3);
}

#[test]
fn aging_advances_every_wait_time() {
    let mut floor = Floor::new(0);
    floor.waiting.push(person(0, 1));
    floor.waiting.push(Person { origin: 0, destination: 2, wait_time: 7 });
    floor.age_people();
    assert_eq!(floor.waiting[0].wait_time, 1);
    assert_eq!(floor.waiting[1].wait_time, 8);

    let p = person(0, 1);
    let q = p.after_tick();
    assert_eq!(q.wait_time, 1);
    assert_eq!(q.origin, 0);
    assert_eq!(q.destination, 1);

    let saturated = Person { origin: 0, destination: 1, wait_time: u64::MAX };
    assert_eq!(saturated.after_tick().wait_time, u64::MAX);
}

#[test]
fn floor_new_is_empty() {
    let f = Floor::new(7);
    assert_eq!(f.number, 7);
    assert_eq!(f.waiting.len(), 0);
}

#[test]
fn elevator_new_rests_where_built() {
    let e = Elevator::new(2, 1, 4);
    assert_eq!(e.id, 2);
    assert_eq!(e.current_floor, 1);
    assert_eq!(e.destination_floor, 1);
    assert_eq!(e.capacity, 4);
    assert_eq!(e.occupants.len(), 0);
    assert_eq!(e.going_in_direction(), Direction::Still);
}
