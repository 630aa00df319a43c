//! A discrete-event elevator simulation core: floors hold waiting passengers,
//! capacity-bounded elevators commit to a travel direction, and a dispatcher
//! assigns floor calls. The building advances one tick at a time in a fixed
//! phase order: arrivals, dispatch, movement, alighting, boarding.

pub mod arrivals;
pub mod building;
pub mod count;
pub mod dispatch;
pub mod elevator;
pub mod floor;
pub mod person;
pub mod transfer;

pub use building::Building;
pub use building::similation_tick;
pub use dispatch::call_elevators;
pub use dispatch::get_people_waiting;
pub use dispatch::path_direction;
pub use dispatch::same_direction;
pub use elevator::Elevator;
pub use elevator::ElevatorV;
pub use floor::Floor;
pub use floor::FloorV;
pub use person::Direction;
pub use person::Person;
pub use transfer::transfer_elevator_to_floor;
pub use transfer::transfer_floor_to_elevator;
