//! Counting people across the building, for the conservation argument: a
//! tick neither creates nor loses anyone except through arrivals and
//! deliveries.

use vstd::prelude::*;

use crate::elevator::ElevatorV;
use crate::floor::FloorV;

verus! {

/// How many people wait on the first `n` floors.
pub open spec fn floors_people_prefix(fs: Seq<FloorV>, n: int) -> int
    decreases n,
{
    if n <= 0 || n > fs.len() {
        0
    } else {
        floors_people_prefix(fs, n - 1) + fs[n - 1].waiting.len()
    }
}

/// How many people wait on all floors together.
pub open spec fn floors_people(fs: Seq<FloorV>) -> int {
    floors_people_prefix(fs, fs.len() as int)
}

/// How many people ride in the first `n` elevators.
pub open spec fn elevators_people_prefix(es: Seq<ElevatorV>, n: int) -> int
    decreases n,
{
    if n <= 0 || n > es.len() {
        0
    } else {
        elevators_people_prefix(es, n - 1) + es[n - 1].occupants.len()
    }
}

/// How many people ride in all elevators together.
pub open spec fn elevators_people(es: Seq<ElevatorV>) -> int {
    elevators_people_prefix(es, es.len() as int)
}

/// Everyone still in the simulation: waiting on a floor or riding.
pub open spec fn people_total(fs: Seq<FloorV>, es: Seq<ElevatorV>) -> int {
    floors_people(fs) + elevators_people(es)
}

/// Two floor collections with pointwise equal waiting-line lengths hold the
/// same number of people.
pub proof fn lemma_floors_people_pointwise(a: Seq<FloorV>, b: Seq<FloorV>, n: int)
    requires
        a.len() == b.len(),
        forall|k: int| 0 <= k < n ==> (#[trigger] a[k]).waiting.len() == b[k].waiting.len(),
    ensures
        floors_people_prefix(a, n) == floors_people_prefix(b, n),
    decreases n,
{
    if n > 0 {
        lemma_floors_people_pointwise(a, b, n - 1);
    }
}

pub proof fn lemma_elevators_people_pointwise(a: Seq<ElevatorV>, b: Seq<ElevatorV>, n: int)
    requires
        a.len() == b.len(),
        forall|k: int| 0 <= k < n ==> (#[trigger] a[k]).occupants.len() == b[k].occupants.len(),
    ensures
        elevators_people_prefix(a, n) == elevators_people_prefix(b, n),
    decreases n,
{
    if n > 0 {
        lemma_elevators_people_pointwise(a, b, n - 1);
    }
}

/// Replacing floor `i` changes the count by exactly the difference of the
/// two waiting lines.
pub proof fn lemma_floors_people_update(fs: Seq<FloorV>, i: int, f: FloorV, n: int)
    requires
        0 <= i < fs.len(),
        n <= fs.len(),
    ensures
        i < n ==> floors_people_prefix(fs.update(i, f), n) + fs[i].waiting.len()
            == floors_people_prefix(fs, n) + f.waiting.len(),
        i >= n ==> floors_people_prefix(fs.update(i, f), n) == floors_people_prefix(fs, n),
    decreases n,
{
    if n > 0 {
        lemma_floors_people_update(fs, i, f, n - 1);
    }
}

pub proof fn lemma_elevators_people_update(es: Seq<ElevatorV>, i: int, e: ElevatorV, n: int)
    requires
        0 <= i < es.len(),
        n <= es.len(),
    ensures
        i < n ==> elevators_people_prefix(es.update(i, e), n) + es[i].occupants.len()
            == elevators_people_prefix(es, n) + e.occupants.len(),
        i >= n ==> elevators_people_prefix(es.update(i, e), n) == elevators_people_prefix(es, n),
    decreases n,
{
    if n > 0 {
        lemma_elevators_people_update(es, i, e, n - 1);
    }
}

/// A prefix never counts more people than the whole.
pub proof fn lemma_floors_people_prefix_le(fs: Seq<FloorV>, n: int, m: int)
    requires
        0 <= n <= m <= fs.len(),
    ensures
        floors_people_prefix(fs, n) <= floors_people_prefix(fs, m),
        0 <= floors_people_prefix(fs, n),
    decreases m,
{
    if m > 0 {
        if n == m {
            lemma_floors_people_prefix_le(fs, if n > 0 { n - 1 } else { 0 }, if m > 0 { m - 1 } else { 0 });
        } else {
            lemma_floors_people_prefix_le(fs, n, m - 1);
        }
    }
}

pub proof fn lemma_elevators_people_prefix_le(es: Seq<ElevatorV>, n: int, m: int)
    requires
        0 <= n <= m <= es.len(),
    ensures
        elevators_people_prefix(es, n) <= elevators_people_prefix(es, m),
        0 <= elevators_people_prefix(es, n),
    decreases m,
{
    if m > 0 {
        if n == m {
            lemma_elevators_people_prefix_le(es, if n > 0 { n - 1 } else { 0 }, if m > 0 { m - 1 } else { 0 });
        } else {
            lemma_elevators_people_prefix_le(es, n, m - 1);
        }
    }
}

} // verus!
