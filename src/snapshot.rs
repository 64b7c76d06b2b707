//! Vehicle snapshots built from the entities of the position feed.

use vstd::prelude::*;

verus! {

/// Vehicle data of one feed entity; the position may be missing.
pub struct FeedVehicle<P> {
    pub position: Option<P>,
}

/// One entity of the position feed, as the feed gateway hands it over.
pub struct FeedEntity<P> {
    pub id: String,
    pub vehicle: Option<FeedVehicle<P>>,
}

/// One vehicle of a snapshot with its position.
pub struct Vehicle<P> {
    pub id: String,
    pub position: P,
}

/// The vehicle positions of one poll tick, stamped with the tick's time.
pub struct VehicleSnapshot<P> {
    /// Unix seconds at which the tick fired.
    pub timestamp: u64,
    pub vehicles: Vec<Vehicle<P>>,
}

/// The vehicle an entity contributes to a snapshot: none when it has no
/// vehicle data or no position.
pub open spec fn vehicle_of<P>(e: FeedEntity<P>) -> Option<Vehicle<P>> {
    match e.vehicle {
        Some(v) => match v.position {
            Some(p) => Some(Vehicle { id: e.id, position: p }),
            None => None,
        },
        None => None,
    }
}

/// The vehicles of `entities`, in feed order, leaving out those without a
/// position.
pub open spec fn vehicles_of<P>(entities: Seq<FeedEntity<P>>) -> Seq<Vehicle<P>>
    decreases entities.len(),
{
    if entities.len() == 0 {
        Seq::empty()
    } else {
        let rest = vehicles_of(entities.drop_last());
        match vehicle_of(entities.last()) {
            Some(v) => rest.push(v),
            None => rest,
        }
    }
}

/// Builds the snapshot of a tick at `timestamp` from the fetched `entities`.
pub fn build_snapshot<P>(timestamp: u64, entities: Vec<FeedEntity<P>>) -> (r: VehicleSnapshot<P>)
    ensures
        r.timestamp == timestamp,
        r.vehicles@ == vehicles_of(entities@),
{
    let ghost all = entities@;
    let n: usize = entities.len();
    let mut rest = entities;
    let mut vehicles: Vec<Vehicle<P>> = Vec::new();
    let mut k: usize = 0;
    while rest.len() > 0
        invariant
            k <= all.len(),
            all.len() == n,
            rest@ == all.subrange(k as int, all.len() as int),
            vehicles@ == vehicles_of(all.subrange(0, k as int)),
        decreases rest@.len(),
    {
        assert(rest@.len() == all.len() - k);
        let e = rest.remove(0);
        proof {
            let next = all.subrange(0, k as int + 1);
            assert(next.drop_last() =~= all.subrange(0, k as int));
            assert(next.last() == e);
        }
        match e.vehicle {
            Some(v) => match v.position {
                Some(p) => vehicles.push(Vehicle { id: e.id, position: p }),
                None => {},
            },
            None => {},
        }
        k = k + 1;
        assert(rest@ =~= all.subrange(k as int, all.len() as int));
    }
    assert(all.subrange(0, k as int) =~= all);
    VehicleSnapshot { timestamp, vehicles }
}

} // verus!
