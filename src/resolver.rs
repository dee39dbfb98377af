use vstd::prelude::*;
use crate::schedule::{StopWithDetails, RouteStopsResponse, find_stop, position_of_stop};
use crate::vehicle::BusPosition;
use crate::route_code::{route_key, is_t789_route};

verus! {

/// A nearest stop farther than this many metres does not place the vehicle.
pub const MAX_DERIVED_STOP_DISTANCE_M: u64 = 750;

/// How a vehicle's current stop was found.
#[derive(Clone, Copy, PartialEq, Eq, Debug)]
pub enum StopResolutionSource {
    /// The vehicle reported it.
    Live,
    /// It is the nearest stop of the route.
    Derived,
}

/// The stop a vehicle is taken to be at on one route.
pub struct ResolvedCurrentStop {
    pub stop_id: String,
    pub stop_name: String,
    pub sequence: u32,
    pub source: StopResolutionSource,
}

/// The non-empty stop id a vehicle reported, if any.
pub open spec fn reported_stop(bus: BusPosition) -> Option<Seq<char>> {
    match bus.busstop_id {
        Some(id) => if id@.len() > 0 { Some(id@) } else { None },
        None => None,
    }
}

/// Index of the first smallest of `d[0..n]`.
pub open spec fn first_min(d: Seq<u64>, n: int) -> int
    decreases n,
{
    if n <= 1 {
        0
    } else if d[n - 1] < d[first_min(d, n - 1)] {
        n - 1
    } else {
        first_min(d, n - 1)
    }
}

pub proof fn lemma_first_min(d: Seq<u64>, n: int)
    requires
        1 <= n <= d.len(),
    ensures
        0 <= first_min(d, n) < n,
        forall|j: int| 0 <= j < n ==> d[first_min(d, n)] <= #[trigger] d[j],
        forall|j: int| 0 <= j < first_min(d, n) ==> d[first_min(d, n)] < #[trigger] d[j],
    decreases n,
{
    if n > 1 {
        lemma_first_min(d, n - 1);
    }
}

pub open spec fn resolved_as(s: StopWithDetails, source: StopResolutionSource) -> ResolvedCurrentStop {
    ResolvedCurrentStop {
        stop_id: s.stop_id,
        stop_name: s.stop_name,
        sequence: s.sequence,
        source,
    }
}

/// The stop a vehicle is placed at: the stop it reported if that is on the
/// route, else the first nearest stop if it is within the derived-stop
/// radius, else none. `d[i]` is the distance in metres from the vehicle to
/// the route's `i`-th stop.
pub open spec fn resolve(bus: BusPosition, stops: Seq<StopWithDetails>, d: Seq<u64>) -> Option<
    ResolvedCurrentStop,
> {
    let live = match reported_stop(bus) {
        Some(id) => find_stop(stops, id, 0),
        None => stops.len() as int,
    };
    if live < stops.len() {
        Some(resolved_as(stops[live], StopResolutionSource::Live))
    } else if stops.len() == 0 {
        None
    } else if d[first_min(d, stops.len() as int)] <= MAX_DERIVED_STOP_DISTANCE_M {
        Some(resolved_as(stops[first_min(d, stops.len() as int)], StopResolutionSource::Derived))
    } else {
        None
    }
}

/// Places a vehicle on a route's stop sequence. `stop_distances_m[i]` is
/// the great-circle distance in metres from the vehicle to the `i`-th stop.
pub fn resolve_current_stop(
    bus: &BusPosition,
    route_stops: &RouteStopsResponse,
    stop_distances_m: &Vec<u64>,
) -> (r: Option<ResolvedCurrentStop>)
    requires
        stop_distances_m@.len() == route_stops.stops@.len(),
    ensures
        r == resolve(*bus, route_stops.stops@, stop_distances_m@),
{
    let stops = &route_stops.stops;
    if let Some(id) = &bus.busstop_id {
        if id.as_str().unicode_len() > 0 {
            if let Some(k) = position_of_stop(stops, id.as_str()) {
                return Some(
                    ResolvedCurrentStop {
                        stop_id: stops[k].stop_id.clone(),
                        stop_name: stops[k].stop_name.clone(),
                        sequence: stops[k].sequence,
                        source: StopResolutionSource::Live,
                    },
                );
            }
        }
    }
    let n = stops.len();
    if n == 0 {
        return None;
    }
    let mut best: usize = 0;
    let mut i: usize = 1;
    while i < n
        invariant
            1 <= i <= n,
            n == stops@.len() == stop_distances_m@.len(),
            best == first_min(stop_distances_m@, i as int),
        decreases n - i,
    {
        proof {
            lemma_first_min(stop_distances_m@, i as int);
        }
        if stop_distances_m[i] < stop_distances_m[best] {
            best = i;
        }
        i = i + 1;
    }
    proof {
        lemma_first_min(stop_distances_m@, n as int);
    }
    if stop_distances_m[best] <= MAX_DERIVED_STOP_DISTANCE_M {
        Some(
            ResolvedCurrentStop {
                stop_id: stops[best].stop_id.clone(),
                stop_name: stops[best].stop_name.clone(),
                sequence: stops[best].sequence,
                source: StopResolutionSource::Derived,
            },
        )
    } else {
        None
    }
}

/// A vehicle of route T789 with the stop it is placed at, if any.
pub struct RouteBusPosition {
    pub bus: BusPosition,
    pub resolved: Option<ResolvedCurrentStop>,
}

/// The T789 vehicles among the first `n` of `buses`, in order, each placed
/// on the route; `dists[b]` holds vehicle `b`'s distances to the stops.
pub open spec fn t789_positions(
    buses: Seq<BusPosition>,
    stops: Seq<StopWithDetails>,
    dists: Seq<Vec<u64>>,
    n: int,
) -> Seq<RouteBusPosition>
    decreases n,
{
    if n <= 0 {
        Seq::empty()
    } else {
        let p = t789_positions(buses, stops, dists, n - 1);
        if route_key(buses[n - 1].route@) == "T789"@ {
            p.push(
                RouteBusPosition {
                    bus: buses[n - 1],
                    resolved: resolve(buses[n - 1], stops, dists[n - 1]@),
                },
            )
        } else {
            p
        }
    }
}

/// The vehicles of route T789, each with its resolved current stop on the
/// route's stop sequence.
pub fn get_route_t789(
    buses: &Vec<BusPosition>,
    route_stops: &RouteStopsResponse,
    bus_stop_distances_m: &Vec<Vec<u64>>,
) -> (r: Vec<RouteBusPosition>)
    requires
        bus_stop_distances_m@.len() == buses@.len(),
        forall|b: int|
            0 <= b < bus_stop_distances_m@.len() ==> (#[trigger] bus_stop_distances_m@[b])@.len()
                == route_stops.stops@.len(),
    ensures
        r@ == t789_positions(
            buses@,
            route_stops.stops@,
            bus_stop_distances_m@,
            buses@.len() as int,
        ),
{
    let mut out: Vec<RouteBusPosition> = Vec::new();
    let mut b: usize = 0;
    while b < buses.len()
        invariant
            b <= buses@.len(),
            bus_stop_distances_m@.len() == buses@.len(),
            forall|j: int|
                0 <= j < bus_stop_distances_m@.len() ==> (#[trigger] bus_stop_distances_m@[j])@.len()
                    == route_stops.stops@.len(),
            out@ == t789_positions(buses@, route_stops.stops@, bus_stop_distances_m@, b as int),
        decreases buses@.len() - b,
    {
        let bus = &buses[b];
        if is_t789_route(bus.route.as_str()) {
            let resolved = resolve_current_stop(bus, route_stops, &bus_stop_distances_m[b]);
            out.push(RouteBusPosition { bus: bus.clone(), resolved });
        }
        b = b + 1;
    }
    out
}

} // verus!
