use vstd::prelude::*;
use crate::route_code::{same_route, is_bus_on_route};
use crate::schedule::{StopWithDetails, RouteStopsResponse, find_stop, position_of_stop};
use crate::resolver::{StopResolutionSource, resolve, resolve_current_stop};
use crate::vehicle::BusPosition;

verus! {

/// Speed assumed, in metres per hour, when a vehicle reports none (20 km/h).
pub const DEFAULT_SPEED_MPH: i64 = 20000;

/// No great-circle distance on Earth exceeds this many metres.
pub const MAX_GREAT_CIRCLE_M: u64 = 20016000;

/// Estimated arrival of one vehicle at a target stop.
///
/// `distance_km_e2` is the path length in hundredths of a kilometre and
/// `eta_minutes_e1` the arrival time in tenths of a minute, both rounded
/// half up.
pub struct BusEta {
    pub route_id: String,
    pub bus_no: String,
    pub current_lat_e6: i64,
    pub current_lon_e6: i64,
    pub current_stop_id: String,
    pub current_stop_name: String,
    pub current_sequence: u32,
    pub stop_resolution_source: StopResolutionSource,
    pub stops_away: u32,
    pub distance_m: u128,
    pub distance_km_e2: u128,
    pub speed_mph: i64,
    pub eta_minutes_e1: u128,
}

/// Why no estimate could be made for a route.
#[derive(Clone, Copy, PartialEq, Eq, Debug)]
pub enum EtaError {
    /// The target stop is not in the route's stop sequence.
    TargetStopNotOnRoute,
}

/// Length in metres of the chain that starts at the vehicle, runs to the
/// first stop with `cur < sequence <= tgt` and from there from stop to stop
/// through every such stop (from position `i` on; `started` once the vehicle
/// leg is behind). `to_stop[k]` is the distance from the vehicle to stop `k`,
/// `legs[k]` the distance from stop `k - 1` to stop `k`.
pub open spec fn path_m(
    stops: Seq<StopWithDetails>,
    legs: Seq<u64>,
    to_stop: Seq<u64>,
    cur: u32,
    tgt: u32,
    i: int,
    started: bool,
) -> nat
    decreases stops.len() - i,
{
    if i < 0 || i >= stops.len() {
        0
    } else if cur < stops[i].sequence && stops[i].sequence <= tgt {
        (if started {
            legs[i]
        } else {
            to_stop[i]
        }) as nat + path_m(stops, legs, to_stop, cur, tgt, i + 1, true)
    } else {
        path_m(stops, legs, to_stop, cur, tgt, i + 1, started)
    }
}

/// The speed an estimate uses: the reported one when positive, else the default.
pub open spec fn speed_for(bus: BusPosition) -> int {
    if bus.speed_mph > 0 {
        bus.speed_mph as int
    } else {
        DEFAULT_SPEED_MPH as int
    }
}

/// Tenths of a minute needed for `m` metres at `v` metres per hour, rounded
/// half up: `600 m / v`.
pub open spec fn eta_tenths(m: int, v: int) -> int {
    (1200 * m + v) / (2 * v)
}

/// Hundredths of a kilometre in `m` metres, rounded half up.
pub open spec fn km_hundredths(m: int) -> int {
    (m + 5) / 10
}

/// The estimate for one vehicle on a route towards the stop with sequence
/// number `tgt`, if it is on the route, can be placed on it, and has not yet
/// reached the target.
pub open spec fn eta_record(
    bus: BusPosition,
    route: RouteStopsResponse,
    legs: Seq<u64>,
    to_stop: Seq<u64>,
    tgt: u32,
) -> Option<BusEta> {
    if !same_route(bus.route@, route.route_id@) {
        None
    } else {
        match resolve(bus, route.stops@, to_stop) {
            None => None,
            Some(rs) => if rs.sequence >= tgt {
                None
            } else {
                let m = path_m(route.stops@, legs, to_stop, rs.sequence, tgt, 0, false);
                Some(
                    BusEta {
                        route_id: route.route_id,
                        bus_no: bus.bus_no,
                        current_lat_e6: bus.latitude_e6,
                        current_lon_e6: bus.longitude_e6,
                        current_stop_id: rs.stop_id,
                        current_stop_name: rs.stop_name,
                        current_sequence: rs.sequence,
                        stop_resolution_source: rs.source,
                        stops_away: (tgt - rs.sequence) as u32,
                        distance_m: m as u128,
                        distance_km_e2: km_hundredths(m as int) as u128,
                        speed_mph: bus.speed_mph,
                        eta_minutes_e1: eta_tenths(m as int, speed_for(bus)) as u128,
                    },
                )
            },
        }
    }
}

/// The estimates for the first `n` vehicles, in vehicle order.
pub open spec fn eta_candidates(
    buses: Seq<BusPosition>,
    route: RouteStopsResponse,
    legs: Seq<u64>,
    dists: Seq<Vec<u64>>,
    tgt: u32,
    n: int,
) -> Seq<BusEta>
    decreases n,
{
    if n <= 0 {
        Seq::empty()
    } else {
        let prev = eta_candidates(buses, route, legs, dists, tgt, n - 1);
        match eta_record(buses[n - 1], route, legs, dists[n - 1]@, tgt) {
            Some(e) => prev.push(e),
            None => prev,
        }
    }
}

/// A record of a vehicle still short of the target stop with sequence
/// number `tgt`: `stops_away` is the difference of sequence numbers, at least one.
pub open spec fn counts_down_to(e: BusEta, tgt: u32) -> bool {
    &&& e.current_sequence < tgt
    &&& e.stops_away == tgt - e.current_sequence
    &&& e.stops_away >= 1
}

pub proof fn lemma_candidates_count_down(
    buses: Seq<BusPosition>,
    route: RouteStopsResponse,
    legs: Seq<u64>,
    dists: Seq<Vec<u64>>,
    tgt: u32,
    n: int,
)
    ensures
        forall|k: int|
            0 <= k < eta_candidates(buses, route, legs, dists, tgt, n).len() ==> counts_down_to(
                #[trigger] eta_candidates(buses, route, legs, dists, tgt, n)[k],
                tgt,
            ),
    decreases n,
{
    if n > 0 {
        lemma_candidates_count_down(buses, route, legs, dists, tgt, n - 1);
        let prev = eta_candidates(buses, route, legs, dists, tgt, n - 1);
        match eta_record(buses[n - 1], route, legs, dists[n - 1]@, tgt) {
            Some(e) => {
                assert forall|k: int| 0 <= k < prev.push(e).len() implies counts_down_to(
                    #[trigger] prev.push(e)[k],
                    tgt,
                ) by {
                    if k < prev.len() {
                        assert(prev.push(e)[k] == prev[k]);
                    }
                }
            },
            None => {},
        }
    }
}

/// `s` with `x` placed after every element whose estimate is at most its own.
pub open spec fn insert_by_eta(s: Seq<BusEta>, x: BusEta) -> Seq<BusEta>
    decreases s.len(),
{
    if s.len() == 0 {
        seq![x]
    } else if s.last().eta_minutes_e1 <= x.eta_minutes_e1 {
        s.push(x)
    } else {
        insert_by_eta(s.drop_last(), x).push(s.last())
    }
}

/// Stable sort by estimated minutes: equal estimates keep their input order.
pub open spec fn sort_by_eta(s: Seq<BusEta>) -> Seq<BusEta>
    decreases s.len(),
{
    if s.len() == 0 {
        s
    } else {
        insert_by_eta(sort_by_eta(s.drop_last()), s.last())
    }
}

pub open spec fn sorted_by_eta(s: Seq<BusEta>) -> bool {
    forall|i: int, j: int|
        0 <= i < j < s.len() ==> s[i].eta_minutes_e1 <= s[j].eta_minutes_e1
}

pub proof fn lemma_insert_at(s: Seq<BusEta>, x: BusEta, p: int)
    requires
        0 <= p <= s.len(),
        forall|k: int| p <= k < s.len() ==> s[k].eta_minutes_e1 > x.eta_minutes_e1,
        p == 0 || s[p - 1].eta_minutes_e1 <= x.eta_minutes_e1,
    ensures
        insert_by_eta(s, x) == s.insert(p, x),
    decreases s.len(),
{
    if s.len() == 0 {
        assert(s.insert(p, x) =~= seq![x]);
    } else if s.last().eta_minutes_e1 <= x.eta_minutes_e1 {
        assert(s.insert(p, x) =~= s.push(x));
    } else {
        lemma_insert_at(s.drop_last(), x, p);
        assert(s.drop_last().insert(p, x).push(s.last()) =~= s.insert(p, x));
    }
}

pub proof fn lemma_insert_sorted(s: Seq<BusEta>, x: BusEta)
    requires
        sorted_by_eta(s),
    ensures
        sorted_by_eta(insert_by_eta(s, x)),
        insert_by_eta(s, x).len() == s.len() + 1,
    decreases s.len(),
{
    if s.len() > 0 && s.last().eta_minutes_e1 > x.eta_minutes_e1 {
        lemma_insert_sorted(s.drop_last(), x);
        let t = insert_by_eta(s.drop_last(), x);
        lemma_insert_keeps(s.drop_last(), x, |e: BusEta| e.eta_minutes_e1 <= s.last().eta_minutes_e1);
        assert(forall|k: int| 0 <= k < t.len() ==> t[k].eta_minutes_e1 <= s.last().eta_minutes_e1);
    }
}

/// Inserting keeps any property that all the elements and the new one share.
pub proof fn lemma_insert_keeps(s: Seq<BusEta>, x: BusEta, p: spec_fn(BusEta) -> bool)
    requires
        forall|k: int| 0 <= k < s.len() ==> p(s[k]),
        p(x),
    ensures
        forall|k: int| 0 <= k < insert_by_eta(s, x).len() ==> p(#[trigger] insert_by_eta(s, x)[k]),
    decreases s.len(),
{
    if s.len() > 0 && s.last().eta_minutes_e1 > x.eta_minutes_e1 {
        let d = s.drop_last();
        assert forall|k: int| 0 <= k < d.len() implies p(#[trigger] d[k]) by {
            assert(d[k] == s[k]);
        }
        lemma_insert_keeps(d, x, p);
        let t = insert_by_eta(d, x);
        assert(p(s.last()));
        assert forall|k: int| 0 <= k < t.push(s.last()).len() implies p(
            #[trigger] t.push(s.last())[k],
        ) by {
            if k < t.len() {
                assert(t.push(s.last())[k] == t[k]);
            }
        }
    }
}

/// The stable sort is sorted and keeps any property shared by all elements.
pub proof fn lemma_sort_by_eta(s: Seq<BusEta>, p: spec_fn(BusEta) -> bool)
    requires
        forall|k: int| 0 <= k < s.len() ==> p(s[k]),
    ensures
        sorted_by_eta(sort_by_eta(s)),
        sort_by_eta(s).len() == s.len(),
        forall|k: int| 0 <= k < sort_by_eta(s).len() ==> p(#[trigger] sort_by_eta(s)[k]),
    decreases s.len(),
{
    if s.len() > 0 {
        lemma_sort_by_eta(s.drop_last(), p);
        lemma_insert_sorted(sort_by_eta(s.drop_last()), s.last());
        lemma_insert_keeps(sort_by_eta(s.drop_last()), s.last(), p);
    }
}

/// Inserts `x` after every element whose estimate is at most its own.
pub fn insert_sorted_by_eta(out: &mut Vec<BusEta>, x: BusEta)
    ensures
        final(out)@ == insert_by_eta(old(out)@, x),
{
    let mut p: usize = out.len();
    while p > 0 && out[p - 1].eta_minutes_e1 > x.eta_minutes_e1
        invariant
            p <= out@.len(),
            forall|k: int| p <= k < out@.len() ==> out@[k].eta_minutes_e1 > x.eta_minutes_e1,
        decreases p,
    {
        p = p - 1;
    }
    proof {
        lemma_insert_at(out@, x, p as int);
    }
    out.insert(p, x);
}

/// The chain length of `path_m` from the vehicle to the target.
fn path_length(
    stops: &Vec<StopWithDetails>,
    legs: &Vec<u64>,
    to_stop: &Vec<u64>,
    cur: u32,
    tgt: u32,
) -> (m: u128)
    requires
        legs@.len() == stops@.len(),
        to_stop@.len() == stops@.len(),
        forall|k: int| 0 <= k < legs@.len() ==> legs@[k] <= MAX_GREAT_CIRCLE_M,
        forall|k: int| 0 <= k < to_stop@.len() ==> to_stop@[k] <= MAX_GREAT_CIRCLE_M,
    ensures
        m == path_m(stops@, legs@, to_stop@, cur, tgt, 0, false),
        m <= stops@.len() * MAX_GREAT_CIRCLE_M,
{
    let n = stops.len();
    let mut total: u128 = 0;
    let mut started = false;
    let mut i: usize = 0;
    while i < n
        invariant
            n == stops@.len() == legs@.len() == to_stop@.len(),
            forall|k: int| 0 <= k < legs@.len() ==> legs@[k] <= MAX_GREAT_CIRCLE_M,
            forall|k: int| 0 <= k < to_stop@.len() ==> to_stop@[k] <= MAX_GREAT_CIRCLE_M,
            i <= n,
            total <= i * MAX_GREAT_CIRCLE_M,
            total + path_m(stops@, legs@, to_stop@, cur, tgt, i as int, started) == path_m(
                stops@,
                legs@,
                to_stop@,
                cur,
                tgt,
                0,
                false,
            ),
        decreases n - i,
    {
        let s = stops[i].sequence;
        if cur < s && s <= tgt {
            if started {
                total = total + legs[i] as u128;
            } else {
                total = total + to_stop[i] as u128;
            }
            started = true;
        }
        i = i + 1;
    }
    total
}

/// Estimates for every vehicle of `buses` on the route towards the stop
/// `target_stop_id`, sorted by estimated minutes (stable).
///
/// `bus_stop_distances_m[b][k]` is the great-circle distance in metres from
/// vehicle `b` to the route's stop `k`; `legs_m[k]` the distance from stop
/// `k - 1` to stop `k` (`legs_m[0]` is not used).
pub fn calculate_route_eta_from_stops(
    buses: &Vec<BusPosition>,
    target_stop_id: &str,
    route_stops: &RouteStopsResponse,
    legs_m: &Vec<u64>,
    bus_stop_distances_m: &Vec<Vec<u64>>,
) -> (r: Result<Vec<BusEta>, EtaError>)
    requires
        route_geometry_ok(route_stops, legs_m@, bus_stop_distances_m@, buses@.len()),
    ensures
        match r {
            Err(e) => e == EtaError::TargetStopNotOnRoute && find_stop(
                route_stops.stops@,
                target_stop_id@,
                0,
            ) == route_stops.stops@.len(),
            Ok(v) => {
                let t = find_stop(route_stops.stops@, target_stop_id@, 0);
                &&& t < route_stops.stops@.len()
                &&& sorted_by_eta(v@)
                &&& forall|k: int|
                    0 <= k < v@.len() ==> counts_down_to(#[trigger] v@[k], route_stops.stops@[t].sequence)
                &&& v@ == sort_by_eta(
                    eta_candidates(
                        buses@,
                        *route_stops,
                        legs_m@,
                        bus_stop_distances_m@,
                        route_stops.stops@[t].sequence,
                        buses@.len() as int,
                    ),
                )
            },
        },
{
    let stops = &route_stops.stops;
    let t = match position_of_stop(stops, target_stop_id) {
        Some(t) => t,
        None => {
            return Err(EtaError::TargetStopNotOnRoute);
        },
    };
    let tgt = stops[t].sequence;
    let n_stops = stops.len();
    let mut out: Vec<BusEta> = Vec::new();
    let mut b: usize = 0;
    while b < buses.len()
        invariant
            route_geometry_ok(route_stops, legs_m@, bus_stop_distances_m@, buses@.len()),
            b <= buses@.len(),
            n_stops == route_stops.stops@.len(),
            stops == &route_stops.stops,
            out@ == sort_by_eta(
                eta_candidates(
                    buses@,
                    *route_stops,
                    legs_m@,
                    bus_stop_distances_m@,
                    tgt,
                    b as int,
                ),
            ),
        decreases buses@.len() - b,
    {
        let bus = &buses[b];
        let to_stop = &bus_stop_distances_m[b];
        let ghost cands = eta_candidates(
            buses@,
            *route_stops,
            legs_m@,
            bus_stop_distances_m@,
            tgt,
            b as int,
        );
        assert(eta_candidates(buses@, *route_stops, legs_m@, bus_stop_distances_m@, tgt, b + 1)
            == match eta_record(*bus, *route_stops, legs_m@, to_stop@, tgt) {
                Some(e) => cands.push(e),
                None => cands,
            });
        if is_bus_on_route(bus.route.as_str(), route_stops.route_id.as_str()) {
            if let Some(rs) = resolve_current_stop(bus, route_stops, to_stop) {
                if rs.sequence < tgt {
                    assert(bus_stop_distances_m@.len() == buses@.len());
                    assert(0 <= b < bus_stop_distances_m@.len());
                    let ghost row = bus_stop_distances_m@[b as int];
                    assert(row@.len() == route_stops.stops@.len());
                    assert forall|k: int| 0 <= k < to_stop@.len() implies to_stop@[k]
                        <= MAX_GREAT_CIRCLE_M by {
                        assert(bus_stop_distances_m@[b as int]@[k] <= MAX_GREAT_CIRCLE_M);
                    }
                    let m = path_length(stops, legs_m, to_stop, rs.sequence, tgt);
                    let speed: i64 = if bus.speed_mph > 0 {
                        bus.speed_mph
                    } else {
                        DEFAULT_SPEED_MPH
                    };
                    let v = speed as u128;
                    let eta = (1200 * m + v) / (2 * v);
                    let rec = BusEta {
                        route_id: route_stops.route_id.clone(),
                        bus_no: bus.bus_no.clone(),
                        current_lat_e6: bus.latitude_e6,
                        current_lon_e6: bus.longitude_e6,
                        current_stop_id: rs.stop_id,
                        current_stop_name: rs.stop_name,
                        current_sequence: rs.sequence,
                        stop_resolution_source: rs.source,
                        stops_away: tgt - rs.sequence,
                        distance_m: m,
                        distance_km_e2: (m + 5) / 10,
                        speed_mph: bus.speed_mph,
                        eta_minutes_e1: eta,
                    };
                    proof {
                        assert(eta_record(*bus, *route_stops, legs_m@, to_stop@, tgt) == Some(rec));
                        assert(cands.push(rec).drop_last() =~= cands);
                    }
                    insert_sorted_by_eta(&mut out, rec);
                }
            }
        }
        b = b + 1;
    }
    proof {
        let cands = eta_candidates(buses@, *route_stops, legs_m@, bus_stop_distances_m@, tgt, b as int);
        lemma_candidates_count_down(buses@, *route_stops, legs_m@, bus_stop_distances_m@, tgt, b as int);
        lemma_sort_by_eta(cands, |e: BusEta| counts_down_to(e, tgt));
    }
    Ok(out)
}

/// Shapes of the distance tables handed to the engine: one leg per stop,
/// one row per vehicle with one entry per stop, and every distance a
/// possible great-circle distance.
pub open spec fn route_geometry_ok(
    route_stops: &RouteStopsResponse,
    legs: Seq<u64>,
    dists: Seq<Vec<u64>>,
    n_buses: nat,
) -> bool {
    &&& legs.len() == route_stops.stops@.len()
    &&& dists.len() == n_buses
    &&& forall|k: int| 0 <= k < legs.len() ==> legs[k] <= MAX_GREAT_CIRCLE_M
    &&& forall|b: int|
        0 <= b < dists.len() ==> (#[trigger] dists[b])@.len() == route_stops.stops@.len()
    &&& forall|b: int, k: int|
        0 <= b < dists.len() && 0 <= k < route_stops.stops@.len() ==> #[trigger] dists[b]@[k]
            <= MAX_GREAT_CIRCLE_M
}

/// One route's stop sequence with the distance tables the engine needs
/// (see `calculate_route_eta_from_stops`).
pub struct RouteEtaInput {
    pub route_stops: RouteStopsResponse,
    pub legs_m: Vec<u64>,
    pub bus_stop_distances_m: Vec<Vec<u64>>,
}

/// Whether `acc` already holds a record for the same route and vehicle as `e`.
pub open spec fn has_pair(acc: Seq<BusEta>, e: BusEta) -> bool {
    exists|i: int|
        0 <= i < acc.len() && (#[trigger] acc[i]).route_id@ == e.route_id@ && acc[i].bus_no@
            == e.bus_no@
}

/// `acc` extended by `recs[0..n]`, skipping each record whose route and
/// vehicle pair is already there.
pub open spec fn union_new(acc: Seq<BusEta>, recs: Seq<BusEta>, n: int) -> Seq<BusEta>
    decreases n,
{
    if n <= 0 {
        acc
    } else {
        let p = union_new(acc, recs, n - 1);
        if has_pair(p, recs[n - 1]) {
            p
        } else {
            p.push(recs[n - 1])
        }
    }
}

/// The estimates of route input `r` towards stop `stop_id`, when the route
/// serves that stop.
pub open spec fn route_estimates(
    buses: Seq<BusPosition>,
    r: RouteEtaInput,
    stop_id: Seq<char>,
) -> Option<Seq<BusEta>> {
    let t = find_stop(r.route_stops.stops@, stop_id, 0);
    if t < r.route_stops.stops@.len() {
        Some(
            sort_by_eta(
                eta_candidates(
                    buses,
                    r.route_stops,
                    r.legs_m@,
                    r.bus_stop_distances_m@,
                    r.route_stops.stops@[t].sequence,
                    buses.len() as int,
                ),
            ),
        )
    } else {
        None
    }
}

/// The union, in route order, of the estimates of the first `n` routes that
/// serve the stop, one record per route and vehicle (the first one).
pub open spec fn stop_union(
    buses: Seq<BusPosition>,
    routes: Seq<RouteEtaInput>,
    stop_id: Seq<char>,
    n: int,
) -> Seq<BusEta>
    decreases n,
{
    if n <= 0 {
        Seq::empty()
    } else {
        let p = stop_union(buses, routes, stop_id, n - 1);
        match route_estimates(buses, routes[n - 1], stop_id) {
            Some(recs) => union_new(p, recs, recs.len() as int),
            None => p,
        }
    }
}

/// Whether a record for the same route and vehicle is in `acc`.
fn contains_pair(acc: &Vec<BusEta>, e: &BusEta) -> (r: bool)
    ensures
        r == has_pair(acc@, *e),
{
    let mut i: usize = 0;
    while i < acc.len()
        invariant
            i <= acc@.len(),
            forall|k: int|
                0 <= k < i ==> !((#[trigger] acc@[k]).route_id@ == e.route_id@ && acc@[k].bus_no@
                    == e.bus_no@),
        decreases acc@.len() - i,
    {
        if acc[i].route_id == e.route_id && acc[i].bus_no == e.bus_no {
            return true;
        }
        i = i + 1;
    }
    false
}

/// Estimates at stop `stop_id` over every route of `routes` that serves it:
/// per route as `calculate_route_eta_from_stops`, joined in route order
/// keeping the first record of each route and vehicle, then sorted by
/// estimated minutes (stable).
pub fn calculate_stop_eta_from_snapshot(
    buses: &Vec<BusPosition>,
    routes: &Vec<RouteEtaInput>,
    stop_id: &str,
) -> (r: Vec<BusEta>)
    requires
        forall|i: int|
            0 <= i < routes@.len() ==> route_geometry_ok(
                &(#[trigger] routes@[i]).route_stops,
                routes@[i].legs_m@,
                routes@[i].bus_stop_distances_m@,
                buses@.len(),
            ),
    ensures
        r@ == sort_by_eta(stop_union(buses@, routes@, stop_id@, routes@.len() as int)),
        sorted_by_eta(r@),
{
    let mut all: Vec<BusEta> = Vec::new();
    let mut i: usize = 0;
    while i < routes.len()
        invariant
            i <= routes@.len(),
            forall|j: int|
                0 <= j < routes@.len() ==> route_geometry_ok(
                    &(#[trigger] routes@[j]).route_stops,
                    routes@[j].legs_m@,
                    routes@[j].bus_stop_distances_m@,
                    buses@.len(),
                ),
            all@ == stop_union(buses@, routes@, stop_id@, i as int),
        decreases routes@.len() - i,
    {
        let input = &routes[i];
        assert(route_geometry_ok(
            &routes@[i as int].route_stops,
            routes@[i as int].legs_m@,
            routes@[i as int].bus_stop_distances_m@,
            buses@.len(),
        ));
        let res = calculate_route_eta_from_stops(
            buses,
            stop_id,
            &input.route_stops,
            &input.legs_m,
            &input.bus_stop_distances_m,
        );
        match res {
            Ok(recs) => {
                let ghost p = all@;
                let mut k: usize = 0;
                let mut recs = recs;
                let ghost rv = recs@;
                let n = recs.len();
                while k < n
                    invariant
                        n == rv.len(),
                        k <= n,
                        recs@ == rv.subrange(k as int, n as int),
                        all@ == union_new(p, rv, k as int),
                    decreases n - k,
                {
                    let e = recs.remove(0);
                    proof {
                        assert(e == rv[k as int]);
                        assert(recs@ =~= rv.subrange(k + 1, n as int));
                    }
                    if !contains_pair(&all, &e) {
                        all.push(e);
                    }
                    k = k + 1;
                }
            },
            Err(_) => {},
        }
        i = i + 1;
    }
    let mut out: Vec<BusEta> = Vec::new();
    let ghost u = all@;
    let n = all.len();
    let mut k: usize = 0;
    while k < n
        invariant
            n == u.len(),
            k <= n,
            all@ == u.subrange(k as int, n as int),
            out@ == sort_by_eta(u.subrange(0, k as int)),
        decreases n - k,
    {
        let e = all.remove(0);
        proof {
            assert(e == u[k as int]);
            assert(all@ =~= u.subrange(k + 1, n as int));
            assert(u.subrange(0, k + 1).drop_last() =~= u.subrange(0, k as int));
        }
        insert_sorted_by_eta(&mut out, e);
        k = k + 1;
    }
    proof {
        assert(u.subrange(0, n as int) =~= u);
        lemma_sort_by_eta(u, |e: BusEta| true);
    }
    out
}

} // verus!
