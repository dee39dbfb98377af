use vstd::prelude::*;
use crate::vehicle::clone_opt_string;

verus! {

/// A route of the reference schedule.
pub struct Route {
    pub route_id: String,
    pub agency_id: String,
    pub route_short_name: String,
    pub route_long_name: String,
    pub route_type: u32,
    pub route_color: String,
    pub route_text_color: String,
}

/// A trip of the reference schedule; `direction_id` is kept as read.
pub struct Trip {
    pub route_id: String,
    pub service_id: String,
    pub trip_id: String,
    pub shape_id: String,
    pub trip_headsign: Option<String>,
    pub direction_id: Option<u32>,
}

/// One visit of a trip to a stop.
pub struct StopTime {
    pub trip_id: String,
    pub arrival_time: String,
    pub departure_time: String,
    pub stop_id: String,
    pub stop_sequence: u32,
    pub stop_headsign: Option<String>,
}

/// A stop; coordinates in millionths of a degree.
pub struct Stop {
    pub stop_id: String,
    pub stop_name: String,
    pub stop_desc: String,
    pub stop_lat_e6: i64,
    pub stop_lon_e6: i64,
}

/// A stop as visited by a route, with its route-local sequence number.
pub struct StopWithDetails {
    pub stop_id: String,
    pub stop_name: String,
    pub stop_desc: String,
    pub stop_lat_e6: i64,
    pub stop_lon_e6: i64,
    pub sequence: u32,
}

/// A route with its ordered stop sequence.
pub struct RouteStopsResponse {
    pub route_id: String,
    pub route_short_name: String,
    pub route_long_name: String,
    pub stops: Vec<StopWithDetails>,
}

/// The stops are in non-decreasing sequence order.
pub open spec fn stops_ordered(stops: Seq<StopWithDetails>) -> bool {
    forall|i: int, j: int| 0 <= i < j < stops.len() ==> stops[i].sequence <= stops[j].sequence
}

/// Index of the first stop at or after `i` whose id is `id`, or `stops.len()`.
pub open spec fn find_stop(stops: Seq<StopWithDetails>, id: Seq<char>, i: int) -> int
    decreases stops.len() - i,
{
    if i < 0 || i >= stops.len() {
        stops.len() as int
    } else if stops[i].stop_id@ == id {
        i
    } else {
        find_stop(stops, id, i + 1)
    }
}

/// Position of the first stop whose id is `id`, if any.
pub fn position_of_stop(stops: &Vec<StopWithDetails>, id: &str) -> (r: Option<usize>)
    ensures
        match r {
            Some(k) => k == find_stop(stops@, id@, 0) && k < stops@.len(),
            None => find_stop(stops@, id@, 0) == stops@.len(),
        },
{
    let mut i: usize = 0;
    while i < stops.len()
        invariant
            i <= stops@.len(),
            find_stop(stops@, id@, 0) == find_stop(stops@, id@, i as int),
        decreases stops@.len() - i,
    {
        if str_equal(stops[i].stop_id.as_str(), id) {
            return Some(i);
        }
        i = i + 1;
    }
    None
}

/// Character-by-character equality of two strings.
pub fn str_equal(a: &str, b: &str) -> (r: bool)
    ensures
        r == (a@ == b@),
{
    let n = a.unicode_len();
    if n != b.unicode_len() {
        return false;
    }
    let mut i: usize = 0;
    while i < n
        invariant
            n == a@.len() == b@.len(),
            i <= n,
            forall|k: int| 0 <= k < i ==> a@[k] == b@[k],
        decreases n - i,
    {
        if a.get_char(i) != b.get_char(i) {
            return false;
        }
        i = i + 1;
    }
    assert(a@ =~= b@);
    true
}

impl Clone for StopTime {
    fn clone(&self) -> (r: Self)
        ensures
            r == *self,
    {
        StopTime {
            trip_id: self.trip_id.clone(),
            arrival_time: self.arrival_time.clone(),
            departure_time: self.departure_time.clone(),
            stop_id: self.stop_id.clone(),
            stop_sequence: self.stop_sequence,
            stop_headsign: clone_opt_string(&self.stop_headsign),
        }
    }
}

/// The four tables of the reference schedule, each in file order.
pub struct GtfsContext {
    pub routes: Vec<Route>,
    pub trips: Vec<Trip>,
    pub stop_times: Vec<StopTime>,
    pub stops: Vec<Stop>,
}

/// Why a route's stop sequence or a stop's routes could not be built.
#[derive(Clone, Copy, PartialEq, Eq, Debug)]
pub enum ScheduleError {
    RouteNotFound,
    NoTripsForRoute,
    NoStopTimesForTrip,
    StopNotFound,
    NoRoutesForStop,
}

/// Index of the first route with id `id`, or `routes.len()`.
pub open spec fn find_route(routes: Seq<Route>, id: Seq<char>, i: int) -> int
    decreases routes.len() - i,
{
    if i < 0 || i >= routes.len() {
        routes.len() as int
    } else if routes[i].route_id@ == id {
        i
    } else {
        find_route(routes, id, i + 1)
    }
}

/// Index of the first trip of route `id` (its representative), or `trips.len()`.
pub open spec fn find_trip(trips: Seq<Trip>, id: Seq<char>, i: int) -> int
    decreases trips.len() - i,
{
    if i < 0 || i >= trips.len() {
        trips.len() as int
    } else if trips[i].route_id@ == id {
        i
    } else {
        find_trip(trips, id, i + 1)
    }
}

/// The stop times of trip `trip_id` among the first `n`, in file order.
pub open spec fn trip_stop_times(st: Seq<StopTime>, trip_id: Seq<char>, n: int) -> Seq<StopTime>
    decreases n,
{
    if n <= 0 {
        Seq::empty()
    } else {
        let p = trip_stop_times(st, trip_id, n - 1);
        if st[n - 1].trip_id@ == trip_id {
            p.push(st[n - 1])
        } else {
            p
        }
    }
}

/// `s` with `x` placed after every stop time whose sequence number is at most its own.
pub open spec fn insert_by_sequence(s: Seq<StopTime>, x: StopTime) -> Seq<StopTime>
    decreases s.len(),
{
    if s.len() == 0 {
        seq![x]
    } else if s.last().stop_sequence <= x.stop_sequence {
        s.push(x)
    } else {
        insert_by_sequence(s.drop_last(), x).push(s.last())
    }
}

/// Stable sort by sequence number.
pub open spec fn sort_by_sequence(s: Seq<StopTime>) -> Seq<StopTime>
    decreases s.len(),
{
    if s.len() == 0 {
        s
    } else {
        insert_by_sequence(sort_by_sequence(s.drop_last()), s.last())
    }
}

/// Index of the last stop with id `id` among the first `n`, or -1: the
/// later row of a repeated id wins.
pub open spec fn last_stop(stops: Seq<Stop>, id: Seq<char>, n: int) -> int
    decreases n,
{
    if n <= 0 {
        -1
    } else if stops[n - 1].stop_id@ == id {
        n - 1
    } else {
        last_stop(stops, id, n - 1)
    }
}

pub open spec fn detail_of(stop: Stop, sequence: u32) -> StopWithDetails {
    StopWithDetails {
        stop_id: stop.stop_id,
        stop_name: stop.stop_name,
        stop_desc: stop.stop_desc,
        stop_lat_e6: stop.stop_lat_e6,
        stop_lon_e6: stop.stop_lon_e6,
        sequence,
    }
}

/// The first `n` stop times joined with their stops; a stop time whose stop
/// is unknown is left out.
pub open spec fn joined_stops(st: Seq<StopTime>, stops: Seq<Stop>, n: int) -> Seq<StopWithDetails>
    decreases n,
{
    if n <= 0 {
        Seq::empty()
    } else {
        let p = joined_stops(st, stops, n - 1);
        let k = last_stop(stops, st[n - 1].stop_id@, stops.len() as int);
        if k >= 0 {
            p.push(detail_of(stops[k], st[n - 1].stop_sequence))
        } else {
            p
        }
    }
}

/// The stop sequence of route `route_id`: the representative trip's stop
/// times sorted by sequence number (stable) and joined with their stops.
pub open spec fn route_stop_sequence(ctx: GtfsContext, route_id: Seq<char>) -> Seq<StopWithDetails> {
    let trip = ctx.trips@[find_trip(ctx.trips@, route_id, 0)];
    let st = sort_by_sequence(
        trip_stop_times(ctx.stop_times@, trip.trip_id@, ctx.stop_times@.len() as int),
    );
    joined_stops(st, ctx.stops@, st.len() as int)
}

pub proof fn lemma_insert_by_sequence_at(s: Seq<StopTime>, x: StopTime, p: int)
    requires
        0 <= p <= s.len(),
        forall|k: int| p <= k < s.len() ==> s[k].stop_sequence > x.stop_sequence,
        p == 0 || s[p - 1].stop_sequence <= x.stop_sequence,
    ensures
        insert_by_sequence(s, x) == s.insert(p, x),
    decreases s.len(),
{
    if s.len() == 0 {
        assert(s.insert(p, x) =~= seq![x]);
    } else if s.last().stop_sequence <= x.stop_sequence {
        assert(s.insert(p, x) =~= s.push(x));
    } else {
        lemma_insert_by_sequence_at(s.drop_last(), x, p);
        assert(s.drop_last().insert(p, x).push(s.last()) =~= s.insert(p, x));
    }
}

fn find_route_index(routes: &Vec<Route>, id: &str) -> (r: usize)
    ensures
        r == find_route(routes@, id@, 0),
        r <= routes@.len(),
{
    let mut i: usize = 0;
    while i < routes.len()
        invariant
            i <= routes@.len(),
            find_route(routes@, id@, 0) == find_route(routes@, id@, i as int),
        decreases routes@.len() - i,
    {
        if str_equal(routes[i].route_id.as_str(), id) {
            return i;
        }
        i = i + 1;
    }
    i
}

fn find_trip_index(trips: &Vec<Trip>, id: &str) -> (r: usize)
    ensures
        r == find_trip(trips@, id@, 0),
        r <= trips@.len(),
{
    let mut i: usize = 0;
    while i < trips.len()
        invariant
            i <= trips@.len(),
            find_trip(trips@, id@, 0) == find_trip(trips@, id@, i as int),
        decreases trips@.len() - i,
    {
        if str_equal(trips[i].route_id.as_str(), id) {
            return i;
        }
        i = i + 1;
    }
    i
}

fn last_stop_index(stops: &Vec<Stop>, id: &str) -> (r: Option<usize>)
    ensures
        match r {
            Some(k) => k == last_stop(stops@, id@, stops@.len() as int) && k < stops@.len(),
            None => last_stop(stops@, id@, stops@.len() as int) == -1,
        },
{
    let mut i: usize = stops.len();
    while i > 0
        invariant
            i <= stops@.len(),
            last_stop(stops@, id@, stops@.len() as int) == last_stop(stops@, id@, i as int),
        decreases i,
    {
        if str_equal(stops[i - 1].stop_id.as_str(), id) {
            return Some(i - 1);
        }
        i = i - 1;
    }
    None
}

/// Builds the ordered stop sequence of route `route_id`.
pub fn get_stops_by_route(route_id: &str, ctx: &GtfsContext) -> (r: Result<
    RouteStopsResponse,
    ScheduleError,
>)
    ensures
        match r {
            Err(ScheduleError::RouteNotFound) => find_route(ctx.routes@, route_id@, 0)
                == ctx.routes@.len(),
            Err(ScheduleError::NoTripsForRoute) => find_route(ctx.routes@, route_id@, 0)
                < ctx.routes@.len() && find_trip(ctx.trips@, route_id@, 0) == ctx.trips@.len(),
            Err(ScheduleError::NoStopTimesForTrip) => find_route(ctx.routes@, route_id@, 0)
                < ctx.routes@.len() && find_trip(ctx.trips@, route_id@, 0) < ctx.trips@.len()
                && trip_stop_times(
                ctx.stop_times@,
                ctx.trips@[find_trip(ctx.trips@, route_id@, 0)].trip_id@,
                ctx.stop_times@.len() as int,
            ).len() == 0,
            Err(_) => false,
            Ok(resp) => {
                let route = ctx.routes@[find_route(ctx.routes@, route_id@, 0)];
                &&& find_route(ctx.routes@, route_id@, 0) < ctx.routes@.len()
                &&& find_trip(ctx.trips@, route_id@, 0) < ctx.trips@.len()
                &&& trip_stop_times(
                    ctx.stop_times@,
                    ctx.trips@[find_trip(ctx.trips@, route_id@, 0)].trip_id@,
                    ctx.stop_times@.len() as int,
                ).len() > 0
                &&& resp.route_id == route.route_id
                &&& resp.route_short_name == route.route_short_name
                &&& resp.route_long_name == route.route_long_name
                &&& resp.stops@ == route_stop_sequence(*ctx, route_id@)
                &&& stops_ordered(resp.stops@)
            },
        },
{
    let ri = find_route_index(&ctx.routes, route_id);
    if ri >= ctx.routes.len() {
        return Err(ScheduleError::RouteNotFound);
    }
    let ti = find_trip_index(&ctx.trips, route_id);
    if ti >= ctx.trips.len() {
        return Err(ScheduleError::NoTripsForRoute);
    }
    let trip_id = ctx.trips[ti].trip_id.as_str();
    let ghost all_st = ctx.stop_times@;
    // the trip's stop times, kept sorted by sequence number as they are read
    let mut sorted: Vec<StopTime> = Vec::new();
    let mut count: usize = 0;
    let mut i: usize = 0;
    while i < ctx.stop_times.len()
        invariant
            i <= all_st.len(),
            all_st == ctx.stop_times@,
            trip_id@ == ctx.trips@[ti as int].trip_id@,
            count == trip_stop_times(all_st, trip_id@, i as int).len(),
            count <= i,
            sorted@ == sort_by_sequence(trip_stop_times(all_st, trip_id@, i as int)),
        decreases all_st.len() - i,
    {
        if str_equal(ctx.stop_times[i].trip_id.as_str(), trip_id) {
            let x = ctx.stop_times[i].clone();
            let ghost before = trip_stop_times(all_st, trip_id@, i as int);
            assert(before.push(x).drop_last() =~= before);
            let mut p: usize = sorted.len();
            while p > 0 && sorted[p - 1].stop_sequence > x.stop_sequence
                invariant
                    p <= sorted@.len(),
                    forall|k: int|
                        p <= k < sorted@.len() ==> sorted@[k].stop_sequence > x.stop_sequence,
                decreases p,
            {
                p = p - 1;
            }
            proof {
                lemma_insert_by_sequence_at(sorted@, x, p as int);
            }
            sorted.insert(p, x);
            count = count + 1;
        }
        i = i + 1;
    }
    if count == 0 {
        return Err(ScheduleError::NoStopTimesForTrip);
    }
    let mut stops: Vec<StopWithDetails> = Vec::new();
    let mut j: usize = 0;
    while j < sorted.len()
        invariant
            j <= sorted@.len(),
            stops@ == joined_stops(sorted@, ctx.stops@, j as int),
        decreases sorted@.len() - j,
    {
        let st = &sorted[j];
        if let Some(k) = last_stop_index(&ctx.stops, st.stop_id.as_str()) {
            let stop = &ctx.stops[k];
            stops.push(
                StopWithDetails {
                    stop_id: stop.stop_id.clone(),
                    stop_name: stop.stop_name.clone(),
                    stop_desc: stop.stop_desc.clone(),
                    stop_lat_e6: stop.stop_lat_e6,
                    stop_lon_e6: stop.stop_lon_e6,
                    sequence: st.stop_sequence,
                },
            );
        }
        j = j + 1;
    }
    let route = &ctx.routes[ri];
    proof {
        lemma_route_stop_sequence_ordered(*ctx, route_id@);
    }
    Ok(
        RouteStopsResponse {
            route_id: route.route_id.clone(),
            route_short_name: route.route_short_name.clone(),
            route_long_name: route.route_long_name.clone(),
            stops,
        },
    )
}

/// A route that serves a stop, as listed for that stop.
pub struct StopRouteSummary {
    pub route_id: String,
    pub route_short_name: String,
    pub route_long_name: String,
}

/// Lexicographic order of strings by code point (the order of `str`'s `Ord`).
pub open spec fn lex_le(a: Seq<char>, b: Seq<char>) -> bool
    decreases a.len(),
{
    if a.len() == 0 {
        true
    } else if b.len() == 0 {
        false
    } else if a[0] != b[0] {
        (a[0] as u32) < (b[0] as u32)
    } else {
        lex_le(a.drop_first(), b.drop_first())
    }
}

/// Whether `a` sorts at or before `b`: by short name, then by route id.
pub open spec fn summary_le(a: StopRouteSummary, b: StopRouteSummary) -> bool {
    if a.route_short_name@ != b.route_short_name@ {
        lex_le(a.route_short_name@, b.route_short_name@)
    } else {
        lex_le(a.route_id@, b.route_id@)
    }
}

/// Whether `a` is at or before `b` in code-point order.
pub fn str_le(a: &str, b: &str) -> (r: bool)
    ensures
        r == lex_le(a@, b@),
{
    let n = a.unicode_len();
    let m = b.unicode_len();
    let mut i: usize = 0;
    assert(a@.subrange(0, n as int) =~= a@);
    assert(b@.subrange(0, m as int) =~= b@);
    while i < n && i < m && a.get_char(i) == b.get_char(i)
        invariant
            n == a@.len(),
            m == b@.len(),
            i <= n,
            i <= m,
            lex_le(a@, b@) == lex_le(a@.subrange(i as int, n as int), b@.subrange(i as int, m as int)),
        decreases n - i,
    {
        proof {
            let sa = a@.subrange(i as int, n as int);
            let sb = b@.subrange(i as int, m as int);
            assert(sa.drop_first() =~= a@.subrange(i + 1, n as int));
            assert(sb.drop_first() =~= b@.subrange(i + 1, m as int));
        }
        i = i + 1;
    }
    if i == n {
        true
    } else if i == m {
        false
    } else {
        (a.get_char(i) as u32) < (b.get_char(i) as u32)
    }
}

fn summary_le_exec(a: &StopRouteSummary, b: &StopRouteSummary) -> (r: bool)
    ensures
        r == summary_le(*a, *b),
{
    if a.route_short_name != b.route_short_name {
        str_le(a.route_short_name.as_str(), b.route_short_name.as_str())
    } else {
        str_le(a.route_id.as_str(), b.route_id.as_str())
    }
}

/// Whether route `route_id` has a stop sequence and stop `stop_id` is on it.
pub open spec fn route_serves(ctx: GtfsContext, route_id: Seq<char>, stop_id: Seq<char>) -> bool {
    let seq = route_stop_sequence(ctx, route_id);
    &&& find_route(ctx.routes@, route_id, 0) < ctx.routes@.len()
    &&& find_trip(ctx.trips@, route_id, 0) < ctx.trips@.len()
    &&& trip_stop_times(
        ctx.stop_times@,
        ctx.trips@[find_trip(ctx.trips@, route_id, 0)].trip_id@,
        ctx.stop_times@.len() as int,
    ).len() > 0
    &&& find_stop(seq, stop_id, 0) < seq.len()
}

pub open spec fn summary_of(r: Route) -> StopRouteSummary {
    StopRouteSummary {
        route_id: r.route_id,
        route_short_name: r.route_short_name,
        route_long_name: r.route_long_name,
    }
}

/// Summaries of the routes among the first `n` that serve stop `stop_id`, in file order.
pub open spec fn serving_routes(ctx: GtfsContext, stop_id: Seq<char>, n: int) -> Seq<
    StopRouteSummary,
>
    decreases n,
{
    if n <= 0 {
        Seq::empty()
    } else {
        let p = serving_routes(ctx, stop_id, n - 1);
        if route_serves(ctx, ctx.routes@[n - 1].route_id@, stop_id) {
            p.push(summary_of(ctx.routes@[n - 1]))
        } else {
            p
        }
    }
}

/// `s` with `x` placed after every summary that sorts at or before it.
pub open spec fn insert_summary(s: Seq<StopRouteSummary>, x: StopRouteSummary) -> Seq<
    StopRouteSummary,
>
    decreases s.len(),
{
    if s.len() == 0 {
        seq![x]
    } else if summary_le(s.last(), x) {
        s.push(x)
    } else {
        insert_summary(s.drop_last(), x).push(s.last())
    }
}

/// Stable sort by short name, then route id.
pub open spec fn sort_summaries(s: Seq<StopRouteSummary>) -> Seq<StopRouteSummary>
    decreases s.len(),
{
    if s.len() == 0 {
        s
    } else {
        insert_summary(sort_summaries(s.drop_last()), s.last())
    }
}

pub proof fn lemma_insert_summary_at(s: Seq<StopRouteSummary>, x: StopRouteSummary, p: int)
    requires
        0 <= p <= s.len(),
        forall|k: int| p <= k < s.len() ==> !summary_le(#[trigger] s[k], x),
        p == 0 || summary_le(s[p - 1], x),
    ensures
        insert_summary(s, x) == s.insert(p, x),
    decreases s.len(),
{
    if s.len() == 0 {
        assert(s.insert(p, x) =~= seq![x]);
    } else if summary_le(s.last(), x) {
        assert(s.insert(p, x) =~= s.push(x));
    } else {
        lemma_insert_summary_at(s.drop_last(), x, p);
        assert(s.drop_last().insert(p, x).push(s.last()) =~= s.insert(p, x));
    }
}

/// The routes serving stop `stop_id`, sorted by short name then route id.
pub fn get_routes_for_stop(stop_id: &str, ctx: &GtfsContext) -> (r: Result<
    Vec<StopRouteSummary>,
    ScheduleError,
>)
    ensures
        match r {
            Err(ScheduleError::StopNotFound) => last_stop(ctx.stops@, stop_id@, ctx.stops@.len() as int)
                == -1,
            Err(ScheduleError::NoRoutesForStop) => last_stop(
                ctx.stops@,
                stop_id@,
                ctx.stops@.len() as int,
            ) >= 0 && serving_routes(*ctx, stop_id@, ctx.routes@.len() as int).len() == 0,
            Err(_) => false,
            Ok(v) => {
                &&& last_stop(ctx.stops@, stop_id@, ctx.stops@.len() as int) >= 0
                &&& v@.len() > 0
                &&& v@ == sort_summaries(serving_routes(*ctx, stop_id@, ctx.routes@.len() as int))
            },
        },
{
    if last_stop_index(&ctx.stops, stop_id).is_none() {
        return Err(ScheduleError::StopNotFound);
    }
    let mut out: Vec<StopRouteSummary> = Vec::new();
    let mut count: usize = 0;
    let mut i: usize = 0;
    while i < ctx.routes.len()
        invariant
            i <= ctx.routes@.len(),
            count <= i,
            count == serving_routes(*ctx, stop_id@, i as int).len(),
            out@ == sort_summaries(serving_routes(*ctx, stop_id@, i as int)),
        decreases ctx.routes@.len() - i,
    {
        let route = &ctx.routes[i];
        let serves = match get_stops_by_route(route.route_id.as_str(), ctx) {
            Ok(resp) => position_of_stop(&resp.stops, stop_id).is_some(),
            Err(_) => false,
        };
        if serves {
            let x = StopRouteSummary {
                route_id: route.route_id.clone(),
                route_short_name: route.route_short_name.clone(),
                route_long_name: route.route_long_name.clone(),
            };
            let ghost before = serving_routes(*ctx, stop_id@, i as int);
            assert(before.push(x).drop_last() =~= before);
            let mut p: usize = out.len();
            while p > 0 && !summary_le_exec(&out[p - 1], &x)
                invariant
                    p <= out@.len(),
                    forall|k: int| p <= k < out@.len() ==> !summary_le(#[trigger] out@[k], x),
                decreases p,
            {
                p = p - 1;
            }
            proof {
                lemma_insert_summary_at(out@, x, p as int);
            }
            out.insert(p, x);
            count = count + 1;
        }
        i = i + 1;
    }
    if count == 0 {
        return Err(ScheduleError::NoRoutesForStop);
    }
    Ok(out)
}

/// The stop times are in non-decreasing sequence order.
pub open spec fn times_ordered(s: Seq<StopTime>) -> bool {
    forall|i: int, j: int| 0 <= i < j < s.len() ==> s[i].stop_sequence <= s[j].stop_sequence
}

pub proof fn lemma_insert_by_sequence(s: Seq<StopTime>, x: StopTime)
    requires
        times_ordered(s),
    ensures
        times_ordered(insert_by_sequence(s, x)),
        insert_by_sequence(s, x).len() == s.len() + 1,
        forall|k: int|
            0 <= k < insert_by_sequence(s, x).len() ==> (#[trigger] insert_by_sequence(s, x)[k])
                == x || s.contains(insert_by_sequence(s, x)[k]),
    decreases s.len(),
{
    if s.len() > 0 && s.last().stop_sequence > x.stop_sequence {
        let d = s.drop_last();
        lemma_insert_by_sequence(d, x);
        let t = insert_by_sequence(d, x);
        assert forall|k: int| 0 <= k < t.len() implies t[k].stop_sequence <= s.last().stop_sequence by {
            if t[k] != x {
                let j = choose|j: int| 0 <= j < d.len() && d[j] == t[k];
                assert(s[j] == d[j]);
                assert(s[s.len() - 1] == s.last());
            }
        }
        let q = t.push(s.last());
        assert forall|k: int| 0 <= k < q.len() implies (#[trigger] q[k]) == x || s.contains(q[k]) by {
            if k < t.len() {
                assert(q[k] == t[k]);
                if t[k] != x {
                    let j = choose|j: int| 0 <= j < d.len() && d[j] == t[k];
                    assert(s[j] == d[j]);
                }
            } else {
                assert(s[s.len() - 1] == s.last());
            }
        }
    } else if s.len() > 0 {
        let q = s.push(x);
        assert forall|k: int| 0 <= k < q.len() implies (#[trigger] q[k]) == x || s.contains(q[k]) by {
            if k < s.len() {
                assert(q[k] == s[k]);
            }
        }
    }
}

pub proof fn lemma_sort_by_sequence(s: Seq<StopTime>)
    ensures
        times_ordered(sort_by_sequence(s)),
    decreases s.len(),
{
    if s.len() > 0 {
        lemma_sort_by_sequence(s.drop_last());
        lemma_insert_by_sequence(sort_by_sequence(s.drop_last()), s.last());
    }
}

pub proof fn lemma_joined_ordered(st: Seq<StopTime>, stops: Seq<Stop>, n: int)
    requires
        times_ordered(st),
        0 <= n <= st.len(),
    ensures
        stops_ordered(joined_stops(st, stops, n)),
        forall|k: int|
            0 <= k < joined_stops(st, stops, n).len() ==> exists|j: int|
                0 <= j < n && (#[trigger] joined_stops(st, stops, n)[k]).sequence
                    == st[j].stop_sequence,
    decreases n,
{
    if n > 0 {
        lemma_joined_ordered(st, stops, n - 1);
        let p = joined_stops(st, stops, n - 1);
        let k = last_stop(stops, st[n - 1].stop_id@, stops.len() as int);
        if k >= 0 {
            let q = p.push(detail_of(stops[k], st[n - 1].stop_sequence));
            assert forall|a: int| 0 <= a < p.len() implies p[a].sequence <= st[n - 1].stop_sequence by {
                let j = choose|j: int| 0 <= j < n - 1 && p[a].sequence == st[j].stop_sequence;
            }
            assert forall|a: int| 0 <= a < q.len() implies exists|j: int|
                0 <= j < n && (#[trigger] q[a]).sequence == st[j].stop_sequence by {
                if a < p.len() {
                    assert(q[a] == p[a]);
                    let j = choose|j: int| 0 <= j < n - 1 && p[a].sequence == st[j].stop_sequence;
                } else {
                    assert(q[a].sequence == st[n - 1].stop_sequence);
                }
            }
            assert forall|a: int, b: int| 0 <= a < b < q.len() implies q[a].sequence <= q[b].sequence by {
                if b < p.len() {
                    assert(q[a] == p[a]);
                    assert(q[b] == p[b]);
                } else {
                    assert(q[a] == p[a]);
                }
            }
        }
    }
}

/// The stop sequence of every route is in non-decreasing sequence order.
pub proof fn lemma_route_stop_sequence_ordered(ctx: GtfsContext, route_id: Seq<char>)
    ensures
        stops_ordered(route_stop_sequence(ctx, route_id)),
{
    let trip = ctx.trips@[find_trip(ctx.trips@, route_id, 0)];
    let st = sort_by_sequence(
        trip_stop_times(ctx.stop_times@, trip.trip_id@, ctx.stop_times@.len() as int),
    );
    lemma_sort_by_sequence(trip_stop_times(ctx.stop_times@, trip.trip_id@, ctx.stop_times@.len() as int));
    lemma_joined_ordered(st, ctx.stops@, st.len() as int);
}

} // verus!
