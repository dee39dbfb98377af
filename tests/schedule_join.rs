use rapidbro::schedule::{
    get_routes_for_stop, get_stops_by_route, GtfsContext, Route, ScheduleError, Stop, StopTime,
    Trip,
};

fn route(id: &str, short: &str) -> Route {
    Route {
        route_id: id.to_string(),
        agency_id: "RKL".to_string(),
        route_short_name: short.to_string(),
        route_long_name: format!("{} long", short),
        route_type: 3,
        route_color: String::new(),
        route_text_color: String::new(),
    }
}

fn trip(route_id: &str, trip_id: &str) -> Trip {
    Trip {
        route_id: route_id.to_string(),
        service_id: "wk".to_string(),
        trip_id: trip_id.to_string(),
        shape_id: String::new(),
        trip_headsign: None,
        direction_id: Some(0),
    }
}

fn st(trip_id: &str, stop_id: &str, seq: u32) -> StopTime {
    StopTime {
        trip_id: trip_id.to_string(),
        arrival_time: "08:00:00".to_string(),
        departure_time: "08:00:00".to_string(),
        stop_id: stop_id.to_string(),
        stop_sequence: seq,
        stop_headsign: None,
    }
}

fn stop(id: &str) -> Stop {
    Stop {
        stop_id: id.to_string(),
        stop_name: format!("name {}", id),
        stop_desc: String::new(),
        stop_lat_e6: 3_000_000,
        stop_lon_e6: 101_000_000,
    }
}

fn ctx() -> GtfsContext {
    GtfsContext {
        routes: vec![route("T7890", "T789"), route("U100", "U10"), route("A1", "T789"), route("Z9", "Z9")],
        trips: vec![
            trip("T7890", "t1"),
            trip("T7890", "t2"),
            trip("U100", "u1"),
            trip("A1", "a1"),
        ],
        stop_times: vec![
            st("t1", "S3", 30),
            st("t1", "S1", 10),
            st("t2", "S9", 1),
            st("t1", "S2", 20),
            st("t1", "GONE", 25),
            st("u1", "S2", 1),
            st("a1", "S2", 4),
        ],
        stops: vec![stop("S1"), stop("S2"), stop("S3"), stop("LONELY")],
    }
}

#[test]
fn stops_follow_first_trip_in_sequence_order() {
    let r = get_stops_by_route("T7890", &ctx()).unwrap();
    assert_eq!(r.route_short_name, "T789");
    let ids: Vec<(&str, u32)> = r.stops.iter().map(|s| (s.stop_id.as_str(), s.sequence)).collect();
    assert_eq!(ids, vec![("S1", 10), ("S2", 20), ("S3", 30)]);
}

#[test]
fn route_lookup_errors() {
    assert!(matches!(get_stops_by_route("NOPE", &ctx()), Err(ScheduleError::RouteNotFound)));
    assert!(matches!(get_stops_by_route("Z9", &ctx()), Err(ScheduleError::NoTripsForRoute)));
    let mut c = ctx();
    c.stop_times.retain(|s| s.trip_id != "u1");
    assert!(matches!(get_stops_by_route("U100", &c), Err(ScheduleError::NoStopTimesForTrip)));
}

#[test]
fn routes_for_stop_sorted_by_short_name_then_id() {
    let v = get_routes_for_stop("S2", &ctx()).unwrap();
    let ids: Vec<&str> = v.iter().map(|r| r.route_id.as_str()).collect();
    assert_eq!(ids, vec!["A1", "T7890", "U100"]);
}

#[test]
fn routes_for_stop_errors() {
    assert!(matches!(get_routes_for_stop("NOPE", &ctx()), Err(ScheduleError::StopNotFound)));
    assert!(matches!(get_routes_for_stop("LONELY", &ctx()), Err(ScheduleError::NoRoutesForStop)));
}
