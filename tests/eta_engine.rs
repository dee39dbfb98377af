use rapidbro::eta::{
    calculate_route_eta_from_stops, calculate_stop_eta_from_snapshot, EtaError, RouteEtaInput,
};
use rapidbro::fleet::{filter_non_stationary_buses, is_stale, FleetCache};
use rapidbro::resolver::{get_route_t789, resolve_current_stop, StopResolutionSource};
use rapidbro::schedule::{RouteStopsResponse, StopWithDetails};
use rapidbro::vehicle::BusPosition;

fn bus(no: &str, route: &str, speed_mph: i64, stop: Option<&str>) -> BusPosition {
    BusPosition {
        dt_received: None,
        dt_gps: None,
        latitude_e6: 3_100_000,
        longitude_e6: 101_600_000,
        dir: None,
        speed_mph,
        angle_cdeg: 0,
        route: route.to_string(),
        bus_no: no.to_string(),
        trip_no: None,
        captain_id: None,
        trip_rev_kind: None,
        engine_status: 1,
        accessibility: 0,
        busstop_id: stop.map(|s| s.to_string()),
        provider: "RKL".to_string(),
    }
}

fn stop(id: &str, sequence: u32) -> StopWithDetails {
    StopWithDetails {
        stop_id: id.to_string(),
        stop_name: format!("Stop {}", id),
        stop_desc: String::new(),
        stop_lat_e6: 0,
        stop_lon_e6: 0,
        sequence,
    }
}

/// Stops A(3) B(5) C(8) D(10); legs B->C 1000 m, C->D 1800 m.
fn route() -> RouteStopsResponse {
    RouteStopsResponse {
        route_id: "T7890".to_string(),
        route_short_name: "T789".to_string(),
        route_long_name: "Kerinchi".to_string(),
        stops: vec![stop("A", 3), stop("B", 5), stop("C", 8), stop("D", 10)],
    }
}

fn legs() -> Vec<u64> {
    vec![0, 900, 1000, 1800]
}

#[test]
fn derived_stop_and_default_speed_give_nine_minutes() {
    let buses = vec![bus("B2", "T789", 0, None)];
    let dists = vec![vec![2000, 300, 1200, 2500]];
    let out = calculate_route_eta_from_stops(&buses, "D", &route(), &legs(), &dists).unwrap();
    assert_eq!(out.len(), 1);
    let e = &out[0];
    assert_eq!(e.route_id, "T7890");
    assert_eq!(e.bus_no, "B2");
    assert_eq!(e.current_stop_id, "B");
    assert_eq!(e.current_sequence, 5);
    assert_eq!(e.stop_resolution_source, StopResolutionSource::Derived);
    assert_eq!(e.stops_away, 5);
    assert_eq!(e.distance_m, 3000);
    assert_eq!(e.distance_km_e2, 300);
    assert_eq!(e.eta_minutes_e1, 90);
    assert_eq!(e.speed_mph, 0);
}

#[test]
fn reported_speed_is_used_when_positive() {
    let buses = vec![bus("B3", "T7890", 40_000, None)];
    let dists = vec![vec![2000, 300, 1200, 2500]];
    let out = calculate_route_eta_from_stops(&buses, "D", &route(), &legs(), &dists).unwrap();
    // 3000 m at 40 km/h is 4.5 minutes.
    assert_eq!(out[0].eta_minutes_e1, 45);
}

#[test]
fn rounding_is_half_up() {
    // 1234 m at 20 km/h: 3.702 minutes -> 3.7; 12.34 hundredths of a km -> 0.12 km
    let buses = vec![bus("B4", "T7890", 0, Some("C"))];
    let dists = vec![vec![9000, 9000, 9000, 1234]];
    let out = calculate_route_eta_from_stops(&buses, "D", &route(), &legs(), &dists).unwrap();
    assert_eq!(out[0].stop_resolution_source, StopResolutionSource::Live);
    assert_eq!(out[0].distance_m, 1234);
    assert_eq!(out[0].distance_km_e2, 123);
    assert_eq!(out[0].eta_minutes_e1, 37);
    // 1225 m: 3.675 minutes -> 3.7, 0.1225 km -> 0.12 km; 1245 m -> 12.45 -> 12
    let dists = vec![vec![9000, 9000, 9000, 1225]];
    let out = calculate_route_eta_from_stops(&buses, "D", &route(), &legs(), &dists).unwrap();
    assert_eq!(out[0].eta_minutes_e1, 37);
    assert_eq!(out[0].distance_km_e2, 123);
}

#[test]
fn results_sorted_by_eta_and_stable() {
    let buses = vec![
        bus("far", "T7890", 0, Some("A")),
        bus("near", "T7890", 0, Some("C")),
        bus("tie", "T7890", 0, Some("C")),
        bus("other", "U1", 0, Some("C")),
    ];
    let dists = vec![vec![0, 0, 0, 0], vec![0, 0, 0, 500], vec![0, 0, 0, 500], vec![0, 0, 0, 1]];
    let out = calculate_route_eta_from_stops(&buses, "D", &route(), &legs(), &dists).unwrap();
    let names: Vec<&str> = out.iter().map(|e| e.bus_no.as_str()).collect();
    assert_eq!(names, vec!["near", "tie", "far"]);
    for w in out.windows(2) {
        assert!(w[0].eta_minutes_e1 <= w[1].eta_minutes_e1);
    }
    for e in &out {
        assert_eq!(e.stops_away, 10 - e.current_sequence);
        assert!(e.stops_away >= 1);
    }
    // far: 0 m to B, then B->C 1000 and C->D 1800
    assert_eq!(out[2].distance_m, 2800);
}

#[test]
fn vehicles_at_or_past_target_are_left_out() {
    let buses = vec![bus("at", "T7890", 0, Some("D")), bus("past", "T7890", 0, Some("C"))];
    let dists = vec![vec![0, 0, 0, 0], vec![0, 0, 0, 0]];
    let out = calculate_route_eta_from_stops(&buses, "C", &route(), &legs(), &dists).unwrap();
    assert!(out.is_empty());
}

#[test]
fn unknown_target_is_an_error() {
    let buses = vec![bus("B2", "T7890", 0, None)];
    let dists = vec![vec![0, 0, 0, 0]];
    let r = calculate_route_eta_from_stops(&buses, "Z", &route(), &legs(), &dists);
    assert!(matches!(r, Err(EtaError::TargetStopNotOnRoute)));
}

#[test]
fn stop_resolution_cases() {
    let r = route();
    let live = bus("L", "T7890", 0, Some("C"));
    let got = resolve_current_stop(&live, &r, &vec![0, 9, 9, 9]).unwrap();
    assert_eq!((got.stop_id.as_str(), got.source), ("C", StopResolutionSource::Live));
    let unknown = bus("U", "T7890", 0, Some("ZZ"));
    let got = resolve_current_stop(&unknown, &r, &vec![800, 750, 750, 900]).unwrap();
    assert_eq!((got.stop_id.as_str(), got.source), ("B", StopResolutionSource::Derived));
    let empty = bus("E", "T7890", 0, Some(""));
    let got = resolve_current_stop(&empty, &r, &vec![800, 760, 100, 100]).unwrap();
    assert_eq!(got.stop_id, "C");
    let far = bus("F", "T7890", 0, None);
    assert!(resolve_current_stop(&far, &r, &vec![751, 800, 900, 1000]).is_none());
}

#[test]
fn stop_eta_joins_routes_without_duplicates() {
    let r1 = route();
    let mut r2 = route();
    r2.route_id = "U1".to_string();
    let buses = vec![bus("x", "T7890", 0, Some("C")), bus("y", "U1", 0, Some("A"))];
    let dists = vec![vec![0, 0, 0, 100], vec![0, 0, 0, 100]];
    let inputs = vec![
        RouteEtaInput { route_stops: r1, legs_m: legs(), bus_stop_distances_m: dists.clone() },
        RouteEtaInput { route_stops: r2, legs_m: legs(), bus_stop_distances_m: dists.clone() },
        RouteEtaInput { route_stops: route(), legs_m: legs(), bus_stop_distances_m: dists },
    ];
    let out = calculate_stop_eta_from_snapshot(&buses, &inputs, "D");
    let keys: Vec<(&str, &str)> =
        out.iter().map(|e| (e.route_id.as_str(), e.bus_no.as_str())).collect();
    assert_eq!(keys, vec![("T7890", "x"), ("U1", "y")]);
    assert!(out[0].eta_minutes_e1 <= out[1].eta_minutes_e1);
}

#[test]
fn t789_positions_are_resolved() {
    let buses = vec![bus("a", "T7890", 0, Some("B")), bus("b", "U1", 0, None), bus("c", "t789", 0, None)];
    let dists = vec![vec![0, 0, 0, 0], vec![0, 0, 0, 0], vec![5000, 5000, 5000, 5000]];
    let out = get_route_t789(&buses, &route(), &dists);
    assert_eq!(out.len(), 2);
    assert_eq!(out[0].resolved.as_ref().unwrap().sequence, 5);
    assert!(out[1].resolved.is_none());
}

#[test]
fn scenario_eviction_staleness_and_eta() {
    let now = 1_700_000_130_000i64;
    let mut cache = FleetCache::new();
    let b1 = bus("B1", "T789", 0, None);
    assert!(cache.write(&b1, 0, now - 130_000));
    let b2 = bus("B2", "T789", 0, None);
    assert!(cache.write(&b2, 0, now - 1_000));
    let (snap, evicted) = cache.snapshot(120_000, now);
    assert_eq!(evicted, vec!["B1".to_string()]);
    assert_eq!(snap.active_bus_count, 1);
    assert_eq!(snap.buses.len(), 1);
    assert_eq!(snap.buses[0].bus_no, "B2");
    assert_eq!(cache.entries.len(), 1);
    assert!(cache.find("B1").is_none());
    assert_eq!(snap.last_ingest_at_unix_ms, Some(now - 1_000));
    assert!(!is_stale(snap.last_ingest_at_unix_ms, now, 20_000));
    let visible = filter_non_stationary_buses(&snap, now);
    assert_eq!(visible.len(), 1);
    let dists = vec![vec![2000, 300, 1200, 2500]];
    let out = calculate_route_eta_from_stops(&visible, "D", &route(), &legs(), &dists).unwrap();
    assert_eq!(out[0].eta_minutes_e1, 90);
    assert_eq!(out[0].stop_resolution_source, StopResolutionSource::Derived);
}

#[test]
fn parked_vehicle_is_excluded_from_eta() {
    let mut cache = FleetCache::new();
    let parked = bus("P", "T7890", 0, Some("B"));
    cache.write(&parked, 0, 1_000);
    cache.write(&parked, 0, 61_000);
    let moving = bus("M", "T7890", 25_000, Some("B"));
    cache.write(&moving, 0, 61_000);
    let (snap, _) = cache.snapshot(120_000, 61_000);
    let visible = filter_non_stationary_buses(&snap, 61_000);
    let names: Vec<&str> = visible.iter().map(|b| b.bus_no.as_str()).collect();
    assert_eq!(names, vec!["M"]);
}
