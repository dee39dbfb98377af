use rapidbro::motion::{update_bus_motion_state, BusMotionState};
use rapidbro::route_code::{is_bus_on_route, is_t789_route, normalize_route_code};
use rapidbro::vehicle::BusPosition;

fn bus(no: &str, route: &str, lat_e6: i64, lon_e6: i64, speed_mph: i64) -> BusPosition {
    BusPosition {
        dt_received: None,
        dt_gps: None,
        latitude_e6: lat_e6,
        longitude_e6: lon_e6,
        dir: None,
        speed_mph,
        angle_cdeg: 0,
        route: route.to_string(),
        bus_no: no.to_string(),
        trip_no: None,
        captain_id: None,
        trip_rev_kind: None,
        engine_status: 1,
        accessibility: 0,
        busstop_id: None,
        provider: "RKL".to_string(),
    }
}

#[test]
fn schedule_and_feed_route_codes_match() {
    assert!(is_bus_on_route("T789", "T7890"));
    assert!(is_bus_on_route("T7890", "T789"));
    assert!(is_bus_on_route(" t789 ", "T7890"));
    assert!(!is_bus_on_route("T788", "T7890"));
}

#[test]
fn normalize_trims_uppercases_and_drops_trailing_zeros() {
    assert_eq!(normalize_route_code(" t7890 "), "T789");
    assert_eq!(normalize_route_code("T78900"), "T789");
    assert_eq!(normalize_route_code("T7809"), "T7809");
    assert_eq!(normalize_route_code("000"), "");
}

#[test]
fn empty_route_code_matches_nothing() {
    assert!(!is_bus_on_route("", ""));
    assert!(!is_bus_on_route("00", "0"));
}

#[test]
fn t789_spellings() {
    assert!(is_t789_route("T7890"));
    assert!(is_t789_route("t789"));
    assert!(!is_t789_route("T7891"));
}

#[test]
fn fast_vehicle_never_becomes_stationary() {
    let mut state: Option<BusMotionState> = None;
    for i in 0..5i64 {
        let b = bus("B1", "T7890", 3_100_000, 101_600_000, 25_000);
        let s = update_bus_motion_state(state.as_ref(), &b, 0, i * 30_000);
        assert_eq!(s.stationary_since_unix_ms, None);
        assert!(!s.is_stationary(i * 30_000 + 600_000));
        state = Some(s);
    }
}

#[test]
fn parked_vehicle_becomes_stationary_after_window() {
    let b = bus("B1", "T7890", 3_100_000, 101_600_000, 0);
    let s0 = update_bus_motion_state(None, &b, 0, 1_000);
    assert_eq!(s0.stationary_since_unix_ms, Some(1_000));
    let s1 = update_bus_motion_state(Some(&s0), &b, 0, 31_000);
    assert_eq!(s1.stationary_since_unix_ms, Some(1_000));
    assert!(!s1.is_stationary(31_000));
    let s2 = update_bus_motion_state(Some(&s1), &b, 0, 61_000);
    assert!(s2.is_stationary(61_000));
}

#[test]
fn large_drift_resets_anchor() {
    let a = bus("B1", "T7890", 3_100_000, 101_600_000, 0);
    let s0 = update_bus_motion_state(None, &a, 0, 0);
    let moved = bus("B1", "T7890", 3_101_000, 101_600_000, 0);
    let s1 = update_bus_motion_state(Some(&s0), &moved, 111, 70_000);
    assert_eq!(s1.reference_lat_e6, 3_101_000);
    assert_eq!(s1.stationary_since_unix_ms, Some(70_000));
    assert!(!s1.is_stationary(70_000));
}

#[test]
fn small_drift_at_speed_keeps_anchor_and_clears_dwell() {
    let a = bus("B1", "T7890", 3_100_000, 101_600_000, 0);
    let s0 = update_bus_motion_state(None, &a, 0, 0);
    let nudged = bus("B1", "T7890", 3_100_100, 101_600_000, 5_000);
    let s1 = update_bus_motion_state(Some(&s0), &nudged, 11, 10_000);
    assert_eq!(s1.reference_lat_e6, 3_100_000);
    assert_eq!(s1.stationary_since_unix_ms, None);
}

#[test]
fn speed_threshold_is_inclusive() {
    let b = bus("B1", "T7890", 0, 0, 1_000);
    let s = update_bus_motion_state(None, &b, 0, 5);
    assert_eq!(s.stationary_since_unix_ms, Some(5));
    let c = bus("B1", "T7890", 0, 0, 1_001);
    let t = update_bus_motion_state(None, &c, 0, 5);
    assert_eq!(t.stationary_since_unix_ms, None);
}
