use base64::Engine;
use rapidbro::clock::now_unix_ms;
use rapidbro::fleet::{is_bus_stationary, is_stale, FleetCache};
use rapidbro::frame::decode_bus_data;
use rapidbro::ingest::{ConnectionPhase, Ingestor, IngestorAction, IngestorEvent, IngestorStatus};
use rapidbro::nearest::{get_nearest_stop, valid_coordinates, NearestStopError};
use rapidbro::vehicle::BusPosition;
use std::io::Write;

fn bus(no: &str) -> BusPosition {
    BusPosition {
        dt_received: Some("2024-01-01 08:00:00".to_string()),
        dt_gps: None,
        latitude_e6: 3_100_000,
        longitude_e6: 101_600_000,
        dir: None,
        speed_mph: 30_000,
        angle_cdeg: 9_000,
        route: "T7890".to_string(),
        bus_no: no.to_string(),
        trip_no: None,
        captain_id: None,
        trip_rev_kind: None,
        engine_status: 1,
        accessibility: 0,
        busstop_id: None,
        provider: "RKL".to_string(),
    }
}

#[test]
fn fresh_write_is_in_snapshot() {
    let mut cache = FleetCache::new();
    assert!(cache.write(&bus("B7"), 0, 5_000));
    let (snap, evicted) = cache.snapshot(1, 5_000);
    assert!(evicted.is_empty());
    assert_eq!(snap.active_bus_count, 1);
    assert_eq!(snap.buses[0].bus_no, "B7");
    assert_eq!(snap.motion_states.len(), 1);
}

#[test]
fn expired_write_leaves_every_index() {
    let mut cache = FleetCache::new();
    cache.write(&bus("B7"), 0, 5_000);
    let (snap, evicted) = cache.snapshot(1_000, 6_000);
    assert_eq!(evicted, vec!["B7".to_string()]);
    assert_eq!(snap.active_bus_count, 0);
    assert!(snap.buses.is_empty());
    assert!(snap.motion_states.is_empty());
    assert!(cache.entries.is_empty());
    let (again, evicted) = cache.snapshot(1_000, 6_000);
    assert!(evicted.is_empty());
    assert_eq!(again.active_bus_count, 0);
}

#[test]
fn rewrite_replaces_entry() {
    let mut cache = FleetCache::new();
    cache.write(&bus("B7"), 0, 5_000);
    let mut moved = bus("B7");
    moved.latitude_e6 = 3_200_000;
    cache.write(&moved, 11_000, 9_000);
    assert_eq!(cache.entries.len(), 1);
    assert_eq!(cache.entries[0].last_seen_unix_ms, 9_000);
    assert_eq!(cache.entries[0].position.as_ref().unwrap().latitude_e6, 3_200_000);
    assert_eq!(cache.last_ingest_at_unix_ms, Some(9_000));
}

#[test]
fn nameless_position_is_ignored() {
    let mut cache = FleetCache::new();
    assert!(!cache.write(&bus(""), 0, 5_000));
    assert!(cache.entries.is_empty());
    assert_eq!(cache.last_ingest_at_unix_ms, None);
}

#[test]
fn staleness() {
    assert!(is_stale(None, 100, 20_000));
    assert!(!is_stale(Some(80_000), 100_000, 20_000));
    assert!(is_stale(Some(79_999), 100_000, 20_000));
}

#[test]
fn unclassified_vehicle_is_not_stationary() {
    let mut cache = FleetCache::new();
    cache.write(&bus("B7"), 0, 5_000);
    let (snap, _) = cache.snapshot(120_000, 5_000);
    assert!(!is_bus_stationary(&snap, "B7", 500_000));
    assert!(!is_bus_stationary(&snap, "nobody", 500_000));
}

#[test]
fn backoff_doubles_to_cap_and_resets() {
    let mut ing = Ingestor::new();
    let mut sleeps = Vec::new();
    for _ in 0..7 {
        assert_eq!(ing.step(IngestorEvent::Retry), IngestorAction::Open);
        match ing.step(IngestorEvent::Failed("connect refused".to_string())) {
            IngestorAction::Sleep(s) => sleeps.push(s),
            other => panic!("unexpected {:?}", other),
        }
    }
    assert_eq!(sleeps, vec![1, 2, 4, 8, 16, 30, 30]);
    assert_eq!(ing.status.reconnect_count, 7);
    assert_eq!(ing.status.last_error.as_deref(), Some("connect refused"));
    assert_eq!(ing.step(IngestorEvent::Retry), IngestorAction::Open);
    assert_eq!(ing.step(IngestorEvent::Opened), IngestorAction::SendSubscribe);
    assert_eq!(ing.step(IngestorEvent::Subscribed), IngestorAction::Listen(20));
    assert_eq!(ing.phase, ConnectionPhase::Connected);
    assert!(ing.status.connected);
    assert_eq!(ing.backoff_seconds, 1);
    assert_eq!(ing.step(IngestorEvent::KeepaliveDue), IngestorAction::SendSubscribe);
    assert_eq!(ing.step(IngestorEvent::Failed("disconnect".to_string())), IngestorAction::Sleep(1));
    assert!(!ing.status.connected);
    assert_eq!(ing.backoff_seconds, 2);
}

#[test]
fn status_counters() {
    let mut st = IngestorStatus::new();
    st.record_frame(10, 2);
    st.record_frame(20, 0);
    st.record_write(5);
    st.record_write_failure("down".to_string());
    assert_eq!(st.messages_processed, 2);
    assert_eq!(st.decode_failures, 2);
    assert_eq!(st.last_message_unix_ms, Some(20));
    assert_eq!(st.buses_written, 5);
    assert_eq!(st.redis_write_failures, 1);
    assert_eq!(st.last_error.as_deref(), Some("down"));
    st.record_write(1);
    assert_eq!(st.last_error, None);
}

#[test]
fn frame_decoding() {
    let text = "[{\"bus_no\":\"B1\"}]";
    let mut enc = flate2::write::GzEncoder::new(Vec::new(), flate2::Compression::default());
    enc.write_all(text.as_bytes()).unwrap();
    let gz = enc.finish().unwrap();
    let framed = base64::engine::general_purpose::STANDARD.encode(&gz);
    assert_eq!(decode_bus_data(&framed).as_deref(), Some(text));
    assert_eq!(decode_bus_data("not base64 !!"), None);
    let plain = base64::engine::general_purpose::STANDARD.encode(text.as_bytes());
    assert_eq!(decode_bus_data(&plain), None);
}

#[test]
fn nearest_stop_rejects_bad_latitude() {
    assert!(matches!(
        get_nearest_stop(91_000_000, 0, &vec![1, 2]),
        Err(NearestStopError::InvalidCoordinates)
    ));
    assert!(matches!(
        get_nearest_stop(0, -180_000_001, &vec![1, 2]),
        Err(NearestStopError::InvalidCoordinates)
    ));
    assert!(valid_coordinates(90_000_000, -180_000_000));
}

#[test]
fn nearest_stop_picks_first_minimum() {
    assert!(matches!(get_nearest_stop(0, 0, &vec![]), Err(NearestStopError::NoStops)));
    assert_eq!(get_nearest_stop(3_000_000, 101_000_000, &vec![900, 400, 400, 700]).unwrap(), 1);
}

#[test]
fn clock_is_after_2020() {
    assert!(now_unix_ms() > 1_577_836_800_000);
}
