use vstd::prelude::*;
use crate::vehicle::BusPosition;

verus! {

/// At or below this reported speed (1 km/h, in metres per hour) a vehicle counts as slow.
pub const STATIONARY_SPEED_THRESHOLD_MPH: i64 = 1000;

/// A drift from the anchor of at least this many metres is real movement.
pub const STATIONARY_DISTANCE_THRESHOLD_M: u64 = 30;

/// Minimum dwell, in milliseconds, before a slow vehicle counts as stationary.
pub const STATIONARY_WINDOW_MS: i64 = 60000;

/// Per-vehicle motion state: an anchor position and, while the vehicle has
/// stayed slow near that anchor, the time the dwell began.
#[derive(Clone, Copy, PartialEq, Eq, Debug)]
pub struct BusMotionState {
    pub reference_lat_e6: i64,
    pub reference_lon_e6: i64,
    pub stationary_since_unix_ms: Option<i64>,
}

pub open spec fn is_slow(bus: BusPosition) -> bool {
    bus.speed_mph <= STATIONARY_SPEED_THRESHOLD_MPH
}

/// The motion state after one sample. `drift_m` is the distance from the
/// sample to the prior anchor; without a prior state the sample is its own
/// anchor and the drift is zero whatever was passed.
pub open spec fn classify(
    prior: Option<BusMotionState>,
    bus: BusPosition,
    drift_m: nat,
    now: int,
) -> BusMotionState {
    let slow = is_slow(bus);
    match prior {
        None => BusMotionState {
            reference_lat_e6: bus.latitude_e6,
            reference_lon_e6: bus.longitude_e6,
            stationary_since_unix_ms: if slow { Some(now as i64) } else { None },
        },
        Some(p) => if drift_m >= STATIONARY_DISTANCE_THRESHOLD_M {
            BusMotionState {
                reference_lat_e6: bus.latitude_e6,
                reference_lon_e6: bus.longitude_e6,
                stationary_since_unix_ms: if slow { Some(now as i64) } else { None },
            }
        } else if slow {
            BusMotionState {
                stationary_since_unix_ms: match p.stationary_since_unix_ms {
                    Some(t) => Some(t),
                    None => Some(now as i64),
                },
                ..p
            }
        } else {
            BusMotionState { stationary_since_unix_ms: None, ..p }
        },
    }
}

/// Whether a vehicle in motion state `s` counts as stationary at `now`.
pub open spec fn stationary_at(s: BusMotionState, now: int) -> bool {
    match s.stationary_since_unix_ms {
        Some(t) => now - t >= STATIONARY_WINDOW_MS,
        None => false,
    }
}

/// Folds one position sample into the vehicle's motion state.
pub fn update_bus_motion_state(
    previous_state: Option<&BusMotionState>,
    bus: &BusPosition,
    drift_m: u64,
    now_ms: i64,
) -> (r: BusMotionState)
    ensures
        r == classify(
            match previous_state {
                Some(p) => Some(*p),
                None => None,
            },
            *bus,
            drift_m as nat,
            now_ms as int,
        ),
{
    let slow = bus.speed_mph <= STATIONARY_SPEED_THRESHOLD_MPH;
    let since_now = if slow { Some(now_ms) } else { None };
    match previous_state {
        None => BusMotionState {
            reference_lat_e6: bus.latitude_e6,
            reference_lon_e6: bus.longitude_e6,
            stationary_since_unix_ms: since_now,
        },
        Some(p) => {
            if drift_m >= STATIONARY_DISTANCE_THRESHOLD_M {
                BusMotionState {
                    reference_lat_e6: bus.latitude_e6,
                    reference_lon_e6: bus.longitude_e6,
                    stationary_since_unix_ms: since_now,
                }
            } else if slow {
                let since = match p.stationary_since_unix_ms {
                    Some(t) => Some(t),
                    None => Some(now_ms),
                };
                BusMotionState {
                    reference_lat_e6: p.reference_lat_e6,
                    reference_lon_e6: p.reference_lon_e6,
                    stationary_since_unix_ms: since,
                }
            } else {
                BusMotionState {
                    reference_lat_e6: p.reference_lat_e6,
                    reference_lon_e6: p.reference_lon_e6,
                    stationary_since_unix_ms: None,
                }
            }
        },
    }
}

impl BusMotionState {
    /// Slow near the anchor for at least the stationary window.
    pub fn is_stationary(&self, now_ms: i64) -> (r: bool)
        ensures
            r == stationary_at(*self, now_ms as int),
    {
        match self.stationary_since_unix_ms {
            Some(t) => (now_ms as i128) - (t as i128) >= STATIONARY_WINDOW_MS as i128,
            None => false,
        }
    }
}

/// A sample reported above the speed threshold leaves the vehicle
/// non-stationary at every later time, whatever came before; so a vehicle
/// that keeps reporting such speeds never becomes stationary.
pub proof fn lemma_fast_sample_not_stationary(
    prior: Option<BusMotionState>,
    bus: BusPosition,
    drift_m: nat,
    now: int,
    later: int,
)
    requires
        bus.speed_mph > STATIONARY_SPEED_THRESHOLD_MPH,
    ensures
        !stationary_at(classify(prior, bus, drift_m, now), later),
{
}

/// A vehicle that reports a speed at or below the threshold and does not
/// move from where it was first seen becomes stationary once the window has
/// passed since that first sighting.
pub proof fn lemma_parked_becomes_stationary(
    bus: BusPosition,
    first_ms: i64,
    later_ms: i64,
)
    requires
        is_slow(bus),
        later_ms - first_ms >= STATIONARY_WINDOW_MS,
    ensures
        stationary_at(
            classify(Some(classify(None, bus, 0, first_ms as int)), bus, 0, later_ms as int),
            later_ms as int,
        ),
{
}

} // verus!
