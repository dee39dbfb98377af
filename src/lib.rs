//! Live bus fleet tracking: route-code matching, motion classification,
//! stop resolution, arrival-time estimation, a freshness-bounded fleet
//! cache and the reconnecting feed ingestor's decision logic.
//!
//! Coordinates are integers in millionths of a degree, distances are whole
//! metres and speeds are metres per hour. Great-circle distances are measured
//! by the caller and handed in.
pub mod route_code;
pub mod vehicle;
pub mod motion;
pub mod schedule;
pub mod resolver;
pub mod eta;
pub mod fleet;
pub mod ingest;
pub mod frame;
pub mod nearest;
pub mod clock;
