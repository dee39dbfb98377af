use vstd::prelude::*;

verus! {

/// A copy of an optional string that is equal to it.
pub fn clone_opt_string(o: &Option<String>) -> (r: Option<String>)
    ensures
        r == *o,
{
    match o {
        Some(s) => Some(s.clone()),
        None => None,
    }
}

/// One decoded live position report of a vehicle.
///
/// Coordinates are in millionths of a degree, speed in metres per hour
/// (a reported 25 km/h is `25_000`), heading in hundredths of a degree.
pub struct BusPosition {
    pub dt_received: Option<String>,
    pub dt_gps: Option<String>,
    pub latitude_e6: i64,
    pub longitude_e6: i64,
    pub dir: Option<String>,
    pub speed_mph: i64,
    pub angle_cdeg: i64,
    pub route: String,
    pub bus_no: String,
    pub trip_no: Option<String>,
    pub captain_id: Option<String>,
    pub trip_rev_kind: Option<String>,
    pub engine_status: i32,
    pub accessibility: i32,
    pub busstop_id: Option<String>,
    pub provider: String,
}

impl Clone for BusPosition {
    fn clone(&self) -> (r: Self)
        ensures
            r == *self,
    {
        BusPosition {
            dt_received: clone_opt_string(&self.dt_received),
            dt_gps: clone_opt_string(&self.dt_gps),
            latitude_e6: self.latitude_e6,
            longitude_e6: self.longitude_e6,
            dir: clone_opt_string(&self.dir),
            speed_mph: self.speed_mph,
            angle_cdeg: self.angle_cdeg,
            route: self.route.clone(),
            bus_no: self.bus_no.clone(),
            trip_no: clone_opt_string(&self.trip_no),
            captain_id: clone_opt_string(&self.captain_id),
            trip_rev_kind: clone_opt_string(&self.trip_rev_kind),
            engine_status: self.engine_status,
            accessibility: self.accessibility,
            busstop_id: clone_opt_string(&self.busstop_id),
            provider: self.provider.clone(),
        }
    }
}

} // verus!
