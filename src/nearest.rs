use vstd::prelude::*;
use crate::resolver::{first_min, lemma_first_min};

verus! {

/// Why no nearest stop can be named.
#[derive(Clone, Copy, PartialEq, Eq, Debug)]
pub enum NearestStopError {
    /// Latitude outside [-90, 90] or longitude outside [-180, 180] degrees.
    InvalidCoordinates,
    /// No stops are loaded.
    NoStops,
}

/// Latitude and longitude, in millionths of a degree, lie on the globe.
pub open spec fn coordinates_valid(lat_e6: int, lon_e6: int) -> bool {
    -90_000_000 <= lat_e6 <= 90_000_000 && -180_000_000 <= lon_e6 <= 180_000_000
}

pub fn valid_coordinates(lat_e6: i64, lon_e6: i64) -> (r: bool)
    ensures
        r == coordinates_valid(lat_e6 as int, lon_e6 as int),
{
    -90_000_000 <= lat_e6 && lat_e6 <= 90_000_000 && -180_000_000 <= lon_e6 && lon_e6
        <= 180_000_000
}

/// Picks the stop nearest to a query point: the index of the first
/// smallest of `distances`, where `distances[i]` is the distance from the
/// point to the `i`-th stop. The point is checked first.
pub fn get_nearest_stop(lat_e6: i64, lon_e6: i64, distances: &Vec<u64>) -> (r: Result<
    usize,
    NearestStopError,
>)
    ensures
        match r {
            Err(NearestStopError::InvalidCoordinates) => !coordinates_valid(
                lat_e6 as int,
                lon_e6 as int,
            ),
            Err(NearestStopError::NoStops) => coordinates_valid(lat_e6 as int, lon_e6 as int)
                && distances@.len() == 0,
            Ok(k) => {
                &&& coordinates_valid(lat_e6 as int, lon_e6 as int)
                &&& distances@.len() > 0
                &&& k == first_min(distances@, distances@.len() as int)
                &&& k < distances@.len()
                &&& forall|j: int| 0 <= j < distances@.len() ==> distances@[k as int] <= #[trigger] distances@[j]
            },
        },
{
    if !valid_coordinates(lat_e6, lon_e6) {
        return Err(NearestStopError::InvalidCoordinates);
    }
    let n = distances.len();
    if n == 0 {
        return Err(NearestStopError::NoStops);
    }
    let mut best: usize = 0;
    let mut i: usize = 1;
    while i < n
        invariant
            1 <= i <= n,
            n == distances@.len(),
            best == first_min(distances@, i as int),
        decreases n - i,
    {
        proof {
            lemma_first_min(distances@, i as int);
        }
        if distances[i] < distances[best] {
            best = i;
        }
        i = i + 1;
    }
    proof {
        lemma_first_min(distances@, n as int);
    }
    Ok(best)
}

} // verus!
