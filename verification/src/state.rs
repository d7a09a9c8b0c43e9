//! Aircraft state vectors, as one call of the flight-tracking service
//! reports them.

use crate::binary64::Binary64;
use crate::coords::Point;
use vstd::prelude::*;

verus! {

/// One aircraft's reported state. A field that the service did not know is
/// `None`.
#[derive(Clone, Debug)]
pub struct OpenskyState {
    /// The transponder address, in hexadecimal.
    pub icao24: String,
    pub callsign: String,
    pub origin_country: String,
    pub time_position: Option<usize>,
    pub last_contact: usize,
    /// Degrees east; negative in the west.
    pub longitude: Option<Binary64>,
    /// Degrees north; negative in the south.
    pub latitude: Option<Binary64>,
    pub baro_altitude: Option<Binary64>,
    pub on_ground: bool,
    pub velocity: Option<Binary64>,
    pub true_track: Binary64,
    pub vertical_rate: Option<Binary64>,
    pub sensors: Option<Vec<usize>>,
    pub geo_altitude: Option<Binary64>,
    pub squawk: Option<String>,
    /// The special position indicator.
    pub spi: bool,
    pub position_source: usize,
}

/// The answer to one call: the states of all aircraft, in the order in which
/// the service listed them.
#[derive(Clone, Debug)]
pub struct OpenskyResponse {
    pub states: Vec<OpenskyState>,
}

impl OpenskyState {
    /// Whether both the latitude and the longitude are known.
    pub open spec fn located(&self) -> bool {
        self.latitude is Some && self.longitude is Some
    }

    /// The aircraft's position; meaningful where it is located.
    pub open spec fn point(&self) -> Point {
        Point { lat: self.latitude->0, lon: self.longitude->0 }
    }

    /// The position of the aircraft, unless a coordinate is unknown.
    pub fn position(&self) -> (r: Option<Point>)
        ensures
            r is Some <==> self.located(),
            self.located() ==> r == Some(self.point()),
    {
        match (self.latitude, self.longitude) {
            (Some(lat), Some(lon)) => Some(Point { lat, lon }),
            _ => None,
        }
    }
}

} // verus!
