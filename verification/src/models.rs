//! Data carried through a refresh cycle.
//!
//! Positions and the experience statistic are held as scaled integers so that
//! every rule about them can be stated exactly: latitudes and longitudes in
//! millionths of a degree, distances in hundredths of a nautical mile, and
//! experience times in hundredths of an hour. The outer layer that talks to
//! the network converts to and from these units.

use vstd::prelude::*;

verus! {

/// Payload of the service's status endpoint: the candidate data endpoints.
pub struct StatusData {
    pub v3: Vec<String>,
}

/// Response of the service's status endpoint.
pub struct Status {
    pub data: StatusData,
}

/// The aircraft description fields of a filed flight plan.
pub struct FlightPlan {
    pub aircraft: String,
    pub aircraft_faa: String,
    pub aircraft_short: String,
}

/// One currently-connected pilot, as of the latest fetch. A value of this
/// type is a snapshot: a new fetch supersedes it entirely.
pub struct Pilot {
    /// Stable numeric identity; selection survives refreshes through it.
    pub cid: u64,
    pub name: String,
    pub callsign: String,
    /// Latitude in millionths of a degree, signed.
    pub latitude_udeg: i64,
    /// Longitude in millionths of a degree, signed.
    pub longitude_udeg: i64,
    pub altitude: i64,
    pub transponder: String,
    pub flight_plan: Option<FlightPlan>,
    pub logon_time: String,
}

/// Payload of the live-data endpoint: all currently-connected pilots.
pub struct V3ResponseData {
    pub pilots: Vec<Pilot>,
}

/// Cumulative time a user has spent on the network, in hundredths of an
/// hour: the per-pilot experience statistic resolved once per appearance.
#[derive(Clone, Copy, PartialEq, Eq, Structural, Debug)]
pub struct RatingsData {
    /// Hundredths of an hour flown as a pilot; the sort key of the table.
    pub pilot: u64,
    /// Hundredths of an hour worked as a controller.
    pub atc: u64,
}

/// One row of the displayed table: a pilot in range of the airport together
/// with their resolved experience statistic.
pub struct RankedPilot {
    pub pilot: Pilot,
    pub stat: RatingsData,
}

} // verus!
