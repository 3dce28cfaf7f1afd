//! Domain records and the row mapper.
//!
//! A raw row, as decoded from a columnar artifact, carries every required
//! field as an `Option` of a plain value: event times as unix-epoch
//! integers (or RFC 3339 text for the seismic feed, which stores time as
//! text), and floating-point measurements as their IEEE-754 bit patterns,
//! which this crate never interprets arithmetically.  The mapper turns a
//! raw row into a fully resolved record, and drops the row — rather than
//! inventing a placeholder — as soon as any required field is absent or
//! its time text does not parse.

use vstd::prelude::*;

verus! {

/// A seismic event.  `time_ms` is unix epoch milliseconds; the four
/// measurements are IEEE-754 double bit patterns, carried opaquely.
#[derive(Clone, Debug, PartialEq)]
pub struct Earthquake {
    pub time_ms: i64,
    pub latitude_bits: u64,
    pub longitude_bits: u64,
    pub depth_km_bits: u64,
    pub magnitude_bits: u64,
    pub location: String,
}

/// A taxi trip.  Times are unix epoch nanoseconds, the artifact's native
/// unit; the two amounts are IEEE-754 double bit patterns.
#[derive(Clone, Copy, Debug, PartialEq, Eq, Structural)]
pub struct Trip {
    pub tpep_pickup_datetime_ns: i64,
    pub tpep_dropoff_datetime_ns: i64,
    pub trip_distance_bits: u64,
    pub fare_amount_bits: u64,
}

/// One projected row of the seismic artifact; `None` marks a missing value.
#[derive(Clone, Debug)]
pub struct QuakeRow {
    /// Event time as RFC 3339 text, as the feed stores it.
    pub time_text: Option<String>,
    pub latitude: Option<u64>,
    pub longitude: Option<u64>,
    pub depth_km: Option<u64>,
    pub magnitude: Option<u64>,
    pub location: Option<String>,
}

/// One projected row of the trip artifact; `None` marks a missing value.
#[derive(Clone, Copy, Debug)]
pub struct TripRow {
    pub pickup_ns: Option<i64>,
    pub dropoff_ns: Option<i64>,
    pub distance: Option<u64>,
    pub fare: Option<u64>,
}

/// The unix-epoch milliseconds denoted by an RFC 3339 timestamp text, or
/// `None` where the text is not a valid RFC 3339 timestamp.  The value is
/// a function of the text alone.
pub uninterp spec fn rfc3339_epoch_ms(s: Seq<char>) -> Option<i64>;

/// Relies on chrono's `DateTime::parse_from_rfc3339` and
/// `timestamp_millis`: parsing either fails or yields a date and time
/// whose epoch milliseconds both depend on the text alone.
#[verifier::external_body]
fn parse_rfc3339_ms(s: &str) -> (r: Option<i64>)
    ensures
        r == rfc3339_epoch_ms(s@),
{
    match chrono::DateTime::parse_from_rfc3339(s) {
        Ok(t) => Some(t.timestamp_millis()),
        Err(_) => None,
    }
}

/// The record a seismic row denotes: `Some` exactly when every required
/// field is present and the time text parses as RFC 3339.
pub open spec fn quake_of_row(row: QuakeRow) -> Option<Earthquake> {
    match (row.time_text, row.latitude, row.longitude, row.depth_km, row.magnitude, row.location) {
        (Some(ts), Some(la), Some(lo), Some(de), Some(ma), Some(pl)) => match rfc3339_epoch_ms(
            ts@,
        ) {
            Some(t) => Some(
                Earthquake {
                    time_ms: t,
                    latitude_bits: la,
                    longitude_bits: lo,
                    depth_km_bits: de,
                    magnitude_bits: ma,
                    location: pl,
                },
            ),
            None => None,
        },
        _ => None,
    }
}

/// The record a trip row denotes: `Some` exactly when every required
/// field is present.
pub open spec fn trip_of_row(row: TripRow) -> Option<Trip> {
    match (row.pickup_ns, row.dropoff_ns, row.distance, row.fare) {
        (Some(pu), Some(dr), Some(di), Some(fa)) => Some(
            Trip {
                tpep_pickup_datetime_ns: pu,
                tpep_dropoff_datetime_ns: dr,
                trip_distance_bits: di,
                fare_amount_bits: fa,
            },
        ),
        _ => None,
    }
}

/// Map one seismic row to its record, or drop it.
pub fn map_quake_row(row: QuakeRow) -> (q: Option<Earthquake>)
    ensures
        q == quake_of_row(row),
{
    match (row.time_text, row.latitude, row.longitude, row.depth_km, row.magnitude, row.location) {
        (Some(ts), Some(la), Some(lo), Some(de), Some(ma), Some(pl)) => match parse_rfc3339_ms(
            ts.as_str(),
        ) {
            Some(t) => Some(
                Earthquake {
                    time_ms: t,
                    latitude_bits: la,
                    longitude_bits: lo,
                    depth_km_bits: de,
                    magnitude_bits: ma,
                    location: pl,
                },
            ),
            None => None,
        },
        _ => None,
    }
}

/// Map one trip row to its record, or drop it.
pub fn map_trip_row(row: TripRow) -> (t: Option<Trip>)
    ensures
        t == trip_of_row(row),
{
    match (row.pickup_ns, row.dropoff_ns, row.distance, row.fare) {
        (Some(pu), Some(dr), Some(di), Some(fa)) => Some(
            Trip {
                tpep_pickup_datetime_ns: pu,
                tpep_dropoff_datetime_ns: dr,
                trip_distance_bits: di,
                fare_amount_bits: fa,
            },
        ),
        _ => None,
    }
}

} // verus!
