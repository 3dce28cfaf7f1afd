use feedquery::engine::{get_earthquakes_from_rows, get_trips_from_rows};
use feedquery::records::{QuakeRow, TripRow};

fn qrow(time: &str, lat: f64, lon: f64, depth: f64, mag: f64, place: &str) -> QuakeRow {
    QuakeRow {
        time_text: Some(time.to_string()),
        latitude: Some(lat.to_bits()),
        longitude: Some(lon.to_bits()),
        depth_km: Some(depth.to_bits()),
        magnitude: Some(mag.to_bits()),
        location: Some(place.to_string()),
    }
}

fn trow(pickup_ns: i64, dropoff_ns: i64, distance: f64, fare: f64) -> TripRow {
    TripRow {
        pickup_ns: Some(pickup_ns),
        dropoff_ns: Some(dropoff_ns),
        distance: Some(distance.to_bits()),
        fare: Some(fare.to_bits()),
    }
}

// 1719783621000 ms is 2024-06-30T21:40:21Z.
const FROM: i64 = 1719783621000;

fn fixture_rows() -> Vec<QuakeRow> {
    vec![
        qrow("2024-06-30T21:41:21+00:00", 1.0, 10.0, 5.0, 3.1, "e"), // FROM + 60000
        qrow("2024-06-30T21:40:20+00:00", 2.0, 20.0, 6.0, 3.2, "before"), // FROM - 1000
        qrow("2024-06-30T21:40:21+00:00", 3.0, 30.0, 7.0, 3.3, "a"), // FROM
        qrow("2024-06-30T21:40:26+00:00", 4.0, 40.0, 8.0, 3.4, "c"), // FROM + 5000
        qrow("2024-06-30T21:42:21+00:00", 5.0, 50.0, 9.0, 3.5, "f"), // FROM + 120000
        qrow("2024-06-30T20:40:21+00:00", 6.0, 60.0, 10.0, 3.6, "before"), // FROM - 3600000
        qrow("2024-06-30T21:40:31Z", 7.0, 70.0, 11.0, 3.7, "d"),     // FROM + 10000
        qrow("2024-06-30T21:44:21+00:00", 8.0, 80.0, 12.0, 3.8, "g"), // FROM + 240000
        qrow("2024-06-30T21:40:22+00:00", 9.0, 90.0, 13.0, 3.9, "b"), // FROM + 1000
        qrow("2024-06-28T21:40:21+00:00", 10.0, 100.0, 14.0, 4.0, "before"), // FROM - 172800000
    ]
}

#[test]
fn five_earliest_at_or_after_bound() {
    // Ten known rows spanning a wider range: the result is the five
    // earliest at or after the bound, ascending, with exact field values.
    let out = get_earthquakes_from_rows(fixture_rows(), FROM, 5);
    assert_eq!(out.len(), 5);
    let times: Vec<i64> = out.iter().map(|q| q.time_ms).collect();
    assert_eq!(
        times,
        vec![FROM, FROM + 1000, FROM + 5000, FROM + 10000, FROM + 60000]
    );
    let places: Vec<&str> = out.iter().map(|q| q.location.as_str()).collect();
    assert_eq!(places, vec!["a", "b", "c", "d", "e"]);
    assert_eq!(f64::from_bits(out[0].latitude_bits), 3.0);
    assert_eq!(f64::from_bits(out[0].longitude_bits), 30.0);
    assert_eq!(f64::from_bits(out[0].depth_km_bits), 7.0);
    assert_eq!(f64::from_bits(out[0].magnitude_bits), 3.3);
    assert_eq!(f64::from_bits(out[4].magnitude_bits), 3.1);
}

#[test]
fn zero_results_is_empty_without_error() {
    let out = get_earthquakes_from_rows(fixture_rows(), FROM, 0);
    assert!(out.is_empty());
    let trips = get_trips_from_rows(vec![trow(5, 10, 1.0, 2.5)], 0, 0);
    assert!(trips.is_empty());
}

#[test]
fn limit_larger_than_matches_returns_all_matches() {
    let out = get_earthquakes_from_rows(fixture_rows(), FROM, 100);
    assert_eq!(out.len(), 7);
    for w in out.windows(2) {
        assert!(w[0].time_ms <= w[1].time_ms);
    }
    for q in &out {
        assert!(q.time_ms >= FROM);
    }
}

#[test]
fn row_with_missing_field_is_dropped() {
    // One row misses a required field and one row's time does not parse:
    // both are excluded; every valid row is kept; no error is raised.
    let mut missing_mag = qrow("2024-06-30T21:40:25+00:00", 1.0, 2.0, 3.0, 4.0, "broken");
    missing_mag.magnitude = None;
    let bad_time = qrow("not-a-timestamp", 1.0, 2.0, 3.0, 4.0, "unparsed");
    let rows = vec![
        qrow("2024-06-30T21:40:23+00:00", 1.5, 2.5, 3.5, 4.5, "ok1"),
        missing_mag,
        bad_time,
        qrow("2024-06-30T21:40:24+00:00", 1.6, 2.6, 3.6, 4.6, "ok2"),
    ];
    let out = get_earthquakes_from_rows(rows, FROM, 10);
    let places: Vec<&str> = out.iter().map(|q| q.location.as_str()).collect();
    assert_eq!(places, vec!["ok1", "ok2"]);
}

#[test]
fn trip_row_with_missing_field_is_dropped() {
    let mut broken = trow(2_000_000_000, 3_000_000_000, 1.0, 2.0);
    broken.fare = None;
    let rows = vec![trow(1_000_000_000, 2_000_000_000, 2.0, 10.0), broken];
    let out = get_trips_from_rows(rows, 0, 10);
    assert_eq!(out.len(), 1);
    assert_eq!(out[0].tpep_pickup_datetime_ns, 1_000_000_000);
}

#[test]
fn identical_queries_return_identical_output() {
    // The real-data path has no hidden randomness: byte-identical output.
    let a = get_earthquakes_from_rows(fixture_rows(), FROM, 5);
    let b = get_earthquakes_from_rows(fixture_rows(), FROM, 5);
    assert_eq!(a, b);
    let t1 = get_trips_from_rows(vec![trow(7, 9, 1.0, 2.0), trow(3, 5, 2.0, 3.0)], 0, 5);
    let t2 = get_trips_from_rows(vec![trow(7, 9, 1.0, 2.0), trow(3, 5, 2.0, 3.0)], 0, 5);
    assert_eq!(t1, t2);
}

#[test]
fn trip_bound_is_scaled_to_nanoseconds() {
    // from_ms = 1000 means pickups from 1_000_000_000 ns on.
    let rows = vec![
        trow(999_999_999, 2_000_000_000, 1.0, 5.0),
        trow(1_000_000_000, 2_000_000_000, 2.0, 6.0),
        trow(1_000_000_001, 2_000_000_000, 3.0, 7.0),
    ];
    let out = get_trips_from_rows(rows, 1000, 10);
    let pickups: Vec<i64> = out.iter().map(|t| t.tpep_pickup_datetime_ns).collect();
    assert_eq!(pickups, vec![1_000_000_000, 1_000_000_001]);
}

#[test]
fn trips_sorted_ascending_and_limited() {
    let rows = vec![
        trow(5_000_000_000, 6_000_000_000, 1.0, 10.0),
        trow(1_000_000_000, 2_000_000_000, 2.0, 20.0),
        trow(4_000_000_000, 5_000_000_000, 3.0, 30.0),
        trow(2_000_000_000, 3_000_000_000, 4.0, 40.0),
    ];
    let out = get_trips_from_rows(rows, 0, 3);
    let pickups: Vec<i64> = out.iter().map(|t| t.tpep_pickup_datetime_ns).collect();
    assert_eq!(
        pickups,
        vec![1_000_000_000, 2_000_000_000, 4_000_000_000]
    );
    assert_eq!(f64::from_bits(out[0].trip_distance_bits), 2.0);
    assert_eq!(f64::from_bits(out[0].fare_amount_bits), 20.0);
    assert_eq!(f64::from_bits(out[2].fare_amount_bits), 30.0);
}

#[test]
fn rfc3339_time_is_parsed_to_epoch_milliseconds() {
    // Would fail if the time text were passed through unparsed.
    let rows = vec![qrow("2024-06-30T21:40:21+00:00", 0.0, 0.0, 0.0, 0.0, "x")];
    let out = get_earthquakes_from_rows(rows, 0, 1);
    assert_eq!(out.len(), 1);
    assert_eq!(out[0].time_ms, 1719783621000);
    // an offset shifts the instant: 21:40:21+02:00 is 19:40:21Z
    let rows = vec![qrow("2024-06-30T21:40:21+02:00", 0.0, 0.0, 0.0, 0.0, "y")];
    let out = get_earthquakes_from_rows(rows, 0, 1);
    assert_eq!(out[0].time_ms, 1719783621000 - 7_200_000);
}
