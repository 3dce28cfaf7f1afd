use feedquery::partition::{
    artifact_path, plan_cache, raw_path, source_url, CacheAction, PartitionId, PipelineError,
    ROLLING_FEED_MAX_AGE_MS,
};

#[test]
fn monthly_artifact_path_is_deterministic() {
    let p = PartitionId::Month { year: 2024, month: 1 };
    assert_eq!(artifact_path(&p), "/tmp/yellow_tripdata_2024-01.parquet");
    assert_eq!(artifact_path(&p), artifact_path(&p));
}

#[test]
fn monthly_month_is_zero_padded() {
    let p = PartitionId::Month { year: 2024, month: 11 };
    assert_eq!(artifact_path(&p), "/tmp/yellow_tripdata_2024-11.parquet");
    let q = PartitionId::Month { year: 2009, month: 3 };
    assert_eq!(artifact_path(&q), "/tmp/yellow_tripdata_2009-03.parquet");
}

#[test]
fn monthly_source_url() {
    let p = PartitionId::Month { year: 2024, month: 1 };
    assert_eq!(
        source_url(&p),
        "https://d37ci6vzurychx.cloudfront.net/trip-data/yellow_tripdata_2024-01.parquet"
    );
}

#[test]
fn monthly_raw_payload_is_the_artifact() {
    let p = PartitionId::Month { year: 2024, month: 1 };
    assert_eq!(raw_path(&p), artifact_path(&p));
}

#[test]
fn rolling_paths_and_url() {
    let p = PartitionId::RollingFeed;
    assert_eq!(raw_path(&p), "/tmp/earthquakes.csv");
    assert_eq!(artifact_path(&p), "/tmp/earthquakes.parquet");
    assert_eq!(
        source_url(&p),
        "https://earthquake.usgs.gov/earthquakes/feed/v1.0/summary/all_month.csv"
    );
}

#[test]
fn uncached_partition_fetches_exactly_once() {
    // First request against an uncached partition: one fetch to the
    // deterministic path; the second request sees the cache and fetches
    // nothing.
    let p = PartitionId::Month { year: 2024, month: 1 };
    let mut fetch_count = 0;
    let mut cached = false;
    let mut artifact_written = String::new();

    for _ in 0..2 {
        match plan_cache(&p, cached, 0) {
            CacheAction::FetchDirect { url, artifact } => {
                fetch_count += 1;
                assert_eq!(
                    url,
                    "https://d37ci6vzurychx.cloudfront.net/trip-data/yellow_tripdata_2024-01.parquet"
                );
                artifact_written = artifact;
                cached = true;
            }
            CacheAction::UseCached { artifact } => {
                assert_eq!(artifact, artifact_written);
            }
            CacheAction::FetchConvert { .. } => {
                panic!("monthly partitions are fetched already columnar");
            }
        }
    }
    assert_eq!(fetch_count, 1);
    assert_eq!(artifact_written, "/tmp/yellow_tripdata_2024-01.parquet");
}

#[test]
fn uncached_rolling_feed_fetches_and_converts_once() {
    let p = PartitionId::RollingFeed;
    let mut fetch_count = 0;
    let mut cached = false;

    for _ in 0..2 {
        match plan_cache(&p, cached, 0) {
            CacheAction::FetchConvert { url, raw, artifact } => {
                fetch_count += 1;
                assert_eq!(
                    url,
                    "https://earthquake.usgs.gov/earthquakes/feed/v1.0/summary/all_month.csv"
                );
                assert_eq!(raw, "/tmp/earthquakes.csv");
                assert_eq!(artifact, "/tmp/earthquakes.parquet");
                cached = true;
            }
            CacheAction::UseCached { artifact } => {
                assert_eq!(artifact, "/tmp/earthquakes.parquet");
            }
            CacheAction::FetchDirect { .. } => {
                panic!("the rolling feed needs conversion");
            }
        }
    }
    assert_eq!(fetch_count, 1);
}

#[test]
fn error_descriptions() {
    assert_eq!(
        PipelineError::Fetch.describe(),
        "fetching the upstream partition failed"
    );
    assert_eq!(
        PipelineError::Conversion.describe(),
        "converting the raw payload failed"
    );
    assert_eq!(
        PipelineError::SchemaMismatch.describe(),
        "cached artifact lacks a required column"
    );
    assert_eq!(
        PipelineError::Storage.describe(),
        "cached artifact is unreadable"
    );
}

#[test]
fn stale_rolling_feed_is_fetched_anew() {
    // the rolling feed is always current upstream: a cached copy past its
    // maximum age is re-fetched and re-converted
    let p = PartitionId::RollingFeed;
    match plan_cache(&p, true, ROLLING_FEED_MAX_AGE_MS + 1) {
        CacheAction::FetchConvert { raw, artifact, .. } => {
            assert_eq!(raw, "/tmp/earthquakes.csv");
            assert_eq!(artifact, "/tmp/earthquakes.parquet");
        }
        _ => panic!("a stale rolling-feed copy must be re-fetched"),
    }
    match plan_cache(&p, true, ROLLING_FEED_MAX_AGE_MS) {
        CacheAction::UseCached { artifact } => {
            assert_eq!(artifact, "/tmp/earthquakes.parquet");
        }
        _ => panic!("a fresh rolling-feed copy must be served from cache"),
    }
}

#[test]
fn monthly_artifact_never_goes_stale() {
    // monthly archive files are immutable: age does not matter
    let p = PartitionId::Month { year: 2024, month: 1 };
    match plan_cache(&p, true, i64::MAX) {
        CacheAction::UseCached { artifact } => {
            assert_eq!(artifact, "/tmp/yellow_tripdata_2024-01.parquet");
        }
        _ => panic!("an immutable monthly artifact is never re-fetched"),
    }
}
