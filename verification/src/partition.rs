//! Partition addressing and cache planning.
//!
//! A partition is the unit of upstream data this crate caches: the rolling
//! seismic feed is one partition covering all time, and the trip archive
//! has one partition per calendar month.  Every partition has a
//! deterministic local artifact path and upstream URL, so repeated
//! requests for the same window address the same cache entry.  The cache
//! step itself is planned here and carried out by the caller: given
//! whether the artifact is already present, `plan_cache` says either to
//! use it, or exactly which URL to fetch and where the artifact must be
//! written.

use vstd::prelude::*;
use crate::calendar::year_month_resolves;

verus! {

/// Identifies one cacheable unit of upstream data.
#[derive(Clone, Copy, Debug, PartialEq, Eq, Structural)]
pub enum PartitionId {
    /// The single rolling seismic feed: one partition covers all time.
    RollingFeed,
    /// One calendar month of the partitioned trip archive.
    Month { year: i32, month: i32 },
}

/// A month partition names a real calendar month no earlier than the
/// epoch.
pub open spec fn partition_wf(p: PartitionId) -> bool {
    match p {
        PartitionId::RollingFeed => true,
        PartitionId::Month { year, month } => 1970 <= year && 1 <= month <= 12,
    }
}

/// Resolve a time window over the rolling feed: the single partition
/// covers every timestamp.
pub fn resolve_rolling_partition(from_ms: i64) -> (p: PartitionId)
    ensures
        p == PartitionId::RollingFeed,
        partition_wf(p),
{
    PartitionId::RollingFeed
}

/// Resolve a time window over the monthly archive: only the month
/// containing `from_ms` is resolved, never a neighbouring one, so a
/// window that crosses a month boundary deliberately yields only that
/// month's contents.
pub fn resolve_month_partition(from_ms: i64) -> (p: PartitionId)
    requires
        0 <= from_ms,
    ensures
        partition_wf(p),
        match p {
            PartitionId::Month { year, month } => year_month_resolves(
                from_ms as int,
                year as int,
                month as int,
            ),
            PartitionId::RollingFeed => false,
        },
{
    let (year, month) = crate::calendar::get_year_and_month(from_ms);
    proof {
        crate::calendar::lemma_epoch_times_resolve_from_1970(
            from_ms as int,
            year as int,
            month as int,
        );
    }
    PartitionId::Month { year, month }
}

/// The decimal digit `d` as a character.
pub open spec fn digit_char(d: int) -> char {
    if d == 0 {
        '0'
    } else if d == 1 {
        '1'
    } else if d == 2 {
        '2'
    } else if d == 3 {
        '3'
    } else if d == 4 {
        '4'
    } else if d == 5 {
        '5'
    } else if d == 6 {
        '6'
    } else if d == 7 {
        '7'
    } else if d == 8 {
        '8'
    } else {
        '9'
    }
}

/// The decimal digits of `n` (no sign, no padding).
pub open spec fn dec_seq(n: int) -> Seq<char>
    decreases n,
{
    if n < 10 {
        seq![digit_char(n)]
    } else {
        dec_seq(n / 10).push(digit_char(n % 10))
    }
}

/// The decimal digits of `n`, zero-padded on the left to two places.
pub open spec fn pad2_seq(n: int) -> Seq<char> {
    if n < 10 {
        seq!['0', digit_char(n)]
    } else {
        dec_seq(n)
    }
}

/// Append the decimal digit `d` to `s`.
fn push_digit(s: &mut String, d: u32)
    requires
        d < 10,
    ensures
        final(s)@ == old(s)@.push(digit_char(d as int)),
{
    proof {
        reveal_strlit("0");
        reveal_strlit("1");
        reveal_strlit("2");
        reveal_strlit("3");
        reveal_strlit("4");
        reveal_strlit("5");
        reveal_strlit("6");
        reveal_strlit("7");
        reveal_strlit("8");
        reveal_strlit("9");
    }
    match d {
        0 => s.append("0"),
        1 => s.append("1"),
        2 => s.append("2"),
        3 => s.append("3"),
        4 => s.append("4"),
        5 => s.append("5"),
        6 => s.append("6"),
        7 => s.append("7"),
        8 => s.append("8"),
        _ => s.append("9"),
    }
    proof {
        assert(s@ =~= old(s)@.push(digit_char(d as int)));
    }
}

/// Append the decimal digits of `n` to `s`.
fn push_decimal(s: &mut String, n: u32)
    ensures
        final(s)@ == old(s)@ + dec_seq(n as int),
    decreases n,
{
    if n < 10 {
        push_digit(s, n);
        proof {
            assert(s@ =~= old(s)@ + dec_seq(n as int));
        }
    } else {
        push_decimal(s, n / 10);
        push_digit(s, n % 10);
        proof {
            assert(s@ =~= old(s)@ + dec_seq(n as int));
        }
    }
}

/// Append the two-place zero-padded decimal digits of `n` to `s`.
fn push_pad2(s: &mut String, n: u32)
    requires
        n < 100,
    ensures
        final(s)@ == old(s)@ + pad2_seq(n as int),
{
    if n < 10 {
        proof {
            reveal_strlit("0");
        }
        s.append("0");
        push_digit(s, n);
        proof {
            assert(s@ =~= old(s)@ + pad2_seq(n as int));
        }
    } else {
        push_decimal(s, n);
    }
}

/// The deterministic local path of a partition's columnar artifact.
pub open spec fn artifact_path_spec(p: PartitionId) -> Seq<char> {
    match p {
        PartitionId::RollingFeed => "/tmp/earthquakes.parquet"@,
        PartitionId::Month { year, month } => "/tmp/yellow_tripdata_"@ + dec_seq(year as int)
            + "-"@ + pad2_seq(month as int) + ".parquet"@,
    }
}

/// The deterministic local path of a partition's raw fetched payload.
/// The monthly archive is published already columnar, so its raw payload
/// is its artifact; the rolling feed's raw payload is textual.
pub open spec fn raw_path_spec(p: PartitionId) -> Seq<char> {
    match p {
        PartitionId::RollingFeed => "/tmp/earthquakes.csv"@,
        PartitionId::Month { .. } => artifact_path_spec(p),
    }
}

/// The deterministic upstream URL that publishes a partition.
pub open spec fn source_url_spec(p: PartitionId) -> Seq<char> {
    match p {
        PartitionId::RollingFeed => {
            "https://earthquake.usgs.gov/earthquakes/feed/v1.0/summary/all_month.csv"@
        },
        PartitionId::Month { year, month } => {
            "https://d37ci6vzurychx.cloudfront.net/trip-data/yellow_tripdata_"@ + dec_seq(
                year as int,
            ) + "-"@ + pad2_seq(month as int) + ".parquet"@
        },
    }
}

/// Build the local artifact path for `p`.
pub fn artifact_path(p: &PartitionId) -> (s: String)
    requires
        partition_wf(*p),
    ensures
        s@ == artifact_path_spec(*p),
{
    match p {
        PartitionId::RollingFeed => String::from_str("/tmp/earthquakes.parquet"),
        PartitionId::Month { year, month } => {
            let mut s = String::from_str("/tmp/yellow_tripdata_");
            push_decimal(&mut s, *year as u32);
            s.append("-");
            push_pad2(&mut s, *month as u32);
            s.append(".parquet");
            proof {
                assert(s@ =~= artifact_path_spec(*p));
            }
            s
        },
    }
}

/// Build the local raw-payload path for `p`.
pub fn raw_path(p: &PartitionId) -> (s: String)
    requires
        partition_wf(*p),
    ensures
        s@ == raw_path_spec(*p),
{
    match p {
        PartitionId::RollingFeed => String::from_str("/tmp/earthquakes.csv"),
        PartitionId::Month { .. } => artifact_path(p),
    }
}

/// Build the upstream URL for `p`.
pub fn source_url(p: &PartitionId) -> (s: String)
    requires
        partition_wf(*p),
    ensures
        s@ == source_url_spec(*p),
{
    match p {
        PartitionId::RollingFeed => String::from_str(
            "https://earthquake.usgs.gov/earthquakes/feed/v1.0/summary/all_month.csv",
        ),
        PartitionId::Month { year, month } => {
            let mut s = String::from_str(
                "https://d37ci6vzurychx.cloudfront.net/trip-data/yellow_tripdata_",
            );
            push_decimal(&mut s, *year as u32);
            s.append("-");
            push_pad2(&mut s, *month as u32);
            s.append(".parquet");
            proof {
                assert(s@ =~= source_url_spec(*p));
            }
            s
        },
    }
}

/// What the caller must do so that a partition's artifact exists locally.
pub enum CacheAction {
    /// The artifact is already present: use it, fetch nothing.
    UseCached { artifact: String },
    /// Fetch the rolling feed's textual payload to `raw`, convert it, and
    /// write the columnar artifact to `artifact`.
    FetchConvert { url: String, raw: String, artifact: String },
    /// Fetch the already-columnar monthly file straight to `artifact`.
    FetchDirect { url: String, artifact: String },
}

/// How long a cached copy of the rolling feed may be served before it is
/// fetched anew.  Monthly archive partitions are immutable and have no
/// such bound.
pub const ROLLING_FEED_MAX_AGE_MS: i64 = 3600000;

/// A present artifact satisfies a request directly when its partition is
/// immutable (a monthly archive file), or when it is the always-current
/// rolling feed and the copy is still fresh.
pub open spec fn cache_hit(p: PartitionId, cached: bool, age_ms: int) -> bool {
    match p {
        PartitionId::RollingFeed => cached && age_ms <= ROLLING_FEED_MAX_AGE_MS,
        PartitionId::Month { .. } => cached,
    }
}

/// Plan the cache step for `p`, given whether its artifact is already on
/// local storage and how many milliseconds ago it was written.  A present
/// monthly artifact is immutable and is never re-fetched; the rolling
/// feed's copy is re-fetched and re-converted once it goes stale.  A miss
/// costs exactly one fetch (and, for the rolling feed, one conversion),
/// all at the partition's deterministic paths.
pub fn plan_cache(p: &PartitionId, cached: bool, age_ms: i64) -> (a: CacheAction)
    requires
        partition_wf(*p),
    ensures
        match a {
            CacheAction::UseCached { artifact } => {
                &&& cache_hit(*p, cached, age_ms as int)
                &&& artifact@ == artifact_path_spec(*p)
            },
            CacheAction::FetchConvert { url, raw, artifact } => {
                &&& !cache_hit(*p, cached, age_ms as int)
                &&& *p == PartitionId::RollingFeed
                &&& url@ == source_url_spec(*p)
                &&& raw@ == raw_path_spec(*p)
                &&& artifact@ == artifact_path_spec(*p)
            },
            CacheAction::FetchDirect { url, artifact } => {
                &&& !cache_hit(*p, cached, age_ms as int)
                &&& (*p matches PartitionId::Month { .. })
                &&& url@ == source_url_spec(*p)
                &&& artifact@ == artifact_path_spec(*p)
            },
        },
{
    let hit = match p {
        PartitionId::RollingFeed => cached && age_ms <= ROLLING_FEED_MAX_AGE_MS,
        PartitionId::Month { .. } => cached,
    };
    if hit {
        CacheAction::UseCached { artifact: artifact_path(p) }
    } else {
        match p {
            PartitionId::RollingFeed => CacheAction::FetchConvert {
                url: source_url(p),
                raw: raw_path(p),
                artifact: artifact_path(p),
            },
            PartitionId::Month { .. } => CacheAction::FetchDirect {
                url: source_url(p),
                artifact: artifact_path(p),
            },
        }
    }
}

/// A pipeline-level failure.  Row-level data problems are not here: a row
/// with a missing or unparseable field is dropped, never an error.
#[derive(Clone, Copy, Debug, PartialEq, Eq, Structural)]
pub enum PipelineError {
    /// Network or transport failure, or a non-success upstream response.
    Fetch,
    /// The raw payload could not be parsed under the expected schema; the
    /// artifact is not written, so a later request retries from scratch.
    Conversion,
    /// A cached artifact lacks an expected column.
    SchemaMismatch,
    /// A cached artifact exists but cannot be read.
    Storage,
}

impl PipelineError {
    /// A short description of the failure.
    pub fn describe(&self) -> (s: String)
        ensures
            s@ == describe_spec(*self),
    {
        match self {
            PipelineError::Fetch => String::from_str("fetching the upstream partition failed"),
            PipelineError::Conversion => String::from_str("converting the raw payload failed"),
            PipelineError::SchemaMismatch => String::from_str(
                "cached artifact lacks a required column",
            ),
            PipelineError::Storage => String::from_str("cached artifact is unreadable"),
        }
    }
}

/// The description of each failure.
pub open spec fn describe_spec(e: PipelineError) -> Seq<char> {
    match e {
        PipelineError::Fetch => "fetching the upstream partition failed"@,
        PipelineError::Conversion => "converting the raw payload failed"@,
        PipelineError::SchemaMismatch => "cached artifact lacks a required column"@,
        PipelineError::Storage => "cached artifact is unreadable"@,
    }
}

} // verus!
