//! Time-windowed queries over cached, partitioned bulk datasets.
//!
//! The crate answers "the N earliest records at or after time T" against
//! large, periodically published feeds.  It resolves which upstream
//! partition covers a requested time, plans the cache-or-fetch step that
//! guarantees a local columnar artifact for that partition, and runs the
//! filter/sort/limit scan that turns raw rows into ordered domain records.
//! All I/O (network fetch, file storage, columnar decoding) is left to the
//! surrounding application, which hands this crate plain values.

pub mod calendar;
pub mod engine;
pub mod partition;
pub mod records;
