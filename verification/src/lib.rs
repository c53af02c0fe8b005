//! Verified core of a small distributed columnar table store.
//!
//! Nodes persist tables in a simple columnar on-disk format and execute
//! scans, grouping and the aggregates COUNT/SUM/AVG locally; a master node
//! stripes inserts across shards and merges partial aggregates exactly.
//! This crate holds the storage model, the value and aggregation algebra,
//! the query executor and the shard bookkeeping, all verified; the
//! surrounding process (HTTP transport, file and network I/O, clock and
//! configuration loading) lives outside and hands plain values in.

pub mod aggregate;
pub mod codec;
pub mod config;
pub mod column;
pub mod error;
pub mod query;
pub mod row;
pub mod shard;
pub mod storage;
pub mod value;
pub mod wire;
