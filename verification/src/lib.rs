//! Core of a client-side driver for a distributed partitioned table store.
//!
//! The library is the partition-aware routing and execution engine: given a
//! logical table name and a row key (or a key range), it resolves which
//! backend node owns the partition, keeps a registry of backend handles,
//! caches partition metadata with bounded staleness, and plans single-row,
//! batch and streaming-query operations with retry and metadata-refresh
//! semantics. All network traffic (the wire codec, the directory service,
//! the connection pools) happens outside the library; the functions here
//! take the outside world's answers as arguments and are verified for every
//! such answer.

use vstd::prelude::*;

pub mod batch;
pub mod builder;
pub mod client;
pub mod error;
pub mod location;
pub mod ob_part_constants;
pub mod part_desc;
pub mod part_func_type;
pub mod query;
pub mod roster;
pub mod strutil;
pub mod table_entry;
pub mod value;

verus! {

} // verus!
