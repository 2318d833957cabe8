//! Verified core of a small dBASE-centred database: join strategy and
//! planner costing, page and stream controls, join request validation, and
//! the single-authority replication log with its HTTP delivery protocol.
use vstd::prelude::*;

pub mod arith;
pub mod text;
pub mod join_strategy;
pub mod query;
pub mod replication;
pub mod server;

verus! {

/// The largest JSON document accepted from a client or a peer, in bytes.
pub const MAX_JSON_INPUT_BYTES: usize = 1048576;

/// The largest number of operations that one transaction may carry.
pub const MAX_OPERATION_BATCH: usize = 1000;

/// The largest catalog image that one replication snapshot may carry, in bytes.
pub const MAX_REPLICATION_SNAPSHOT_BYTES: usize = 67108864;

} // verus!
