//! The cache of Public players: how many it keeps, for how long, in how
//! many shards, and how many it saves per batch.

use vstd::prelude::*;

verus! {

/// The most Public players one process keeps resident.
pub const PLAYER_CACHE_CAPACITY: usize = 500_000;

/// How long an untouched Public player stays resident, in seconds; each
/// access starts the period again.
pub const PLAYER_CACHE_TTL_SECS: u64 = 24 * 60 * 60;

/// Whether each access starts the resident period again.
pub const PLAYER_CACHE_SLIDING: bool = true;

/// The shards of the Public player cache.
pub const PLAYER_CACHE_SHARDS: usize = 128;

/// The most Public players saved in one batch.
pub const PLAYER_SAVE_BATCH_SIZE: usize = 1_000;

} // verus!
