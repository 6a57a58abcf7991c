//! The caching core of a governance-proposal index: read-through caches
//! for a DAO's proposal list, one proposal's detail with its append-only
//! activity history, token descriptors and staking-pool resolutions;
//! the backward reconstruction of that history from a ledger that only
//! exposes a truncated, most-recent window of it; and the snapshot format
//! that carries the reconstructed history across restarts.
//!
//! The caches are plain state driven from outside: the owner of the clock,
//! the per-key locks and the upstream connection asks for a fresh entry,
//! fetches when told to, and stores the outcome.  Every decision in that
//! loop — freshness, the backward hops, the boundary cut, the receipt
//! scan, the merge, the snapshot — is made here, under contract.

pub mod cache;
pub mod derived;
pub mod history;
pub mod lockup;
pub mod kvmap;
pub mod persist;
pub mod receipts;
pub mod strutil;
pub mod token;
pub mod types;

use vstd::prelude::*;

verus! {

/// Nanoseconds for which a cached DAO snapshot or proposal detail stays fresh.
pub const CACHE_LIFE_TIME_NS: u64 = 5_000_000_000;

/// Nanoseconds for which cached token metadata stays fresh (one hour).
pub const FT_CACHE_LIFETIME_NS: u64 = 3_600_000_000_000;

/// A cache entry written at `last_updated` is fresh at `now` when no more
/// than `ttl` nanoseconds have passed since it was written.  An entry
/// whose stamp lies in the future counts as stale, so nothing hangs on a
/// clock that stepped backwards.
pub open spec fn fresh_at(last_updated: u64, now: u64, ttl: u64) -> bool {
    last_updated <= now && now - last_updated <= ttl
}

pub fn is_fresh(last_updated: u64, now: u64, ttl: u64) -> (r: bool)
    ensures
        r == fresh_at(last_updated, now, ttl),
{
    last_updated <= now && now - last_updated <= ttl
}

} // verus!
