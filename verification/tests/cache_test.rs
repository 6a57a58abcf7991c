use dao_cache::cache::singleflight_serialized;
use dao_cache::cache::DaoProposalListCache;
use dao_cache::cache::StakingPoolCache;
use dao_cache::cache::TokenMetadataCache;
use dao_cache::types::{FetchError, FtMetadata, Policy, Proposal, StateVersion};
use dao_cache::{CACHE_LIFE_TIME_NS, FT_CACHE_LIFETIME_NS};

fn sample_policy() -> Policy {
    Policy {
        roles: vec!["{\"name\":\"council\"}".to_string()],
        default_vote_policy: "{}".to_string(),
        proposal_bond: "1000000000000000000000000".to_string(),
        proposal_period: 604_800_000_000_000,
        bounty_bond: "1000000000000000000000000".to_string(),
        bounty_forgiveness_period: 86_400_000_000_000,
    }
}

fn sample_proposal(id: u64, proposer: &str) -> Proposal {
    let mut p = Proposal::placeholder();
    p.id = id;
    p.proposer = proposer.to_string();
    p
}

/// A simulated upstream that counts how many times the proposal list was
/// fetched.
struct CountingUpstream {
    calls: usize,
}

impl CountingUpstream {
    fn fetch_proposal_list(&mut self) -> (Vec<Proposal>, Policy, StateVersion) {
        self.calls += 1;
        (
            vec![sample_proposal(0, "alice.near"), sample_proposal(1, "bob.near")],
            sample_policy(),
            StateVersion::V2,
        )
    }
}

// Two simultaneous callers for an uncached DAO: the per-key lock serializes
// them; the winner fetches and stores, the waiter re-checks and hits the
// stored snapshot, so the upstream is consulted exactly once and both see
// the same fetch time.
#[test]
fn singleflight_two_callers_one_fetch() {
    let mut upstream = CountingUpstream { calls: 0 };
    let mut cache = DaoProposalListCache::new();
    let dao = "alpha.near".to_string();
    let t0: u64 = 1_000_000_000_000;

    // Caller A: miss, acquires the lock, fetches, stores.
    assert!(cache.lookup_fresh(&dao, t0).is_none());
    let (proposals, policy, version) = upstream.fetch_proposal_list();
    cache.store(dao.clone(), proposals, policy, version, t0);

    // Caller B: was blocked on the lock; re-checks shortly after and finds
    // the winner's snapshot, so it never fetches.
    let t1 = t0 + 1_000_000; // one millisecond later
    let b_view = cache.lookup_fresh(&dao, t1).expect("waiter must hit the stored snapshot");
    let b_fetched_at = b_view.last_updated;
    assert_eq!(upstream.calls, 1);

    // Both callers see the identical fetch time.
    let a_view = cache.lookup_fresh(&dao, t0).expect("winner reads its own store");
    assert_eq!(a_view.last_updated, b_fetched_at);
    assert_eq!(a_view.proposals.len(), 2);
}

// The same protocol, simulated for a crowd of callers: still exactly one
// fetch, and every caller sees the same stamp.
#[test]
fn singleflight_many_callers() {
    let (fetches, stamps) = singleflight_serialized(
        25,
        "alpha.near".to_string(),
        vec![sample_proposal(0, "alice.near")],
        sample_policy(),
        StateVersion::V1,
        123_456_789,
    );
    assert_eq!(fetches, 1);
    assert_eq!(stamps.len(), 25);
    assert!(stamps.iter().all(|&s| s == 123_456_789));
}

#[test]
fn dao_cache_ttl_boundaries() {
    let mut cache = DaoProposalListCache::new();
    let dao = "alpha.near".to_string();
    let t0: u64 = 50_000_000_000;
    cache.store(dao.clone(), vec![], sample_policy(), StateVersion::V1, t0);

    // Exactly at the freshness bound the entry still counts as fresh.
    assert!(cache.lookup_fresh(&dao, t0 + CACHE_LIFE_TIME_NS).is_some());
    // One nanosecond past the bound it is stale.
    assert!(cache.lookup_fresh(&dao, t0 + CACHE_LIFE_TIME_NS + 1).is_none());
    // A clock that reads earlier than the store treats the entry as stale.
    assert!(cache.lookup_fresh(&dao, t0 - 1).is_none());
    // An unrelated DAO stays unaffected.
    assert!(cache.lookup_fresh(&"beta.near".to_string(), t0).is_none());
}

#[test]
fn failed_refresh_changes_nothing() {
    let mut cache = DaoProposalListCache::new();
    let dao = "alpha.near".to_string();
    let t0: u64 = 9_000_000_000_000;
    cache.store(dao.clone(), vec![sample_proposal(3, "carol.near")], sample_policy(), StateVersion::V1, t0);

    let err = cache
        .apply_refresh(
            dao.clone(),
            Err(FetchError::Transport("connection reset".to_string())),
            t0 + 10,
        )
        .unwrap_err();
    assert_eq!(err, FetchError::Transport("connection reset".to_string()));

    // The stale-by-now entry is untouched: same stamp, same contents.
    let entry = cache.lookup_fresh(&dao, t0).unwrap();
    assert_eq!(entry.last_updated, t0);
    assert_eq!(entry.proposals.len(), 1);
    assert_eq!(entry.proposals[0].proposer, "carol.near");

    let err2 = cache
        .apply_refresh(dao.clone(), Err(FetchError::Decode("bad json".to_string())), t0 + 20)
        .unwrap_err();
    assert_eq!(err2, FetchError::Decode("bad json".to_string()));
    assert_eq!(cache.lookup_fresh(&dao, t0).unwrap().last_updated, t0);
}

#[test]
fn successful_refresh_overwrites() {
    let mut cache = DaoProposalListCache::new();
    let dao = "alpha.near".to_string();
    let t0: u64 = 7_000_000_000_000;
    cache.store(dao.clone(), vec![], sample_policy(), StateVersion::V1, t0);

    let t1 = t0 + CACHE_LIFE_TIME_NS + 5;
    let outcome = cache.apply_refresh(
        dao.clone(),
        Ok((vec![sample_proposal(9, "dave.near")], sample_policy(), StateVersion::V2)),
        t1,
    );
    assert!(outcome.is_ok());
    let entry = cache.lookup_fresh(&dao, t1).unwrap();
    assert_eq!(entry.last_updated, t1);
    assert_eq!(entry.proposals.len(), 1);
    assert!(matches!(entry.version, StateVersion::V2));
}

#[test]
fn token_cache_hour_ttl() {
    let mut cache = TokenMetadataCache::new();
    let token = "usdt.tether-token.near".to_string();
    let t0: u64 = 1_000_000_000_000_000;
    let mut meta = FtMetadata::empty();
    meta.symbol = "USDt".to_string();
    meta.decimals = 6;
    cache.store(token.clone(), meta, t0);

    let hit = cache.lookup_fresh(&token, t0 + FT_CACHE_LIFETIME_NS).unwrap();
    assert_eq!(hit.metadata.symbol, "USDt");
    assert_eq!(hit.metadata.decimals, 6);
    assert!(cache.lookup_fresh(&token, t0 + FT_CACHE_LIFETIME_NS + 1).is_none());
    assert!(cache.lookup_fresh(&"other.near".to_string(), t0).is_none());
}

#[test]
fn state_version_cell_decoding() {
    assert_eq!(StateVersion::decode_cell(&[0]), Ok(StateVersion::V1));
    assert_eq!(StateVersion::decode_cell(&[1]), Ok(StateVersion::V2));
    assert!(matches!(StateVersion::decode_cell(&[2]), Err(FetchError::Decode(_))));
    assert!(matches!(StateVersion::decode_cell(&[]), Err(FetchError::Decode(_))));
    assert!(matches!(StateVersion::decode_cell(&[0, 0]), Err(FetchError::Decode(_))));
}

#[test]
fn staking_pool_cache_never_expires() {
    let mut cache = StakingPoolCache::new();
    let lockup = "11f8464d4e1b00165428770a6b9096c71aa386d3.lockup.near".to_string();
    assert!(cache.lookup(&lockup).is_none());
    cache.store(lockup.clone(), "astro-stakers.poolv1.near".to_string());
    assert_eq!(cache.lookup(&lockup).unwrap(), "astro-stakers.poolv1.near");
    // Overwriting keeps the map single-valued.
    cache.store(lockup.clone(), "zavodil.poolv1.near".to_string());
    assert_eq!(cache.lookup(&lockup).unwrap(), "zavodil.poolv1.near");
}
