use dao_cache::cache::{detail_singleflight_serialized, segment_extends_check, ProposalDetailCache};
use dao_cache::history::finish_stubs;
use dao_cache::types::{FetchError, Proposal, ProposalLog, TxMetadata};
use dao_cache::CACHE_LIFE_TIME_NS;

fn record(height: u64, receipt: &str) -> TxMetadata {
    TxMetadata {
        signer_id: "signer.near".to_string(),
        predecessor_id: "predecessor.near".to_string(),
        reciept_hash: receipt.to_string(),
        block_height: height,
        timestamp: height * 1_000,
    }
}

fn heights_of(c: &ProposalDetailCache, dao: &String, id: u64, now: u64) -> Vec<u64> {
    c.lookup_fresh(dao, id, now)
        .expect("entry must be fresh")
        .txs_log
        .iter()
        .map(|t| t.block_height)
        .collect()
}

// A cached history ending at block 1000 plus a refresh that discovers
// stubs at 1000, 1050 and 1100: only 1050 and 1100 are appended.
#[test]
fn refresh_appends_only_new_blocks() {
    let mut cache = ProposalDetailCache::new();
    let dao = "alpha.near".to_string();
    let t0: u64 = 77_000_000_000_000;

    cache.store_refresh(
        dao.clone(),
        7,
        Proposal::placeholder(),
        vec![record(990, "r-990"), record(1000, "r-1000")],
        t0,
    );
    assert_eq!(cache.prior_tail(&dao, 7), 1000);

    // The reconstruction is bounded below by the prior tail, so the stub
    // at 1000 is dropped and only the segment above it is handed back.
    let discovered: Vec<ProposalLog> =
        [1000u64, 1050, 1100].iter().map(|&h| ProposalLog { block_height: h }).collect();
    let new_heights = finish_stubs(&discovered, cache.prior_tail(&dao, 7));
    assert_eq!(new_heights, vec![1050, 1100]);

    let segment: Vec<TxMetadata> =
        new_heights.iter().map(|&h| record(h, &format!("r-{}", h))).collect();
    assert!(segment_extends_check(cache.prior_tail(&dao, 7), &segment));
    let t1 = t0 + CACHE_LIFE_TIME_NS + 1;
    cache.store_refresh(dao.clone(), 7, Proposal::placeholder(), segment, t1);

    assert_eq!(heights_of(&cache, &dao, 7, t1), vec![990, 1000, 1050, 1100]);
    assert_eq!(cache.prior_tail(&dao, 7), 1100);
}

// Histories only grow: each refresh leaves the previous log as a prefix.
#[test]
fn history_is_monotonic_over_refreshes() {
    let mut cache = ProposalDetailCache::new();
    let dao = "alpha.near".to_string();
    let mut t: u64 = 10_000_000_000_000;
    let mut previous: Vec<u64> = Vec::new();

    for step in 0u64..4 {
        let tail = cache.prior_tail(&dao, 1);
        let segment = vec![
            record(tail + 10, &format!("r-{}-a", step)),
            record(tail + 20, &format!("r-{}-b", step)),
        ];
        cache.store_refresh(dao.clone(), 1, Proposal::placeholder(), segment, t);
        let current = heights_of(&cache, &dao, 1, t);
        assert!(current.len() >= previous.len());
        assert_eq!(&current[..previous.len()], &previous[..]);
        previous = current;
        t += CACHE_LIFE_TIME_NS + 1;
    }
    assert_eq!(previous.len(), 8);
}

#[test]
fn segment_extends_check_rejects_bad_segments() {
    // At or below the tail.
    assert!(!segment_extends_check(1000, &vec![record(1000, "r-a")]));
    assert!(!segment_extends_check(1000, &vec![record(999, "r-a")]));
    assert!(segment_extends_check(1000, &vec![record(1001, "r-a")]));
    // Heights out of order.
    assert!(!segment_extends_check(0, &vec![record(5, "r-a"), record(3, "r-b")]));
    // Duplicate (height, receipt) pairs.
    assert!(!segment_extends_check(0, &vec![record(5, "r-a"), record(5, "r-a")]));
    // Same height with distinct receipts is acceptable.
    assert!(segment_extends_check(0, &vec![record(5, "r-a"), record(5, "r-b")]));
    // The empty segment always extends.
    assert!(segment_extends_check(1000, &Vec::new()));
}

#[test]
fn detail_failed_refresh_changes_nothing() {
    let mut cache = ProposalDetailCache::new();
    let dao = "alpha.near".to_string();
    let t0: u64 = 3_000_000_000_000;
    cache.store_refresh(dao.clone(), 2, Proposal::placeholder(), vec![record(10, "r-10")], t0);

    let err = cache
        .apply_refresh(dao.clone(), 2, Err(FetchError::Transport("timeout".to_string())), t0 + 5)
        .unwrap_err();
    assert!(matches!(err, FetchError::Transport(_)));
    let entry = cache.lookup_fresh(&dao, 2, t0).unwrap();
    assert_eq!(entry.last_updated, t0);
    assert_eq!(entry.txs_log.len(), 1);
}

// Singleflight on one proposal's detail, for a crowd of callers: one
// refresh — proposal fetch plus reconstruction — and every caller sees the
// same stamp.
#[test]
fn detail_singleflight_many_callers() {
    let (refreshes, stamps) = detail_singleflight_serialized(
        12,
        "alpha.near".to_string(),
        7,
        Proposal::placeholder(),
        vec![record(10, "r-10"), record(20, "r-20")],
        987_654_321,
    );
    assert_eq!(refreshes, 1);
    assert_eq!(stamps.len(), 12);
    assert!(stamps.iter().all(|&s| s == 987_654_321));
}

#[test]
fn detail_keys_are_independent() {
    let mut cache = ProposalDetailCache::new();
    let dao_a = "alpha.near".to_string();
    let dao_b = "beta.near".to_string();
    let t0: u64 = 42_000_000_000_000;
    cache.store_refresh(dao_a.clone(), 1, Proposal::placeholder(), vec![record(5, "r-a")], t0);
    cache.store_refresh(dao_b.clone(), 1, Proposal::placeholder(), vec![record(9, "r-b")], t0);
    cache.store_refresh(dao_a.clone(), 2, Proposal::placeholder(), vec![record(7, "r-c")], t0);

    assert_eq!(cache.prior_tail(&dao_a, 1), 5);
    assert_eq!(cache.prior_tail(&dao_b, 1), 9);
    assert_eq!(cache.prior_tail(&dao_a, 2), 7);
    assert_eq!(cache.prior_tail(&dao_b, 2), 0);
}
