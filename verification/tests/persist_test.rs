use dao_cache::cache::ProposalDetailCache;
use dao_cache::persist::{restore_cache, snapshot_bytes};
use dao_cache::types::{Proposal, TxMetadata};
use dao_cache::CACHE_LIFE_TIME_NS;

fn rec(height: u64, receipt: &str, signer: &str) -> TxMetadata {
    TxMetadata {
        signer_id: signer.to_string(),
        predecessor_id: format!("{}-pred", signer),
        reciept_hash: receipt.to_string(),
        block_height: height,
        timestamp: height + 7,
    }
}

// Serialize then deserialize: every restored entry's history equals the
// original, and every restored entry is stale the moment it is restored.
#[test]
fn snapshot_round_trip() {
    let mut original = ProposalDetailCache::new();
    let t0: u64 = 500_000_000_000_000;
    original.store_refresh(
        "alpha.near".to_string(),
        7,
        Proposal::placeholder(),
        vec![rec(100, "r-100", "alice.near"), rec(150, "r-150", "bob.near")],
        t0,
    );
    original.store_refresh(
        "beta.near".to_string(),
        0,
        Proposal::placeholder(),
        vec![rec(42, "r-42", "carol.near")],
        t0,
    );
    original.store_refresh(
        "gamma.near".to_string(),
        3,
        Proposal::placeholder(),
        Vec::new(),
        t0,
    );

    let blob = snapshot_bytes(&original);
    let now = t0 + 9_999;
    let restored = restore_cache(&blob, now).expect("a snapshot of a live cache must restore");

    assert_eq!(restored.entry_count(), 3);
    for i in 0..3 {
        let entry = restored.entry_at(i);
        let key = &entry.0;
        let got = &entry.1;
        // The history log came back record for record.
        let want = original
            .lookup_fresh(&key.dao_id, key.proposal_id, t0)
            .expect("original entry exists");
        assert_eq!(got.txs_log, want.txs_log);
        // The freshness stamp marks the entry stale at once.
        assert!(restored.lookup_fresh(&key.dao_id, key.proposal_id, now).is_none());
        // The proposal snapshot was not persisted: a placeholder stands in.
        assert_eq!(got.proposal.id, 0);
        assert_eq!(got.proposal.proposer, "");
        assert_eq!(got.proposal.submission_time, 0);
    }

    // The history tail survives, so the next refresh resumes above it.
    assert_eq!(restored.prior_tail(&"alpha.near".to_string(), 7), 150);
    assert_eq!(restored.prior_tail(&"beta.near".to_string(), 0), 42);
    assert_eq!(restored.prior_tail(&"gamma.near".to_string(), 3), 0);
}

#[test]
fn empty_cache_round_trip() {
    let original = ProposalDetailCache::new();
    let blob = snapshot_bytes(&original);
    let restored = restore_cache(&blob, 123_456_789_000).expect("empty snapshot restores");
    assert_eq!(restored.entry_count(), 0);
}

#[test]
fn corrupt_bytes_restore_nothing() {
    // Garbage of various shapes is refused; the caller then starts empty.
    assert!(restore_cache(&Vec::new(), 1).is_none());
    assert!(restore_cache(&vec![1, 2, 3], 1).is_none());
    // A count of one entry with nothing behind it.
    assert!(restore_cache(&vec![1, 0, 0, 0, 0, 0, 0, 0], 1).is_none());
    // A huge count with nothing behind it.
    assert!(restore_cache(&vec![255; 8], 1).is_none());
}

#[test]
fn trailing_bytes_invalidate_a_snapshot() {
    let mut original = ProposalDetailCache::new();
    original.store_refresh(
        "alpha.near".to_string(),
        1,
        Proposal::placeholder(),
        vec![rec(5, "r-5", "alice.near")],
        1_000,
    );
    let mut blob = snapshot_bytes(&original);
    assert!(restore_cache(&blob, 1).is_some());
    blob.push(0);
    assert!(restore_cache(&blob, 1).is_none());
}

// Across a restart, the restored history is the base that the next
// refresh appends to: the expensive part is kept, only the new tail is
// reconstructed.
#[test]
fn refresh_after_restore_extends_the_persisted_history() {
    let mut original = ProposalDetailCache::new();
    let t0: u64 = 800_000_000_000_000;
    original.store_refresh(
        "alpha.near".to_string(),
        7,
        Proposal::placeholder(),
        vec![rec(100, "r-100", "alice.near"), rec(150, "r-150", "bob.near")],
        t0,
    );
    let blob = snapshot_bytes(&original);

    let now = t0 + 60_000_000_000;
    let mut restored = restore_cache(&blob, now).unwrap();
    let dao = "alpha.near".to_string();
    assert!(restored.lookup_fresh(&dao, 7, now).is_none());
    let tail = restored.prior_tail(&dao, 7);
    assert_eq!(tail, 150);

    restored.store_refresh(
        dao.clone(),
        7,
        Proposal::placeholder(),
        vec![rec(tail + 25, "r-175", "carol.near")],
        now,
    );
    let merged = restored.lookup_fresh(&dao, 7, now).unwrap();
    let heights: Vec<u64> = merged.txs_log.iter().map(|t| t.block_height).collect();
    assert_eq!(heights, vec![100, 150, 175]);
    assert_eq!(merged.txs_log[0].signer_id, "alice.near");
    assert_eq!(merged.txs_log[2].signer_id, "carol.near");
}

#[test]
fn restored_entry_is_stale_even_just_after_restart() {
    let mut original = ProposalDetailCache::new();
    original.store_refresh(
        "alpha.near".to_string(),
        1,
        Proposal::placeholder(),
        vec![rec(5, "r-5", "alice.near")],
        3_000_000_000_000,
    );
    let blob = snapshot_bytes(&original);
    // For any clock later than one freshness window after the epoch, the
    // restored entry reads as stale immediately.
    let now = CACHE_LIFE_TIME_NS + 1;
    let restored = restore_cache(&blob, now).unwrap();
    assert!(restored.lookup_fresh(&"alpha.near".to_string(), 1, now).is_none());
}
