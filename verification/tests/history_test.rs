use dao_cache::history::{finish_stubs, hop_decision, reconstruct_simulated, HopDecision, LOG_LIMIT};
use dao_cache::types::ProposalLog;

fn stubs(heights: &[u64]) -> Vec<ProposalLog> {
    heights.iter().map(|&h| ProposalLog { block_height: h }).collect()
}

// Reconstruction over a simulated upstream: windows of size K with strictly
// decreasing minima, from the genesis boundary.  It terminates, hops once
// per whole window, and returns every height, ascending, without
// duplicates.
#[test]
fn reconstruction_terminates_and_is_exact() {
    // M = 45 stubs, K = 20: two whole windows fit, so two backward hops.
    let full: Vec<u64> = (1..=45).collect();
    let (result, hops) = reconstruct_simulated(&full, 0, 20);
    assert_eq!(result, full);
    assert_eq!(hops, 45 / 20);
    assert_eq!(hops, 2);

    // M = 40, K = 20: exactly two whole windows.
    let full: Vec<u64> = (100..140).collect();
    let (result, hops) = reconstruct_simulated(&full, 0, 20);
    assert_eq!(result, full);
    assert_eq!(hops, 2);

    // M = 20 = K: one backward hop past the single full window.
    let full: Vec<u64> = (1..=20).collect();
    let (_, hops) = reconstruct_simulated(&full, 0, 20);
    assert_eq!(hops, 1);

    // Fewer stubs than a window: no backward hop at all.
    let full: Vec<u64> = vec![5, 9, 12];
    let (result, hops) = reconstruct_simulated(&full, 0, 20);
    assert_eq!(result, vec![5, 9, 12]);
    assert_eq!(hops, 0);

    // An empty history yields an empty result.
    let (result, hops) = reconstruct_simulated(&Vec::new(), 0, 20);
    assert!(result.is_empty());
    assert_eq!(hops, 0);
}

#[test]
fn reconstruction_respects_boundary() {
    // Heights 1..=50 with a known boundary at 30: only 31..=50 come back,
    // and the walk stops as soon as a window reaches known history.
    let full: Vec<u64> = (1..=50).collect();
    let (result, _) = reconstruct_simulated(&full, 30, 20);
    let expected: Vec<u64> = (31..=50).collect();
    assert_eq!(result, expected);
}

// A stub exactly at the boundary is excluded; one just above it is kept.
#[test]
fn boundary_exactness() {
    let input = stubs(&[999, 1000, 1001, 1050]);
    let result = finish_stubs(&input, 1000);
    assert_eq!(result, vec![1001, 1050]);

    let at_limit_only = stubs(&[1000]);
    assert!(finish_stubs(&at_limit_only, 1000).is_empty());

    let just_above = stubs(&[1001]);
    assert_eq!(finish_stubs(&just_above, 1000), vec![1001]);
}

#[test]
fn finish_stubs_sorts_and_deduplicates() {
    let input = stubs(&[40, 10, 40, 25, 10, 99, 25]);
    let result = finish_stubs(&input, 0);
    assert_eq!(result, vec![10, 25, 40, 99]);
}

#[test]
fn hop_decision_boundaries() {
    // A short window ends the walk.
    let short = stubs(&[100, 101]);
    assert_eq!(hop_decision(&short, 0, 20), HopDecision::Stop);

    // A full window above the boundary asks for the block just below its
    // minimum.
    let full: Vec<ProposalLog> = stubs(&(100..120).collect::<Vec<u64>>());
    assert_eq!(full.len(), LOG_LIMIT);
    assert_eq!(hop_decision(&full, 50, LOG_LIMIT), HopDecision::FetchOlderAt(99));

    // A full window whose minimum sits exactly at the boundary stops.
    assert_eq!(hop_decision(&full, 100, LOG_LIMIT), HopDecision::Stop);
    // One whose minimum is just above the boundary continues.
    assert_eq!(hop_decision(&full, 99, LOG_LIMIT), HopDecision::FetchOlderAt(99));

    // The minimum is found wherever it sits in the window.
    let mut shuffled = stubs(&(200..220).collect::<Vec<u64>>());
    shuffled.swap(0, 19);
    assert_eq!(hop_decision(&shuffled, 0, LOG_LIMIT), HopDecision::FetchOlderAt(199));
}
