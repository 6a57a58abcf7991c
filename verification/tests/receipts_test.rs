use dao_cache::receipts::{concat_block_records, txs_in_block, ActionCall, ReceiptInfo};
use dao_cache::types::{FetchError, TxMetadata};

fn call(method: &str, args: &str) -> ActionCall {
    ActionCall { method_name: method.to_string(), args: args.as_bytes().to_vec() }
}

fn receipt(receiver: &str, id: &str, actions: Vec<ActionCall>) -> ReceiptInfo {
    ReceiptInfo {
        receiver_id: receiver.to_string(),
        predecessor_id: "user.near".to_string(),
        signer_id: "signer.near".to_string(),
        receipt_id: id.to_string(),
        actions,
    }
}

// The scan keeps a vote on this proposal, drops a vote on another
// proposal, and always keeps a proposal submission.  The proposal id is
// decoded out of the call's JSON arguments, so a scan that ignored the
// argument bytes would get this wrong.
#[test]
fn scan_matches_on_decoded_arguments() {
    let dao = "alpha.near".to_string();
    let receipts = vec![
        receipt("alpha.near", "r-1", vec![call("act_proposal", "{\"id\":7,\"action\":\"VoteApprove\"}")]),
        receipt("alpha.near", "r-2", vec![call("act_proposal", "{\"id\":8,\"action\":\"VoteApprove\"}")]),
        receipt("alpha.near", "r-3", vec![call("add_proposal", "{}")]),
        receipt("alpha.near", "r-4", vec![call("ft_transfer", "not json at all")]),
        receipt("other.near", "r-5", vec![call("act_proposal", "{\"id\":7}")]),
    ];
    let records = txs_in_block(&receipts, &dao, 7, 1234, 99_000).expect("well-formed block");
    let ids: Vec<&str> = records.iter().map(|r| r.reciept_hash.as_str()).collect();
    assert_eq!(ids, vec!["r-1", "r-3"]);
    for r in &records {
        assert_eq!(r.block_height, 1234);
        assert_eq!(r.timestamp, 99_000);
        assert_eq!(r.signer_id, "signer.near");
        assert_eq!(r.predecessor_id, "user.near");
    }
}

// A vote receipt addressed to the DAO whose arguments do not decode to a
// proposal id is a malformed upstream payload: the whole scan fails with a
// decode error, surfaced to the caller, and no partial result comes back.
#[test]
fn scan_surfaces_undecodable_vote_arguments() {
    let dao = "alpha.near".to_string();
    let bad_inputs = ["not json at all", "{}", "{\"id\":\"seven\"}", "{\"id\":-1}"];
    for bad in bad_inputs {
        let receipts = vec![
            receipt("alpha.near", "r-1", vec![call("add_proposal", "{}")]),
            receipt("alpha.near", "r-2", vec![call("act_proposal", bad)]),
        ];
        let err = txs_in_block(&receipts, &dao, 7, 10, 20).unwrap_err();
        assert!(matches!(err, FetchError::Decode(_)));
    }
}

// The same malformed vote payload on a receipt addressed elsewhere is not
// this DAO's problem: the scan skips the receipt and succeeds.
#[test]
fn scan_ignores_foreign_undecodable_receipts() {
    let dao = "alpha.near".to_string();
    let receipts = vec![
        receipt("other.near", "r-1", vec![call("act_proposal", "not json at all")]),
        receipt("alpha.near", "r-2", vec![call("act_proposal", "{\"id\":7}")]),
    ];
    let records = txs_in_block(&receipts, &dao, 7, 10, 20).expect("foreign receipts are skipped");
    assert_eq!(records.len(), 1);
    assert_eq!(records[0].reciept_hash, "r-2");
}

#[test]
fn scan_emits_one_record_per_receipt() {
    let dao = "alpha.near".to_string();
    // Two matching actions in one receipt still yield a single record, so
    // no (height, receipt) pair is ever repeated.
    let receipts = vec![receipt(
        "alpha.near",
        "r-1",
        vec![call("act_proposal", "{\"id\":7}"), call("add_proposal", "{}")],
    )];
    let records = txs_in_block(&receipts, &dao, 7, 10, 20).expect("well-formed block");
    assert_eq!(records.len(), 1);
}

#[test]
fn scan_of_empty_block() {
    let dao = "alpha.near".to_string();
    assert!(txs_in_block(&Vec::new(), &dao, 7, 1, 2).unwrap().is_empty());
    let receipts = vec![receipt("alpha.near", "r-1", Vec::new())];
    assert!(txs_in_block(&receipts, &dao, 7, 1, 2).unwrap().is_empty());
}

#[test]
fn per_block_records_flatten_in_block_order() {
    let mk = |height: u64, id: &str| TxMetadata {
        signer_id: "s".to_string(),
        predecessor_id: "p".to_string(),
        reciept_hash: id.to_string(),
        block_height: height,
        timestamp: 0,
    };
    let blocks = vec![
        vec![mk(10, "a"), mk(10, "b")],
        vec![],
        vec![mk(20, "c")],
    ];
    let flat = concat_block_records(&blocks);
    let ids: Vec<&str> = flat.iter().map(|r| r.reciept_hash.as_str()).collect();
    assert_eq!(ids, vec!["a", "b", "c"]);
}
