//! Scanning a block's receipts for the actions taken against a proposal.
//!
//! For each block height recovered by the history reconstruction, the
//! driver fetches the block's chunks and hands the function-call receipts
//! here as plain values.  A receipt addressed to the DAO contract yields
//! one activity record when it calls `add_proposal`, or when it calls
//! `act_proposal` on this very proposal; the proposal id of an
//! `act_proposal` call sits in the call's JSON argument payload.

use vstd::prelude::*;

use crate::types::{FetchError, TxMetadata};

verus! {

/// One function call carried by a receipt: the method's name and its raw
/// argument bytes.
pub struct ActionCall {
    pub method_name: String,
    pub args: Vec<u8>,
}

/// One action receipt of a block, reduced to the plain values the scan
/// reads.
pub struct ReceiptInfo {
    pub receiver_id: String,
    pub predecessor_id: String,
    pub signer_id: String,
    pub receipt_id: String,
    pub actions: Vec<ActionCall>,
}

/// The `id` field of a JSON object, decoded from raw bytes: `Some` exactly
/// when the bytes parse as JSON carrying an unsigned 64-bit `id`.  The
/// result depends on the bytes alone.
pub uninterp spec fn json_id_of(args: Seq<u8>) -> Option<u64>;

/// Relies on serde_json's `from_slice`, `Value::get` and `Value::as_u64`:
/// parses the bytes as JSON and reads the object's `id` field as a u64;
/// any failure along the way yields `None`.
#[verifier::external_body]
fn parse_id_arg(args: &[u8]) -> (r: Option<u64>)
    ensures
        r == json_id_of(args@),
{
    let value: serde_json::Value = serde_json::from_slice(args).ok()?;
    value.get("id")?.as_u64()
}

/// Whether one action, with its decoded `id` argument, counts as activity
/// on proposal `proposal_id`: a vote or finalization names the proposal in
/// its arguments, while a proposal submission always counts.
pub open spec fn spec_action_matches(
    method_name: Seq<char>,
    id_arg: Option<u64>,
    proposal_id: u64,
) -> bool {
    (method_name == "act_proposal"@ && id_arg == Some(proposal_id)) || method_name
        == "add_proposal"@
}

/// Whether any action of the receipt touches the proposal; the receipt
/// must be addressed to the DAO itself.
pub open spec fn spec_receipt_matches(
    r: &ReceiptInfo,
    dao_id: Seq<char>,
    proposal_id: u64,
) -> bool {
    r.receiver_id@ == dao_id && exists|i: int|
        0 <= i < r.actions@.len() && spec_action_matches(
            #[trigger] r.actions@[i].method_name@,
            json_id_of(r.actions@[i].args@),
            proposal_id,
        )
}

/// A malformed vote payload: a vote or finalization call whose argument
/// bytes decode to no unsigned 64-bit `id`.
pub open spec fn spec_action_undecodable(method_name: Seq<char>, id_arg: Option<u64>) -> bool {
    method_name == "act_proposal"@ && id_arg is None
}

/// Whether a receipt addressed to the DAO carries a malformed vote
/// payload; such a payload fails the whole scan.
pub open spec fn spec_receipt_undecodable(r: &ReceiptInfo, dao_id: Seq<char>) -> bool {
    r.receiver_id@ == dao_id && exists|i: int|
        0 <= i < r.actions@.len() && spec_action_undecodable(
            #[trigger] r.actions@[i].method_name@,
            json_id_of(r.actions@[i].args@),
        )
}

/// Whether any receipt of the block makes the scan fail with a decode
/// error.
pub open spec fn spec_scan_fails(receipts: Seq<ReceiptInfo>, dao_id: Seq<char>) -> bool {
    exists|i: int|
        0 <= i < receipts.len() && #[trigger] spec_receipt_undecodable(&receipts[i], dao_id)
}

/// One action's decision, taken on the decoded argument value.
pub fn action_matches(method_name: &String, id_arg: Option<u64>, proposal_id: u64) -> (r: bool)
    ensures
        r == spec_action_matches(method_name@, id_arg, proposal_id),
{
    proof {
        reveal_strlit("act_proposal");
        reveal_strlit("add_proposal");
        assert("act_proposal"@[1] != "add_proposal"@[1]);
    }
    if crate::strutil::str_eq(method_name.as_str(), "act_proposal") {
        match id_arg {
            Some(id) => id == proposal_id,
            None => false,
        }
    } else {
        crate::strutil::str_eq(method_name.as_str(), "add_proposal")
    }
}

/// One action's malformedness, decided on the decoded argument value.
pub fn action_undecodable(method_name: &String, id_arg: Option<u64>) -> (r: bool)
    ensures
        r == spec_action_undecodable(method_name@, id_arg),
{
    crate::strutil::str_eq(method_name.as_str(), "act_proposal") && id_arg.is_none()
}

/// Scan one receipt: `Ok(true)` when it records activity on the proposal,
/// `Ok(false)` when it does not, and a decode error when it is addressed
/// to the DAO but carries a malformed vote payload.
fn receipt_scan(r: &ReceiptInfo, dao_id: &String, proposal_id: u64) -> (res: Result<
    bool,
    FetchError,
>)
    ensures
        match res {
            Ok(b) => !spec_receipt_undecodable(r, dao_id@) && b == spec_receipt_matches(
                r,
                dao_id@,
                proposal_id,
            ),
            Err(e) => spec_receipt_undecodable(r, dao_id@) && e is Decode,
        },
{
    if !crate::strutil::str_eq(r.receiver_id.as_str(), dao_id.as_str()) {
        return Ok(false);
    }
    let n = r.actions.len();
    let mut found = false;
    let mut i: usize = 0;
    while i < n
        invariant
            n == r.actions@.len(),
            i <= n,
            r.receiver_id@ == dao_id@,
            forall|j: int|
                0 <= j < i ==> !spec_action_undecodable(
                    #[trigger] r.actions@[j].method_name@,
                    json_id_of(r.actions@[j].args@),
                ),
            found <==> exists|j: int|
                0 <= j < i && spec_action_matches(
                    #[trigger] r.actions@[j].method_name@,
                    json_id_of(r.actions@[j].args@),
                    proposal_id,
                ),
        decreases n - i,
    {
        let id_arg = parse_id_arg(r.actions[i].args.as_slice());
        if action_undecodable(&r.actions[i].method_name, id_arg) {
            proof {
                assert(spec_action_undecodable(
                    r.actions@[i as int].method_name@,
                    json_id_of(r.actions@[i as int].args@),
                ));
            }
            return Err(
                FetchError::Decode("vote receipt arguments held no readable proposal id".to_owned()),
            );
        }
        let ghost old_found = found;
        if action_matches(&r.actions[i].method_name, id_arg, proposal_id) {
            found = true;
        }
        proof {
            if found {
                if old_found {
                    let j = choose|j: int|
                        0 <= j < i && spec_action_matches(
                            #[trigger] r.actions@[j].method_name@,
                            json_id_of(r.actions@[j].args@),
                            proposal_id,
                        );
                    assert(spec_action_matches(
                        r.actions@[j].method_name@,
                        json_id_of(r.actions@[j].args@),
                        proposal_id,
                    ));
                } else {
                    assert(spec_action_matches(
                        r.actions@[i as int].method_name@,
                        json_id_of(r.actions@[i as int].args@),
                        proposal_id,
                    ));
                }
            }
            if exists|j: int|
                0 <= j < i + 1 && spec_action_matches(
                    #[trigger] r.actions@[j].method_name@,
                    json_id_of(r.actions@[j].args@),
                    proposal_id,
                ) {
                let j = choose|j: int|
                    0 <= j < i + 1 && spec_action_matches(
                        #[trigger] r.actions@[j].method_name@,
                        json_id_of(r.actions@[j].args@),
                        proposal_id,
                    );
                if j < i {
                    assert(found);
                } else {
                    assert(found);
                }
            }
        }
        i += 1;
    }
    Ok(found)
}

/// The records that a block's receipts contribute, in receipt order: one
/// per matching receipt, carrying the receipt's parties and the block's
/// height and timestamp.
pub open spec fn spec_block_records(
    receipts: Seq<ReceiptInfo>,
    dao_id: Seq<char>,
    proposal_id: u64,
    block_height: u64,
    timestamp: u64,
) -> Seq<TxMetadata>
    decreases receipts.len(),
{
    if receipts.len() == 0 {
        Seq::empty()
    } else {
        let rest = spec_block_records(
            receipts.drop_last(),
            dao_id,
            proposal_id,
            block_height,
            timestamp,
        );
        if spec_receipt_matches(&receipts.last(), dao_id, proposal_id) {
            rest.push(
                TxMetadata {
                    signer_id: receipts.last().signer_id,
                    predecessor_id: receipts.last().predecessor_id,
                    reciept_hash: receipts.last().receipt_id,
                    block_height,
                    timestamp,
                },
            )
        } else {
            rest
        }
    }
}

/// Scan a block's receipts for activity on the proposal.  Each receipt
/// addressed to the DAO that submits a proposal, or votes on or finalizes
/// this proposal, yields exactly one record stamped with the block's
/// height and timestamp.  A receipt addressed to the DAO whose vote
/// payload cannot be decoded fails the whole scan with a decode error,
/// surfaced to the caller so that no partial segment is handed on.
pub fn txs_in_block(
    receipts: &Vec<ReceiptInfo>,
    dao_id: &String,
    proposal_id: u64,
    block_height: u64,
    timestamp: u64,
) -> (r: Result<Vec<TxMetadata>, FetchError>)
    ensures
        r is Ok <==> !spec_scan_fails(receipts@, dao_id@),
        r matches Ok(v) ==> v@ =~= spec_block_records(
            receipts@,
            dao_id@,
            proposal_id,
            block_height,
            timestamp,
        ),
        r matches Ok(v) ==> forall|i: int|
            #![trigger v@[i]]
            0 <= i < v@.len() ==> v@[i].block_height == block_height && v@[i].timestamp
                == timestamp,
        r matches Err(e) ==> e is Decode,
{
    let n = receipts.len();
    let mut out: Vec<TxMetadata> = Vec::new();
    let mut i: usize = 0;
    while i < n
        invariant
            n == receipts@.len(),
            i <= n,
            out@ =~= spec_block_records(
                receipts@.subrange(0, i as int),
                dao_id@,
                proposal_id,
                block_height,
                timestamp,
            ),
            forall|j: int|
                0 <= j < i ==> !(#[trigger] spec_receipt_undecodable(&receipts@[j], dao_id@)),
            forall|j: int|
                #![trigger out@[j]]
                0 <= j < out@.len() ==> out@[j].block_height == block_height && out@[j].timestamp
                    == timestamp,
        decreases n - i,
    {
        let rc = &receipts[i];
        proof {
            assert(receipts@.subrange(0, i as int + 1).drop_last() =~= receipts@.subrange(
                0,
                i as int,
            ));
            assert(receipts@.subrange(0, i as int + 1).last() == receipts@[i as int]);
        }
        match receipt_scan(rc, dao_id, proposal_id) {
            Ok(true) => {
                out.push(
                    TxMetadata {
                        signer_id: rc.signer_id.clone(),
                        predecessor_id: rc.predecessor_id.clone(),
                        reciept_hash: rc.receipt_id.clone(),
                        block_height,
                        timestamp,
                    },
                );
            },
            Ok(false) => {
            },
            Err(e) => {
                proof {
                    assert(spec_receipt_undecodable(&receipts@[i as int], dao_id@));
                    assert(spec_scan_fails(receipts@, dao_id@));
                }
                return Err(e);
            },
        }
        i += 1;
    }
    proof {
        assert(receipts@.subrange(0, n as int) =~= receipts@);
        if spec_scan_fails(receipts@, dao_id@) {
            let j = choose|j: int|
                0 <= j < receipts@.len() && #[trigger] spec_receipt_undecodable(
                    &receipts@[j],
                    dao_id@,
                );
            assert(!spec_receipt_undecodable(&receipts@[j], dao_id@));
        }
    }
    Ok(out)
}

/// Concatenate the per-block record lists, in the given block order, into
/// one segment.
pub fn concat_block_records(blocks: &Vec<Vec<TxMetadata>>) -> (r: Vec<TxMetadata>)
    ensures
        r@ =~= blocks@.map_values(|b: Vec<TxMetadata>| b@).flatten(),
{
    let ghost all = blocks@.map_values(|b: Vec<TxMetadata>| b@);
    let mut out: Vec<TxMetadata> = Vec::new();
    let n = blocks.len();
    let mut i: usize = 0;
    proof {
        assert(all.take(0) =~= Seq::<Seq<TxMetadata>>::empty());
        assert(all.take(0).flatten() =~= Seq::<TxMetadata>::empty());
    }
    while i < n
        invariant
            n == blocks@.len(),
            all == blocks@.map_values(|b: Vec<TxMetadata>| b@),
            i <= n,
            out@ =~= all.take(i as int).flatten(),
        decreases n - i,
    {
        let b = &blocks[i];
        let m = b.len();
        let mut j: usize = 0;
        while j < m
            invariant
                n == blocks@.len(),
                all == blocks@.map_values(|b2: Vec<TxMetadata>| b2@),
                i < n,
                m == b@.len(),
                b@ == all[i as int],
                j <= m,
                out@ =~= all.take(i as int).flatten() + b@.take(j as int),
            decreases m - j,
        {
            out.push(b[j].clone());
            proof {
                assert(b@.take(j as int + 1) =~= b@.take(j as int).push(b@[j as int]));
            }
            j += 1;
        }
        proof {
            assert(b@.take(m as int) =~= b@);
            let t1 = all.take(i as int + 1);
            assert(t1.drop_last() =~= all.take(i as int));
            assert(t1.last() == all[i as int]);
            t1.lemma_flatten_and_flatten_alt_are_equivalent();
            all.take(i as int).lemma_flatten_and_flatten_alt_are_equivalent();
            assert(t1.flatten_alt() == t1.drop_last().flatten_alt() + t1.last());
            assert(out@ =~= all.take(i as int + 1).flatten());
        }
        i += 1;
    }
    proof {
        assert(all.take(n as int) =~= all);
    }
    out
}


} // verus!
