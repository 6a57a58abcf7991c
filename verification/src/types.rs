//! Data model of the governance-proposal cache: proposals, policies,
//! activity records and token metadata, held as plain values.

use vstd::prelude::*;

verus! {

/// A truncated activity-log entry as the ledger reports it: only the block
/// height at which the action happened.
#[derive(Clone, Copy, Debug, PartialEq, Eq, Structural)]
pub struct ProposalLog {
    pub block_height: u64,
}

/// One materialized activity record of a proposal: who acted, through which
/// receipt, and when.
#[derive(Debug, PartialEq, Eq)]
pub struct TxMetadata {
    pub signer_id: String,
    pub predecessor_id: String,
    pub reciept_hash: String,
    pub block_height: u64,
    pub timestamp: u64,
}

impl Clone for TxMetadata {
    /// A record's copy carries exactly the same fields.
    fn clone(&self) -> (res: Self)
        ensures
            res == *self,
    {
        TxMetadata {
            signer_id: self.signer_id.clone(),
            predecessor_id: self.predecessor_id.clone(),
            reciept_hash: self.reciept_hash.clone(),
            block_height: self.block_height,
            timestamp: self.timestamp,
        }
    }
}

#[derive(Clone, Copy, Debug, PartialEq, Eq, Structural)]
pub enum Vote {
    Approve,
    Reject,
    Remove,
}

#[derive(Clone, Copy, Debug, PartialEq, Eq, Structural)]
pub enum ProposalStatus {
    InProgress,
    Approved,
    Rejected,
    Removed,
    Expired,
    Moved,
    Failed,
}

#[derive(Clone, Copy, Debug, PartialEq, Eq, Structural)]
pub enum Action {
    AddProposal,
    RemoveProposal,
    VoteApprove,
    VoteReject,
    VoteRemove,
    Finalize,
    MoveToHub,
}

/// Version of the governance contract's on-chain state layout.
#[derive(Clone, Copy, Debug, PartialEq, Eq, Structural)]
pub enum StateVersion {
    V1,
    V2,
}

impl StateVersion {
    /// Decode the contract's persisted state-version cell: a single tag
    /// byte, zero for the oldest layout and one for the newer one;
    /// anything else is a malformed payload.
    pub fn decode_cell(bytes: &[u8]) -> (r: Result<StateVersion, FetchError>)
        ensures
            bytes@ =~= seq![0u8] ==> r == Ok::<StateVersion, FetchError>(StateVersion::V1),
            bytes@ =~= seq![1u8] ==> r == Ok::<StateVersion, FetchError>(StateVersion::V2),
            (!(bytes@ =~= seq![0u8]) && !(bytes@ =~= seq![1u8])) ==> r matches Err(
                FetchError::Decode(_),
            ),
    {
        if bytes.len() == 1 {
            let b = *vstd::slice::slice_index_get(bytes, 0);
            if b == 0 {
                return Ok(StateVersion::V1);
            }
            if b == 1 {
                return Ok(StateVersion::V2);
            }
        }
        Err(FetchError::Decode("unrecognized state version tag".to_owned()))
    }
}

/// Vote tallies; older contracts report them as 64-bit, newer as 128-bit.
#[derive(Clone, Copy, Debug, PartialEq, Eq, Structural)]
pub enum CountsVersions {
    V1(u64),
    V2(u128),
}

/// Tallies of one role's votes on a proposal, in the order approve,
/// reject, remove.
#[derive(Clone, Debug, PartialEq, Eq)]
pub struct RoleVoteCounts {
    pub role: String,
    pub approve: CountsVersions,
    pub reject: CountsVersions,
    pub remove: CountsVersions,
}

/// One account's recorded vote on a proposal.
#[derive(Clone, Debug, PartialEq, Eq)]
pub struct VoteEntry {
    pub account: String,
    pub vote: Vote,
}

/// A governance proposal as reported by the ledger.  The `kind` payload is
/// carried through uninterpreted, as the raw text the ledger returned.
#[derive(Clone, Debug, PartialEq, Eq)]
pub struct Proposal {
    pub id: u64,
    pub proposer: String,
    pub description: String,
    pub kind: String,
    pub status: ProposalStatus,
    pub vote_counts: Vec<RoleVoteCounts>,
    pub votes: Vec<VoteEntry>,
    pub submission_time: u64,
    pub last_actions_log: Option<Vec<ProposalLog>>,
}

/// A DAO's governance policy.  The cache stores and returns it unchanged;
/// role and vote-policy payloads stay as the raw text the ledger returned.
#[derive(Clone, Debug, PartialEq, Eq)]
pub struct Policy {
    pub roles: Vec<String>,
    pub default_vote_policy: String,
    pub proposal_bond: String,
    pub proposal_period: u64,
    pub bounty_bond: String,
    pub bounty_forgiveness_period: u64,
}

/// Descriptor of a fungible token.
#[derive(Clone, Debug, PartialEq, Eq)]
pub struct FtMetadata {
    pub name: String,
    pub symbol: String,
    pub decimals: u8,
    pub icon: Option<String>,
    pub reference: Option<String>,
    pub reference_hash: Option<String>,
}

impl FtMetadata {
    /// The built-in descriptor of the native token: 24 decimal places and
    /// no icon or reference.
    pub fn near() -> (r: FtMetadata)
        ensures
            r.name@ == "Near"@,
            r.symbol@ == "NEAR"@,
            r.decimals == 24,
            r.icon is None,
            r.reference is None,
            r.reference_hash is None,
    {
        FtMetadata {
            name: "Near".to_owned(),
            symbol: "NEAR".to_owned(),
            decimals: 24,
            icon: None,
            reference: None,
            reference_hash: None,
        }
    }

    /// The all-empty descriptor used when a token lookup fails.
    pub fn empty() -> (r: FtMetadata)
        ensures
            r.name@ == Seq::<char>::empty(),
            r.symbol@ == Seq::<char>::empty(),
            r.decimals == 0,
            r.icon is None,
            r.reference is None,
            r.reference_hash is None,
    {
        FtMetadata {
            name: String::new(),
            symbol: String::new(),
            decimals: 0,
            icon: None,
            reference: None,
            reference_hash: None,
        }
    }
}

/// The payment read out of a transfer-like proposal.
#[derive(Clone, Debug, PartialEq, Eq)]
pub struct PaymentInfo {
    pub receiver: String,
    pub token: String,
    pub amount: String,
    pub is_lockup: bool,
}

/// The staking action read out of a stake-delegation proposal.
#[derive(Clone, Debug, PartialEq, Eq)]
pub struct StakeDelegationInfo {
    pub amount: String,
    pub proposal_type: String,
    pub validator: String,
}

/// A proposal with every field empty or zero: what stands in for a
/// snapshot that was not persisted.
pub open spec fn spec_is_placeholder(p: Proposal) -> bool {
    p.id == 0 && p.proposer@ == Seq::<char>::empty() && p.description@ == Seq::<char>::empty()
        && p.kind@ == Seq::<char>::empty() && p.status == ProposalStatus::InProgress
        && p.vote_counts@ == Seq::<RoleVoteCounts>::empty() && p.votes@ == Seq::<
        VoteEntry,
    >::empty() && p.submission_time == 0 && p.last_actions_log is None
}

impl Proposal {
    /// The placeholder that stands in for a proposal whose snapshot was not
    /// persisted: every field empty or zero, and immediately refetched
    /// because the restored entry is already stale.
    pub fn placeholder() -> (r: Proposal)
        ensures
            spec_is_placeholder(r),
    {
        Proposal {
            id: 0,
            proposer: String::new(),
            description: String::new(),
            kind: String::new(),
            status: ProposalStatus::InProgress,
            vote_counts: Vec::new(),
            votes: Vec::new(),
            submission_time: 0,
            last_actions_log: None,
        }
    }
}

/// A DAO's cached snapshot: its full proposal list, policy and contract
/// version, all read in one atomic refresh stamped `last_updated`.
#[derive(Clone, Debug)]
pub struct CachedProposals {
    pub proposals: Vec<Proposal>,
    pub policy: Policy,
    pub last_updated: u64,
    pub version: StateVersion,
}

/// One proposal's cached detail: the proposal snapshot, the reconstructed
/// activity history, and the time of the last refresh.
#[derive(Clone, Debug)]
pub struct CachedProposal {
    pub proposal: Proposal,
    pub last_updated: u64,
    pub txs_log: Vec<TxMetadata>,
}

/// A cached token descriptor and the time it was fetched.
#[derive(Clone, Debug)]
pub struct CachedFtMetadata {
    pub metadata: FtMetadata,
    pub last_updated: u64,
}

/// Why an upstream exchange failed: the transport broke, or the payload
/// could not be decoded.  The cache forwards these unchanged and never
/// mutates its state on a failure.
#[derive(Clone, Debug, PartialEq, Eq)]
pub enum FetchError {
    Transport(String),
    Decode(String),
}

} // verus!
