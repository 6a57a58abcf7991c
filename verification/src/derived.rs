//! Values derived from a cached DAO snapshot for the read-only endpoints:
//! the distinct proposers, voters, payment recipients, requested tokens and
//! validators.  Each list carries every occurring value exactly once, in
//! the order of first appearance.

use vstd::prelude::*;

use crate::strutil::str_eq;
use crate::types::{PaymentInfo, Proposal, StakeDelegationInfo};

verus! {

/// Some string of `s` reads `v`.
pub open spec fn has_str(s: Seq<String>, v: Seq<char>) -> bool {
    exists|i: int| 0 <= i < s.len() && #[trigger] s[i]@ == v
}

/// No two strings of `s` read the same.
pub open spec fn distinct_strs(s: Seq<String>) -> bool {
    forall|i: int, j: int| 0 <= i < j < s.len() ==> s[i]@ != s[j]@
}

/// Append a value unless an equal one is already present.
fn push_unique(out: &mut Vec<String>, value: String)
    requires
        distinct_strs(old(out)@),
    ensures
        distinct_strs(final(out)@),
        forall|v: Seq<char>| has_str(final(out)@, v) <==> (has_str(old(out)@, v) || v == value@),
{
    let n = out.len();
    let mut i: usize = 0;
    while i < n
        invariant
            n == out@.len(),
            i <= n,
            out@ == old(out)@,
            distinct_strs(out@),
            forall|j: int| 0 <= j < i ==> out@[j]@ != value@,
        decreases n - i,
    {
        if str_eq(out[i].as_str(), value.as_str()) {
            proof {
                assert(out@[i as int]@ == value@);
                assert(has_str(out@, value@));
            }
            return;
        }
        i += 1;
    }
    let ghost oldv = out@;
    out.push(value);
    proof {
        assert forall|v: Seq<char>| has_str(out@, v) <==> (has_str(oldv, v) || v == value@) by {
            if has_str(out@, v) {
                let j = choose|j: int| 0 <= j < out@.len() && #[trigger] out@[j]@ == v;
                if j < oldv.len() {
                    assert(oldv[j]@ == v);
                }
            }
            if has_str(oldv, v) {
                let j = choose|j: int| 0 <= j < oldv.len() && #[trigger] oldv[j]@ == v;
                assert(out@[j]@ == v);
            }
            if v == value@ {
                assert(out@[out@.len() - 1]@ == v);
            }
        }
    }
}

pub struct ProposersResponse {
    pub proposers: Vec<String>,
    pub total: usize,
}

pub struct ApproversResponse {
    pub approvers: Vec<String>,
    pub total: usize,
}

pub struct RecipientsResponse {
    pub recipients: Vec<String>,
    pub total: usize,
}

pub struct RequestedTokensResponse {
    pub requested_tokens: Vec<String>,
    pub total: usize,
}

pub struct ValidatorsResponse {
    pub validators: Vec<String>,
    pub total: usize,
}

/// The distinct proposers over a snapshot's proposals: an account appears
/// exactly when it proposed something, and appears once.
pub fn get_dao_proposers(proposals: &Vec<Proposal>) -> (r: ProposersResponse)
    ensures
        r.total == r.proposers@.len(),
        distinct_strs(r.proposers@),
        forall|v: Seq<char>|
            has_str(r.proposers@, v) <==> (exists|i: int|
                0 <= i < proposals@.len() && #[trigger] proposals@[i].proposer@ == v),
{
    let mut out: Vec<String> = Vec::new();
    let n = proposals.len();
    let mut i: usize = 0;
    while i < n
        invariant
            n == proposals@.len(),
            i <= n,
            distinct_strs(out@),
            forall|v: Seq<char>|
                #[trigger] has_str(out@, v) <==> (exists|j: int|
                    0 <= j < i && #[trigger] proposals@[j].proposer@ == v),
        decreases n - i,
    {
        push_unique(&mut out, proposals[i].proposer.clone());
        proof {
            assert forall|v: Seq<char>| #[trigger] has_str(out@, v) <==> (exists|j: int|
                0 <= j < i + 1 && #[trigger] proposals@[j].proposer@ == v) by {
                if has_str(out@, v) && v != proposals@[i as int].proposer@ {
                    let j = choose|j: int| 0 <= j < i && #[trigger] proposals@[j].proposer@ == v;
                    assert(proposals@[j].proposer@ == v);
                }
                if exists|j: int| 0 <= j < i + 1 && #[trigger] proposals@[j].proposer@ == v {
                    let j = choose|j: int|
                        0 <= j < i + 1 && #[trigger] proposals@[j].proposer@ == v;
                    if j == i {
                        assert(v == proposals@[i as int].proposer@);
                    }
                }
            }
        }
        i += 1;
    }
    let total = out.len();
    ProposersResponse { proposers: out, total }
}

/// The distinct accounts that voted on any proposal of the snapshot.
pub fn get_dao_approvers(proposals: &Vec<Proposal>) -> (r: ApproversResponse)
    ensures
        r.total == r.approvers@.len(),
        distinct_strs(r.approvers@),
        forall|v: Seq<char>|
            has_str(r.approvers@, v) <==> (exists|i: int, j: int|
                0 <= i < proposals@.len() && 0 <= j < proposals@[i].votes@.len()
                    && #[trigger] proposals@[i].votes@[j].account@ == v),
{
    let mut out: Vec<String> = Vec::new();
    let n = proposals.len();
    let mut i: usize = 0;
    while i < n
        invariant
            n == proposals@.len(),
            i <= n,
            distinct_strs(out@),
            forall|v: Seq<char>|
                #[trigger] has_str(out@, v) <==> (exists|p: int, j: int|
                    0 <= p < i && 0 <= j < proposals@[p].votes@.len()
                        && #[trigger] proposals@[p].votes@[j].account@ == v),
        decreases n - i,
    {
        let votes = &proposals[i].votes;
        let m = votes.len();
        let mut j: usize = 0;
        while j < m
            invariant
                n == proposals@.len(),
                i < n,
                m == proposals@[i as int].votes@.len(),
                votes == &proposals@[i as int].votes,
                j <= m,
                distinct_strs(out@),
                forall|v: Seq<char>|
                    #[trigger] has_str(out@, v) <==> ((exists|p: int, q: int|
                        0 <= p < i && 0 <= q < proposals@[p].votes@.len()
                            && #[trigger] proposals@[p].votes@[q].account@ == v) || (exists|q: int|
                        0 <= q < j && #[trigger] proposals@[i as int].votes@[q].account@ == v)),
            decreases m - j,
        {
            push_unique(&mut out, votes[j].account.clone());
            proof {
                assert forall|v: Seq<char>| #[trigger] has_str(out@, v) <==> ((exists|
                    p: int,
                    q: int,
                |
                    0 <= p < i && 0 <= q < proposals@[p].votes@.len()
                        && #[trigger] proposals@[p].votes@[q].account@ == v) || (exists|q: int|
                    0 <= q < j + 1 && #[trigger] proposals@[i as int].votes@[q].account@ == v)) by {
                    if exists|q: int|
                        0 <= q < j + 1 && #[trigger] proposals@[i as int].votes@[q].account@ == v {
                        let q = choose|q: int|
                            0 <= q < j + 1 && #[trigger] proposals@[i as int].votes@[q].account@
                                == v;
                        if q == j {
                            assert(v == proposals@[i as int].votes@[j as int].account@);
                        }
                    }
                }
            }
            j += 1;
        }
        proof {
            assert forall|v: Seq<char>| #[trigger] has_str(out@, v) <==> (exists|p: int, q: int|
                0 <= p < i + 1 && 0 <= q < proposals@[p].votes@.len()
                    && #[trigger] proposals@[p].votes@[q].account@ == v) by {
                if has_str(out@, v) {
                }
                if exists|p: int, q: int|
                    0 <= p < i + 1 && 0 <= q < proposals@[p].votes@.len()
                        && #[trigger] proposals@[p].votes@[q].account@ == v {
                    let (p, q) = choose|p: int, q: int|
                        0 <= p < i + 1 && 0 <= q < proposals@[p].votes@.len()
                            && #[trigger] proposals@[p].votes@[q].account@ == v;
                }
            }
        }
        i += 1;
    }
    let total = out.len();
    ApproversResponse { approvers: out, total }
}

/// The distinct recipients over the snapshot's payment proposals.
pub fn get_dao_recipients(payments: &Vec<PaymentInfo>) -> (r: RecipientsResponse)
    ensures
        r.total == r.recipients@.len(),
        distinct_strs(r.recipients@),
        forall|v: Seq<char>|
            has_str(r.recipients@, v) <==> (exists|i: int|
                0 <= i < payments@.len() && #[trigger] payments@[i].receiver@ == v),
{
    let mut out: Vec<String> = Vec::new();
    let n = payments.len();
    let mut i: usize = 0;
    while i < n
        invariant
            n == payments@.len(),
            i <= n,
            distinct_strs(out@),
            forall|v: Seq<char>|
                #[trigger] has_str(out@, v) <==> (exists|j: int|
                    0 <= j < i && #[trigger] payments@[j].receiver@ == v),
        decreases n - i,
    {
        push_unique(&mut out, payments[i].receiver.clone());
        proof {
            assert forall|v: Seq<char>| #[trigger] has_str(out@, v) <==> (exists|j: int|
                0 <= j < i + 1 && #[trigger] payments@[j].receiver@ == v) by {
                if exists|j: int| 0 <= j < i + 1 && #[trigger] payments@[j].receiver@ == v {
                    let j = choose|j: int|
                        0 <= j < i + 1 && #[trigger] payments@[j].receiver@ == v;
                    if j == i {
                        assert(v == payments@[i as int].receiver@);
                    }
                }
            }
        }
        i += 1;
    }
    let total = out.len();
    RecipientsResponse { recipients: out, total }
}

/// The name under which a payment's token is reported: the empty
/// identifier stands for the native token.
pub open spec fn reported_token(t: Seq<char>) -> Seq<char> {
    if t.len() == 0 {
        "near"@
    } else {
        t
    }
}

/// The distinct requested tokens over the snapshot's payment proposals,
/// with the empty identifier reported as the native token's name.
pub fn get_dao_requested_tokens(payments: &Vec<PaymentInfo>) -> (r: RequestedTokensResponse)
    ensures
        r.total == r.requested_tokens@.len(),
        distinct_strs(r.requested_tokens@),
        forall|v: Seq<char>|
            has_str(r.requested_tokens@, v) <==> (exists|i: int|
                0 <= i < payments@.len() && #[trigger] reported_token(payments@[i].token@) == v),
{
    let mut out: Vec<String> = Vec::new();
    let n = payments.len();
    let mut i: usize = 0;
    while i < n
        invariant
            n == payments@.len(),
            i <= n,
            distinct_strs(out@),
            forall|v: Seq<char>|
                #[trigger] has_str(out@, v) <==> (exists|j: int|
                    0 <= j < i && #[trigger] reported_token(payments@[j].token@) == v),
        decreases n - i,
    {
        let token = if payments[i].token.as_str().is_empty() {
            "near".to_owned()
        } else {
            payments[i].token.clone()
        };
        proof {
            assert(token@ == reported_token(payments@[i as int].token@));
        }
        push_unique(&mut out, token);
        proof {
            assert forall|v: Seq<char>| #[trigger] has_str(out@, v) <==> (exists|j: int|
                0 <= j < i + 1 && #[trigger] reported_token(payments@[j].token@) == v) by {
                if exists|j: int|
                    0 <= j < i + 1 && #[trigger] reported_token(payments@[j].token@) == v {
                    let j = choose|j: int|
                        0 <= j < i + 1 && #[trigger] reported_token(payments@[j].token@) == v;
                    if j == i {
                        assert(v == reported_token(payments@[i as int].token@));
                    }
                }
            }
        }
        i += 1;
    }
    let total = out.len();
    RequestedTokensResponse { requested_tokens: out, total }
}

/// The distinct validators, after the caller has resolved lockup accounts
/// to their staking pools where it could.
pub fn get_dao_validators(validators: &Vec<String>) -> (r: ValidatorsResponse)
    ensures
        r.total == r.validators@.len(),
        distinct_strs(r.validators@),
        forall|v: Seq<char>| has_str(r.validators@, v) <==> has_str(validators@, v),
{
    let mut out: Vec<String> = Vec::new();
    let n = validators.len();
    let mut i: usize = 0;
    while i < n
        invariant
            n == validators@.len(),
            i <= n,
            distinct_strs(out@),
            forall|v: Seq<char>|
                #[trigger] has_str(out@, v) <==> (exists|j: int|
                    0 <= j < i && #[trigger] validators@[j]@ == v),
        decreases n - i,
    {
        push_unique(&mut out, validators[i].clone());
        proof {
            assert forall|v: Seq<char>| #[trigger] has_str(out@, v) <==> (exists|j: int|
                0 <= j < i + 1 && #[trigger] validators@[j]@ == v) by {
                if exists|j: int| 0 <= j < i + 1 && #[trigger] validators@[j]@ == v {
                    let j = choose|j: int| 0 <= j < i + 1 && #[trigger] validators@[j]@ == v;
                    if j == i {
                        assert(v == validators@[i as int]@);
                    }
                }
            }
        }
        i += 1;
    }
    let total = out.len();
    ValidatorsResponse { validators: out, total }
}

/// Whether a stake-delegation validator is itself a lockup account, whose
/// real staking pool must be resolved upstream: its name contains the
/// lockup-contract suffix.
pub fn needs_lockup_resolution(info: &StakeDelegationInfo) -> (r: bool)
    ensures
        r == crate::strutil::spec_str_contains(info.validator@, ".lockup.near"@),
{
    crate::strutil::str_contains(info.validator.as_str(), ".lockup.near")
}

} // verus!
