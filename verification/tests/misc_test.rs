use dao_cache::derived::{
    get_dao_approvers, get_dao_proposers, get_dao_recipients, get_dao_requested_tokens,
    get_dao_validators, needs_lockup_resolution,
};
use dao_cache::lockup::lockup_account_for;
use dao_cache::strutil::{str_contains, str_eq};
use dao_cache::token::native_metadata;
use dao_cache::types::{FtMetadata, PaymentInfo, Proposal, StakeDelegationInfo, Vote, VoteEntry};

// The empty identifier and the native token's name, in any ASCII casing,
// short-circuit to the fixed built-in descriptor with 24 decimal places;
// no cache or upstream is consulted.
#[test]
fn native_token_short_circuit() {
    for id in ["", "near", "NEAR", "Near", "nEaR"] {
        let meta = native_metadata(id).expect("native identifier");
        assert_eq!(meta.decimals, 24);
        assert_eq!(meta.name, "Near");
        assert_eq!(meta.symbol, "NEAR");
        assert!(meta.icon.is_none());
    }
    for id in ["nears", "wrap.near", "n", "ear", "usdt.tether-token.near"] {
        assert!(native_metadata(id).is_none());
    }
}

#[test]
fn builtin_descriptors() {
    let near = FtMetadata::near();
    assert_eq!(near.name, "Near");
    assert_eq!(near.symbol, "NEAR");
    assert_eq!(near.decimals, 24);
    let empty = FtMetadata::empty();
    assert_eq!(empty.name, "");
    assert_eq!(empty.symbol, "");
    assert_eq!(empty.decimals, 0);
}

// The lockup account is the first twenty bytes of the account's SHA-256
// digest in lowercase hex, under the lockup contract's domain.
#[test]
fn lockup_account_name() {
    assert_eq!(
        lockup_account_for("alpha.near").unwrap(),
        "11f8464d4e1b00165428770a6b9096c71aa386d3.lockup.near"
    );
    assert_eq!(
        lockup_account_for("testing-astradao.sputnik-dao.near").unwrap(),
        "d6d8a4615737815082b487c61f6f744f107b1e60.lockup.near"
    );
    assert!(lockup_account_for("").is_none());
}

#[test]
fn string_utilities() {
    assert!(str_eq("", ""));
    assert!(str_eq("abc", "abc"));
    assert!(!str_eq("abc", "abd"));
    assert!(!str_eq("abc", "abcd"));
    assert!(str_contains("my.lockup.near.account", "lockup.near"));
    assert!(str_contains("abc", ""));
    assert!(!str_contains("ab", "abc"));
    assert!(!str_contains("alpha.near", "lockup"));
}

fn proposal_by(id: u64, proposer: &str, voters: &[&str]) -> Proposal {
    let mut p = Proposal::placeholder();
    p.id = id;
    p.proposer = proposer.to_string();
    p.votes = voters
        .iter()
        .map(|v| VoteEntry { account: v.to_string(), vote: Vote::Approve })
        .collect();
    p
}

#[test]
fn distinct_proposers_and_approvers() {
    let proposals = vec![
        proposal_by(0, "alice.near", &["carol.near", "dave.near"]),
        proposal_by(1, "bob.near", &["dave.near"]),
        proposal_by(2, "alice.near", &[]),
    ];
    let proposers = get_dao_proposers(&proposals);
    assert_eq!(proposers.proposers, vec!["alice.near", "bob.near"]);
    assert_eq!(proposers.total, 2);

    let approvers = get_dao_approvers(&proposals);
    assert_eq!(approvers.approvers, vec!["carol.near", "dave.near"]);
    assert_eq!(approvers.total, 2);
}

fn payment(receiver: &str, token: &str) -> PaymentInfo {
    PaymentInfo {
        receiver: receiver.to_string(),
        token: token.to_string(),
        amount: "1".to_string(),
        is_lockup: false,
    }
}

#[test]
fn distinct_recipients_and_tokens() {
    let payments = vec![
        payment("x.near", ""),
        payment("y.near", "usdt.tether-token.near"),
        payment("x.near", "near"),
    ];
    let recipients = get_dao_recipients(&payments);
    assert_eq!(recipients.recipients, vec!["x.near", "y.near"]);
    assert_eq!(recipients.total, 2);

    // The empty token identifier is reported under the native token's
    // name, and merges with an explicit "near".
    let tokens = get_dao_requested_tokens(&payments);
    assert_eq!(tokens.requested_tokens, vec!["near", "usdt.tether-token.near"]);
    assert_eq!(tokens.total, 2);
}

#[test]
fn distinct_validators_and_lockup_resolution() {
    let resolved = vec![
        "astro-stakers.poolv1.near".to_string(),
        "zavodil.poolv1.near".to_string(),
        "astro-stakers.poolv1.near".to_string(),
    ];
    let validators = get_dao_validators(&resolved);
    assert_eq!(validators.validators, vec!["astro-stakers.poolv1.near", "zavodil.poolv1.near"]);
    assert_eq!(validators.total, 2);

    let lockup_info = StakeDelegationInfo {
        amount: "1".to_string(),
        proposal_type: "stake".to_string(),
        validator: "11f8464d4e1b00165428770a6b9096c71aa386d3.lockup.near".to_string(),
    };
    assert!(needs_lockup_resolution(&lockup_info));
    let direct_info = StakeDelegationInfo {
        amount: "1".to_string(),
        proposal_type: "stake".to_string(),
        validator: "astro-stakers.poolv1.near".to_string(),
    };
    assert!(!needs_lockup_resolution(&direct_info));
}
