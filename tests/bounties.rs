use voyager::bounties::{Bounty, BountyClaim, VersionedBounty};
use voyager::contract::{Contract, Effect};
use voyager::policy::VersionedPolicy;
use voyager::proposals::{Instruction, ProposalStatus};
use voyager::types::{Config, Context, DaoError};

fn to_yocto(near: u128) -> u128 {
    near * 10u128.pow(24)
}

fn at(who: &str, deposit: u128, now: u64) -> Context {
    Context { predecessor_account_id: who.to_string(), attached_deposit: deposit, block_timestamp: now, user_weight: 0 }
}

fn bounty_dao(council: &str) -> Contract {
    Contract::new(
        Config { name: "test".to_string(), purpose: "to test".to_string(), metadata: vec![] },
        VersionedPolicy::Default(vec![council.to_string()]),
    )
}

fn add_bounty(c: &mut Contract, who: &str, times: u32, max_deadline: u64) {
    let id = c.get_last_proposal_id();
    let bounty = Bounty { description: "test bounty".to_string(), token: String::new(), amount: to_yocto(10), times, max_deadline };
    c.propose(&at(who, to_yocto(1), 0), "test".to_string(), vec![Instruction::AddBounty { bounty }]).unwrap();
    c.approve(&at(who, 0, 0), id, 0).unwrap();
}

/// Adds a bounty, and tests its full lifecycle.
#[test]
fn test_bounty_lifecycle() {
    let bob = "bob".to_string();
    let mut contract = bounty_dao(&bob);
    let ctx = at(&bob, to_yocto(1), 0);
    contract
        .propose(
            &ctx,
            "test".to_string(),
            vec![Instruction::AddBounty {
                bounty: Bounty {
                    description: "test bounty".to_string(),
                    token: String::new(),
                    amount: to_yocto(10),
                    times: 2,
                    max_deadline: 1_000,
                },
            }],
        )
        .unwrap();
    assert_eq!(contract.get_last_bounty_id(), 0);

    contract.approve(&ctx, 0, 0).unwrap();

    assert_eq!(contract.get_last_bounty_id(), 1);
    assert_eq!(contract.get_bounty(0).unwrap().times, 2);

    contract.bounty_claim(&ctx, 0, 500).unwrap();
    assert_eq!(contract.get_bounty_claims(&bob).len(), 1);
    assert_eq!(contract.get_bounty_number_of_claims(0), 1);

    contract.bounty_giveup(&ctx, 0).unwrap();
    assert_eq!(contract.get_bounty_claims(&bob).len(), 0);
    assert_eq!(contract.get_bounty_number_of_claims(0), 0);

    contract.bounty_claim(&ctx, 0, 500).unwrap();
    assert_eq!(contract.get_bounty_claims(&bob).len(), 1);
    assert_eq!(contract.get_bounty_number_of_claims(0), 1);

    contract.bounty_done(&ctx, 0, None, "Bounty is done".to_string()).unwrap();
    assert!(contract.get_bounty_claims(&bob)[0].completed);

    assert_eq!(contract.get_last_proposal_id(), 2);
    // The default policy declares no proposal kinds, so the payout proposal has the empty kind.
    assert_eq!(contract.get_proposal(1).unwrap().kind, "");
    assert_eq!(
        contract.get_proposal(1).unwrap().versions[0].instructions,
        vec![Instruction::BountyDone { bounty_id: 0, receiver_id: bob.clone() }]
    );

    contract.approve(&ctx, 1, 0).unwrap();

    assert_eq!(contract.get_bounty_claims(&bob).len(), 0);
    assert_eq!(contract.get_bounty(0).unwrap().times, 1);
    assert_eq!(contract.effects.last(), Some(&Effect::Transfer { receiver_id: bob.clone(), amount: to_yocto(10) }));
}

#[test]
fn claim_then_giveup_within_forgiveness_refunds_bond() {
    let mut c = bounty_dao("a");
    add_bounty(&mut c, "a", 1, 1000);
    let before_count = c.get_bounty_number_of_claims(0);
    let before_effects = c.effects.len();
    c.bounty_claim(&at("w", to_yocto(1), 50), 0, 10).unwrap();
    c.bounty_giveup(&at("w", 0, 50 + c.policy.bounty_forgiveness_period), 0).unwrap();
    assert_eq!(c.get_bounty_number_of_claims(0), before_count);
    assert_eq!(c.effects.len(), before_effects + 1);
    assert_eq!(c.effects.last(), Some(&Effect::Transfer { receiver_id: "w".to_string(), amount: to_yocto(1) }));
}

#[test]
fn giveup_after_forgiveness_keeps_bond() {
    let mut c = bounty_dao("a");
    add_bounty(&mut c, "a", 1, 1000);
    c.bounty_claim(&at("w", to_yocto(1), 50), 0, 10).unwrap();
    let n = c.effects.len();
    c.bounty_giveup(&at("w", 0, 51 + c.policy.bounty_forgiveness_period), 0).unwrap();
    assert_eq!(c.effects.len(), n);
    assert_eq!(c.get_bounty_number_of_claims(0), 0);
}

#[test]
fn claim_errors() {
    let mut c = bounty_dao("a");
    assert_eq!(c.bounty_claim(&at("w", to_yocto(1), 0), 0, 10), Err(DaoError::NoBounty));
    add_bounty(&mut c, "a", 1, 100);
    assert_eq!(c.bounty_claim(&at("w", to_yocto(2), 0), 0, 10), Err(DaoError::BountyWrongBond));
    assert_eq!(c.bounty_claim(&at("w", to_yocto(1), 0), 0, 101), Err(DaoError::BountyWrongDeadline));
    c.bounty_claim(&at("w", to_yocto(1), 0), 0, 100).unwrap();
    assert_eq!(c.bounty_claim(&at("v", to_yocto(1), 0), 0, 10), Err(DaoError::BountyAllClaimed));
    assert_eq!(c.bounty_giveup(&at("v", 0, 0), 0), Err(DaoError::NoBountyClaims));
    add_bounty(&mut c, "a", 1, 100);
    assert_eq!(c.bounty_giveup(&at("w", 0, 0), 1), Err(DaoError::NoBountyClaim));
    assert_eq!(DaoError::BountyAllClaimed.as_str(), "ERR_BOUNTY_ALL_CLAIMED");
}

#[test]
fn done_errors_and_expiry() {
    let mut c = bounty_dao("a");
    add_bounty(&mut c, "a", 2, 100);
    c.bounty_claim(&at("w", to_yocto(1), 0), 0, 100).unwrap();
    assert_eq!(c.bounty_done(&at("x", to_yocto(1), 10), 0, Some("w".to_string()), "d".to_string()), Err(DaoError::BountyDoneMustBeSelf));
    assert_eq!(c.bounty_done(&at("w", 0, 10), 0, None, "d".to_string()), Err(DaoError::MinBond));
    c.bounty_done(&at("w", to_yocto(1), 10), 0, None, "d".to_string()).unwrap();
    assert_eq!(c.bounty_done(&at("w", to_yocto(1), 10), 0, None, "d".to_string()), Err(DaoError::BountyClaimCompleted));
    // A claim past its deadline is released by anyone.
    c.bounty_claim(&at("v", to_yocto(1), 0), 0, 5).unwrap();
    assert_eq!(c.get_bounty_number_of_claims(0), 2);
    let proposals = c.get_last_proposal_id();
    c.bounty_done(&at("x", 0, 6), 0, Some("v".to_string()), "late".to_string()).unwrap();
    assert_eq!(c.get_bounty_number_of_claims(0), 1);
    assert!(c.get_bounty_claims(&"v".to_string()).is_empty());
    assert_eq!(c.get_last_proposal_id(), proposals);
}

#[test]
fn rejected_payout_frees_claim_without_paying() {
    let mut c = bounty_dao("a");
    add_bounty(&mut c, "a", 1, 100);
    c.bounty_claim(&at("w", to_yocto(1), 0), 0, 100).unwrap();
    c.bounty_done(&at("w", to_yocto(1), 1), 0, None, "d".to_string()).unwrap();
    let id = c.get_last_proposal_id() - 1;
    let n = c.effects.len();
    c.reject(&at("a", 0, 1), id).unwrap();
    assert_eq!(c.get_proposal(id).unwrap().status, ProposalStatus::Rejected);
    assert_eq!(c.get_bounty_number_of_claims(0), 0);
    assert_eq!(c.get_bounty(0).unwrap().times, 1);
    assert_eq!(c.effects.len(), n + 1);
    assert_eq!(c.effects[n], Effect::Transfer { receiver_id: "w".to_string(), amount: to_yocto(1) });
}

#[test]
fn last_payout_removes_bounty() {
    let mut c = bounty_dao("a");
    add_bounty(&mut c, "a", 1, 100);
    c.bounty_claim(&at("a", to_yocto(1), 0), 0, 100).unwrap();
    c.bounty_done(&at("a", to_yocto(1), 1), 0, None, "d".to_string()).unwrap();
    let id = c.get_last_proposal_id() - 1;
    c.approve(&at("a", 0, 1), id, 0).unwrap();
    assert!(c.get_bounty(0).is_none());
    assert_eq!(c.get_bounty_number_of_claims(0), 0);
    assert_eq!(c.bounty_claim(&at("a", to_yocto(1), 0), 0, 10), Err(DaoError::NoBounty));
}

#[test]
fn payout_without_claim_is_refused() {
    let mut c = bounty_dao("a");
    add_bounty(&mut c, "a", 1, 100);
    c.bounty_claim(&at("w", to_yocto(1), 0), 0, 100).unwrap();
    c.bounty_done(&at("w", to_yocto(1), 1), 0, None, "d".to_string()).unwrap();
    let id = c.get_last_proposal_id() - 1;
    // The claim is released before the vote, so the payout has nothing to settle.
    c.bounty_claimers.clear();
    c.bounty_claims_count[0] = 0;
    assert_eq!(c.approve(&at("a", 0, 1), id, 0), Err(DaoError::NoBountyClaims));
    assert_eq!(c.get_proposal(id).unwrap().status, ProposalStatus::InProgress);
}

#[test]
fn versioned_bounty_unwraps() {
    let b = Bounty { description: "d".to_string(), token: "t".to_string(), amount: 1, times: 2, max_deadline: 3 };
    let c: Bounty = VersionedBounty::Default(b.clone()).into();
    assert_eq!(b, c);
    assert_eq!(b.copy(), b);
    let claim = BountyClaim { bounty_id: 0, start_time: 1, deadline: 2, completed: false };
    assert_eq!(claim.deadline, 2);
}

#[test]
fn claim_counts_follow_claims_of_all_claimers() {
    let mut c = bounty_dao("a");
    add_bounty(&mut c, "a", 3, 100);
    add_bounty(&mut c, "a", 3, 100);
    c.bounty_claim(&at("w", to_yocto(1), 0), 0, 10).unwrap();
    c.bounty_claim(&at("v", to_yocto(1), 0), 0, 10).unwrap();
    c.bounty_claim(&at("w", to_yocto(1), 0), 1, 10).unwrap();
    assert_eq!(c.get_bounty_number_of_claims(0), 2);
    assert_eq!(c.get_bounty_number_of_claims(1), 1);
    assert_eq!(c.get_bounty_claims(&"w".to_string()).len(), 2);
    c.bounty_giveup(&at("w", 0, 0), 0).unwrap();
    assert_eq!(c.get_bounty_number_of_claims(0), 1);
    assert_eq!(c.get_bounty_claims(&"w".to_string())[0].bounty_id, 1);
    assert_eq!(c.get_bounty_number_of_claims(7), 0);
}

#[test]
fn finalize_releases_claim_of_expired_payout() {
    let mut c = bounty_dao("a");
    add_bounty(&mut c, "a", 2, 100);
    c.bounty_claim(&at("w", to_yocto(1), 0), 0, 100).unwrap();
    c.bounty_done(&at("w", to_yocto(1), 1), 0, None, "d".to_string()).unwrap();
    let id = c.get_last_proposal_id() - 1;
    let n = c.effects.len();
    let late = 2 + c.policy.proposal_period;
    c.finalize(&at("a", 0, late), id).unwrap();
    assert_eq!(c.get_proposal(id).unwrap().status, ProposalStatus::Expired);
    assert_eq!(c.get_bounty_number_of_claims(0), 0);
    assert!(c.get_bounty_claims(&"w".to_string()).is_empty());
    assert_eq!(c.get_bounty(0).unwrap().times, 2);
    assert_eq!(c.effects.len(), n + 1);
}
