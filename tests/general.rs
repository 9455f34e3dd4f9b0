use voyager::contract::{Contract, Effect};
use voyager::policy::{default_policy, Policy, RoleKind, RolePermission, VersionedPolicy, VotePolicy, WeightKind, WeightOrRatio};
use voyager::proposals::{ActionCall, Instruction, Proposal, ProposalStatus, VersionedProposal};
use voyager::types::{Action, Config, Context, DaoError};

const NEAR: u128 = 1_000_000_000_000_000_000_000_000;

fn user(id: u32) -> String {
    format!("user{}", id)
}

fn ctx(who: &str, deposit: u128, now: u64) -> Context {
    Context { predecessor_account_id: who.to_string(), attached_deposit: deposit, block_timestamp: now, user_weight: 0 }
}

fn weighted(who: &str, weight: u128) -> Context {
    Context { predecessor_account_id: who.to_string(), attached_deposit: NEAR, block_timestamp: 0, user_weight: weight }
}

fn test_config() -> Config {
    Config { name: "test".to_string(), purpose: "to test".to_string(), metadata: vec![] }
}

fn dao(council: &[&str]) -> Contract {
    Contract::new(test_config(), VersionedPolicy::Default(council.iter().map(|s| s.to_string()).collect()))
}

fn transfer(to: &str, amount: u128) -> Vec<Instruction> {
    vec![Instruction::Transfer { token_id: String::new(), receiver_id: to.to_string(), amount }]
}

fn status(c: &Contract, id: u64) -> ProposalStatus {
    c.get_proposal(id).unwrap().status
}

fn council_policy(council: &[&str], community: &[&str]) -> Policy {
    Policy {
        proposal_kinds: Vec::new(),
        roles: vec![
            RolePermission { name: "all".to_string(), kind: RoleKind::Everyone, permissions: vec!["*:AddProposal".to_string()] },
            RolePermission {
                name: "council".to_string(),
                kind: RoleKind::Group(council.iter().map(|s| s.to_string()).collect()),
                permissions: vec!["*:*".to_string()],
            },
            RolePermission {
                name: "community".to_string(),
                kind: RoleKind::Group(community.iter().map(|s| s.to_string()).collect()),
                permissions: vec!["*:*".to_string()],
            },
        ],
        default_vote_policy: VotePolicy::default(),
        proposal_bond: 10u128.pow(24),
        proposal_period: 1_000_000_000 * 60 * 60 * 24 * 7,
        bounty_bond: 10u128.pow(24),
        bounty_forgiveness_period: 1_000_000_000 * 60 * 60 * 24,
    }
}

#[test]
fn test_multi_council() {
    let root = "root";
    let mut c = dao(&[root]);
    let (u1, u2, u3, u4) = (user(1), user(2), user(3), user(4));
    let new_policy = council_policy(&[&u1, &u2], &[&u1, &u3, &u4]);
    let change = vec![Instruction::ChangePolicy { policy: VersionedPolicy::Current(new_policy.clone()) }];
    assert_eq!(c.propose(&ctx(root, NEAR, 0), "new policy".to_string(), change), Ok(0));
    assert_eq!(c.approve(&ctx(root, 0, 0), 0, 0), Ok(()));
    assert_eq!(c.get_policy(), &new_policy);
    assert_eq!(c.propose(&ctx(root, NEAR, 0), "transfer".to_string(), transfer(&u1, 1_000_000)), Ok(1));
    c.approve(&ctx(&u2, 0, 0), 1, 0).unwrap();
    c.approve(&ctx(&u3, 0, 0), 1, 0).unwrap();
    // Votes from members in different councils.
    assert_eq!(status(&c, 1), ProposalStatus::InProgress);
    // Finish with vote that is in both councils, which approves the proposal.
    c.approve(&ctx(&u1, 0, 0), 1, 0).unwrap();
    assert_eq!(status(&c, 1), ProposalStatus::Approved { version: 0 });
}

#[test]
fn test_create_dao_and_use_token() {
    let root = "root";
    let (u2, u3) = (user(2), user(3));
    let mut c = dao(&[root]);
    assert!(c.get_staking_contract().is_none());
    let add = |m: &str| vec![Instruction::AddMemberToRole { member_id: m.to_string(), role: "council".to_string() }];
    c.propose(&ctx(root, NEAR, 0), "add".to_string(), add(&u2)).unwrap();
    assert_eq!(c.get_last_proposal_id(), 1);
    // Voting by user who is not member should fail.
    assert_eq!(c.approve(&ctx(&u2, 0, 0), 0, 0), Err(DaoError::PermissionDenied));
    assert_eq!(c.approve(&ctx(root, 0, 0), 0, 0), Ok(()));
    // voting second time should fail.
    assert!(c.approve(&ctx(root, 0, 0), 0, 0).is_err());
    // Add 3rd member.
    c.propose(&ctx(&u2, NEAR, 0), "add".to_string(), add(&u3)).unwrap();
    c.approve(&ctx(root, 0, 0), 1, 0).unwrap();
    c.approve(&ctx(&u2, 0, 0), 1, 0).unwrap();
    let policy = c.get_policy();
    assert_eq!(policy.roles.len(), 2);
    assert_eq!(policy.roles[1].kind, RoleKind::Group(vec![root.to_string(), u2.clone(), u3.clone()]));
    let staking = vec![Instruction::SetStakingContract { staking_id: "staking".to_string() }];
    c.propose(&ctx(&u2, NEAR, 0), "test".to_string(), staking).unwrap();
    c.approve(&ctx(&u3, 0, 0), 2, 0).unwrap();
    c.approve(&ctx(&u2, 0, 0), 2, 0).unwrap();
    assert!(!c.get_staking_contract().unwrap().is_empty());
    assert_eq!(status(&c, 2), ProposalStatus::Approved { version: 0 });
}

#[test]
fn counter_proposal_race_refunds_both_proposers() {
    let mut c = dao(&["a", "b", "x"]);
    let mut p = c.policy.clone();
    p.roles[0].permissions.push("*:AddCounterProposal".to_string());
    c.policy = p;
    c.propose(&ctx("a", NEAR, 0), "v0".to_string(), transfer("a", 5)).unwrap();
    assert_eq!(c.counter_propose(&ctx("b", NEAR, 0), 0, "v1".to_string(), transfer("b", 6)), Ok(1));
    let p = c.get_proposal(0).unwrap();
    assert_eq!(p.versions.len(), 2);
    assert_eq!(p.approve_count, vec![0, 0]);
    assert_eq!(p.remove_count, vec![0, 0]);
    assert_eq!(p.remove_flag, vec![false, false]);
    c.approve(&ctx("a", 0, 0), 0, 0).unwrap();
    c.approve(&ctx("b", 0, 0), 0, 1).unwrap();
    assert_eq!(status(&c, 0), ProposalStatus::InProgress);
    c.approve(&ctx("x", 0, 0), 0, 1).unwrap();
    assert_eq!(status(&c, 0), ProposalStatus::Approved { version: 1 });
    let effects = c.take_effects();
    assert_eq!(
        effects,
        vec![
            Effect::Transfer { receiver_id: "a".to_string(), amount: NEAR },
            Effect::Transfer { receiver_id: "b".to_string(), amount: NEAR },
            Effect::Transfer { receiver_id: "b".to_string(), amount: 6 },
        ]
    );
    assert!(c.effects.is_empty());
}

#[test]
fn expired_proposal_finalizes_and_refunds() {
    let mut c = dao(&["a"]);
    let period = c.policy.proposal_period;
    c.propose(&ctx("a", NEAR, 100), "t".to_string(), transfer("z", 1)).unwrap();
    assert_eq!(c.finalize(&ctx("a", 0, 100 + period), 0), Err(DaoError::ProposalNotExpired));
    assert_eq!(c.finalize(&ctx("a", 0, 100 + period + 1), 0), Ok(()));
    assert_eq!(status(&c, 0), ProposalStatus::Expired);
    assert_eq!(c.effects, vec![Effect::Transfer { receiver_id: "a".to_string(), amount: NEAR }]);
    assert_eq!(c.finalize(&ctx("a", 0, 100 + period + 1), 0), Err(DaoError::ProposalNotInProgress));
    assert_eq!(c.approve(&ctx("a", 0, 0), 0, 0), Err(DaoError::ProposalNotInProgress));
}

#[test]
fn standalone_instructions_must_stand_alone() {
    let mut c = dao(&["a"]);
    let mixed = vec![
        Instruction::Transfer { token_id: String::new(), receiver_id: "z".to_string(), amount: 1 },
        Instruction::SetStakingContract { staking_id: "s".to_string() },
    ];
    assert_eq!(c.propose(&ctx("a", NEAR, 0), "x".to_string(), mixed), Err(DaoError::InvalidInstructionSet));
    assert_eq!(DaoError::InvalidInstructionSet.as_str(), "ERR_INVALID_INSTRUCTION_SET");
    assert_eq!(c.propose(&ctx("a", NEAR, 0), "x".to_string(), vec![]), Err(DaoError::EmptyInstructionSet));
    assert_eq!(c.propose(&ctx("a", NEAR - 1, 0), "x".to_string(), transfer("z", 1)), Err(DaoError::MinBond));
    let bad = Policy { default_vote_policy: VotePolicy { weight_kind: WeightKind::RoleWeight, quorum: 0, threshold: WeightOrRatio::Ratio(1, 0) }, ..default_policy(vec![]) };
    let change = vec![Instruction::ChangePolicy { policy: VersionedPolicy::Current(bad) }];
    assert_eq!(c.propose(&ctx("a", NEAR, 0), "x".to_string(), change), Err(DaoError::InvalidInstructionSet));
    assert_eq!(c.get_last_proposal_id(), 0);
}

#[test]
fn double_vote_and_vote_switch() {
    let mut c = dao(&["a", "b", "d"]);
    c.propose(&ctx("a", NEAR, 0), "t".to_string(), transfer("z", 1)).unwrap();
    c.approve(&ctx("a", 0, 0), 0, 0).unwrap();
    assert_eq!(c.approve(&ctx("a", 0, 0), 0, 0), Err(DaoError::AlreadyVoted));
    c.reject(&ctx("a", 0, 0), 0).unwrap();
    let p = c.get_proposal(0).unwrap();
    assert_eq!(p.approve_count, vec![0]);
    assert_eq!(p.reject_count, 1);
    assert_eq!(p.votes.len(), 1);
    assert_eq!(p.status, ProposalStatus::InProgress);
    assert_eq!(c.reject(&ctx("a", 0, 0), 0), Err(DaoError::AlreadyVoted));
    c.reject(&ctx("b", 0, 0), 0).unwrap();
    assert_eq!(status(&c, 0), ProposalStatus::Rejected);
    assert_eq!(c.effects, vec![Effect::Transfer { receiver_id: "a".to_string(), amount: NEAR }]);
}

#[test]
fn token_weight_votes_count_delegated_weight() {
    let mut policy = default_policy(vec!["a".to_string(), "b".to_string()]);
    policy.default_vote_policy = VotePolicy { weight_kind: WeightKind::TokenWeight, quorum: 0, threshold: WeightOrRatio::Ratio(1, 2) };
    let mut c = Contract::new(test_config(), VersionedPolicy::Current(policy));
    c.total_delegation_amount = 100;
    c.propose(&weighted("a", 30), "t".to_string(), transfer("z", 1)).unwrap();
    c.approve(&weighted("a", 30), 0, 0).unwrap();
    assert_eq!(c.get_proposal(0).unwrap().approve_count, vec![30]);
    assert_eq!(status(&c, 0), ProposalStatus::InProgress);
    c.approve(&weighted("b", 21), 0, 0).unwrap();
    assert_eq!(status(&c, 0), ProposalStatus::Approved { version: 0 });
}

#[test]
fn proposal_errors() {
    let mut c = dao(&["a", "b"]);
    assert_eq!(c.approve(&ctx("a", 0, 0), 3, 0), Err(DaoError::NoProposal));
    c.propose(&ctx("a", NEAR, 0), "t".to_string(), transfer("z", 1)).unwrap();
    assert_eq!(c.approve(&ctx("a", 0, 0), 0, 1), Err(DaoError::NoProposalVersion));
    assert_eq!(c.approve(&ctx("a", 0, 0), 0, 255), Err(DaoError::NoProposalVersion));
    assert_eq!(c.withdraw(&ctx("a", 0, 0), 0, 0), Err(DaoError::PermissionDenied));
    assert_eq!(c.remove(&ctx("a", 0, 0), 0), Err(DaoError::PermissionDenied));
    let diff = vec![Instruction::Vote];
    let kinds = voyager::proposals::ProposalKind { name: "signal".to_string(), required_instrs: vec![11], vote_policy: VotePolicy::default() };
    c.policy.proposal_kinds.push(kinds);
    c.policy.roles[1].permissions.push("*:AddCounterProposal".to_string());
    assert_eq!(c.counter_propose(&ctx("a", NEAR, 0), 0, "v".to_string(), diff), Err(DaoError::DifferentProposalKind));
    assert_eq!(c.counter_propose(&ctx("a", NEAR, 0), 9, "v".to_string(), transfer("z", 2)), Err(DaoError::NoProposal));
    assert_eq!(c.counter_propose(&ctx("z", NEAR, 0), 0, "v".to_string(), transfer("z", 2)), Err(DaoError::PermissionDenied));
}

#[test]
fn withdraw_veto_remove_amend() {
    let mut c = dao(&["a", "b", "d"]);
    let mut p = c.policy.clone();
    p.roles[1].permissions = vec!["*:*".to_string()];
    c.policy = p;
    c.propose(&ctx("a", NEAR, 0), "v0".to_string(), transfer("z", 1)).unwrap();
    c.counter_propose(&ctx("b", NEAR, 0), 0, "v1".to_string(), transfer("z", 2)).unwrap();
    assert_eq!(c.withdraw(&ctx("b", 0, 0), 0, 0), Err(DaoError::UnauthorizedWithdraw));
    assert_eq!(c.amend(&ctx("b", NEAR, 0), 0, 0, "x".to_string(), transfer("z", 3)), Err(DaoError::UnauthorizedAmend));
    assert_eq!(c.amend(&ctx("a", NEAR, 0), 0, 5, "x".to_string(), transfer("z", 3)), Err(DaoError::NoProposalVersion));
    assert_eq!(c.amend(&ctx("a", NEAR, 0), 0, 0, "x".to_string(), transfer("z", 3)), Ok(()));
    assert_eq!(c.get_proposal(0).unwrap().versions[0].description, "x");
    c.approve(&ctx("d", 0, 0), 0, 0).unwrap();
    assert_eq!(c.withdraw(&ctx("a", 0, 0), 0, 0), Err(DaoError::VotingBegun));
    assert_eq!(c.amend(&ctx("a", NEAR, 0), 0, 0, "y".to_string(), transfer("z", 3)), Err(DaoError::VotingBegun));
    assert_eq!(c.withdraw(&ctx("b", 0, 0), 0, 1), Ok(()));
    assert_eq!(c.withdraw(&ctx("b", 0, 0), 0, 1), Err(DaoError::AlreadyRemoved));
    assert_eq!(c.approve(&ctx("a", 0, 0), 0, 1), Err(DaoError::ProposalRemoved));
    // Removal votes use the caller's weight; the threshold is two council votes.
    c.propose(&ctx("a", NEAR, 0), "w".to_string(), transfer("z", 1)).unwrap();
    c.veto(&weighted("a", 1), 1, 0).unwrap();
    assert_eq!(c.veto(&weighted("a", 1), 1, 0), Err(DaoError::AlreadyVoted));
    assert!(!c.get_proposal(1).unwrap().remove_flag[0]);
    c.veto(&weighted("b", 1), 1, 0).unwrap();
    assert!(c.get_proposal(1).unwrap().remove_flag[0]);
    assert_eq!(c.get_proposal(1).unwrap().remove_count, vec![2]);
    assert_eq!(c.veto(&weighted("b", 1), 1, 4), Err(DaoError::NoProposalVersion));
    c.veto(&weighted("d", u128::MAX), 1, 0).unwrap_err();
    assert_eq!(c.veto(&weighted("d", u128::MAX), 1, 0), Err(DaoError::BalanceOverflow));
    assert_eq!(c.remove(&ctx("a", 0, 0), 1), Ok(()));
    assert!(c.get_proposal(1).is_none());
    assert_eq!(c.remove(&ctx("a", 0, 0), 1), Err(DaoError::NoProposal));
    assert_eq!(c.get_last_proposal_id(), 2);
}

#[test]
fn staking_contract_is_set_once() {
    let mut c = dao(&["a"]);
    let set = |s: &str| vec![Instruction::SetStakingContract { staking_id: s.to_string() }];
    c.propose(&ctx("a", NEAR, 0), "s1".to_string(), set("one")).unwrap();
    c.propose(&ctx("a", NEAR, 0), "s2".to_string(), set("two")).unwrap();
    c.approve(&ctx("a", 0, 0), 0, 0).unwrap();
    assert_eq!(c.get_staking_contract(), Some(&"one".to_string()));
    assert_eq!(c.approve(&ctx("a", 0, 0), 1, 0), Err(DaoError::InvalidStakingChange));
    assert_eq!(c.propose(&ctx("a", NEAR, 0), "s3".to_string(), set("three")), Err(DaoError::StakingContractCantChange));
    assert_eq!(c.get_staking_contract(), Some(&"one".to_string()));
}

#[test]
fn executor_applies_instructions_in_order() {
    let mut c = dao(&["a"]);
    let calls = vec![ActionCall { method_name: "go".to_string(), args: vec![1, 2], deposit: 3, gas: 4 }];
    let instrs = vec![
        Instruction::ChangeConfig { config: Config { name: "new".to_string(), purpose: "p".to_string(), metadata: vec![9] } },
        Instruction::FunctionCall { receiver_id: "r".to_string(), actions: calls.clone() },
        Instruction::Transfer { token_id: "tok".to_string(), receiver_id: "z".to_string(), amount: 8 },
        Instruction::UpgradeRemote { receiver_id: "r".to_string(), method_name: "up".to_string(), hash: [7u8; 32] },
        Instruction::AddMemberToRole { member_id: "m".to_string(), role: "council".to_string() },
    ];
    c.propose(&ctx("a", NEAR, 0), "many".to_string(), instrs).unwrap();
    c.approve(&ctx("a", 0, 0), 0, 0).unwrap();
    assert_eq!(c.get_config().name, "new");
    assert_eq!(c.get_config().metadata, vec![9]);
    assert_eq!(c.policy.roles[1].kind, RoleKind::Group(vec!["a".to_string(), "m".to_string()]));
    assert_eq!(
        c.effects,
        vec![
            Effect::Transfer { receiver_id: "a".to_string(), amount: NEAR },
            Effect::FunctionCall { receiver_id: "r".to_string(), actions: calls },
            Effect::FtTransfer { token_id: "tok".to_string(), receiver_id: "z".to_string(), amount: 8 },
            Effect::UpgradeRemote { receiver_id: "r".to_string(), method_name: "up".to_string(), hash: [7u8; 32] },
        ]
    );
    c.propose(&ctx("a", NEAR, 0), "up".to_string(), vec![Instruction::UpgradeSelf { hash: [1u8; 32] }]).unwrap();
    c.approve(&ctx("a", 0, 0), 1, 0).unwrap();
    assert_eq!(status(&c, 1), ProposalStatus::InProgress);
    c.approve(&ctx("m", 0, 0), 1, 0).unwrap();
    assert_eq!(c.effects.last(), Some(&Effect::UpgradeSelf { hash: [1u8; 32] }));
}

#[test]
fn threshold_uses_unsupported_role_error() {
    let mut c = dao(&["a"]);
    c.policy.roles[0].permissions.push("*:VoteApprove".to_string());
    c.propose(&ctx("a", NEAR, 0), "t".to_string(), transfer("z", 1)).unwrap();
    assert_eq!(c.approve(&ctx("a", 0, 0), 0, 0), Err(DaoError::UnsupportedRole));
    assert_eq!(status(&c, 0), ProposalStatus::InProgress);
}

#[test]
fn too_many_versions_is_refused() {
    let mut c = dao(&["a"]);
    c.policy.roles[0].permissions.push("*:AddCounterProposal".to_string());
    c.propose(&ctx("a", NEAR, 0), "v".to_string(), transfer("z", 1)).unwrap();
    for i in 1..255u32 {
        assert_eq!(c.counter_propose(&ctx("b", NEAR, 0), 0, "v".to_string(), transfer("z", 1)), Ok(i as u8));
    }
    assert_eq!(c.counter_propose(&ctx("b", NEAR, 0), 0, "v".to_string(), transfer("z", 1)), Err(DaoError::TooManyVersions));
    assert_eq!(c.approve(&ctx("a", 0, 0), 0, 254), Ok(()));
    assert_eq!(status(&c, 0), ProposalStatus::Approved { version: 254 });
}

#[test]
fn versioned_proposal_unwraps() {
    let mut c = dao(&["a"]);
    c.propose(&ctx("a", NEAR, 0), "t".to_string(), transfer("z", 1)).unwrap();
    let p = c.get_proposal(0).unwrap().clone();
    let q: Proposal = VersionedProposal::Default(p.clone()).into();
    assert_eq!(p, q);
    assert_eq!(Action::VoteRemove.to_label(), "VoteRemove");
    assert_eq!(DaoError::TooManyVersions.as_str(), "ERR_TOO_MANY_VERSIONS");
}

#[test]
fn instruction_set_validity_is_the_standalone_rule() {
    let c = dao(&["a"]);
    assert!(c.is_valid_instruction_set(&vec![]));
    assert!(c.is_valid_instruction_set(&vec![Instruction::Vote]));
    assert!(c.is_valid_instruction_set(&transfer("z", 1)));
    assert!(!c.is_valid_instruction_set(&vec![Instruction::Vote, Instruction::Vote]));
    let bad = Policy { default_vote_policy: VotePolicy { weight_kind: WeightKind::RoleWeight, quorum: 0, threshold: WeightOrRatio::Ratio(1, 0) }, ..default_policy(vec![]) };
    let change = vec![Instruction::ChangePolicy { policy: VersionedPolicy::Current(bad) }];
    assert!(c.is_valid_instruction_set(&change));
    assert!(!c.carried_policies_valid(&change));
    assert!(c.carried_policies_valid(&transfer("z", 1)));
}

#[test]
fn member_edit_after_policy_change_applies_to_new_policy() {
    let mut c = dao(&["a"]);
    let instrs = vec![
        Instruction::ChangePolicy { policy: VersionedPolicy::Default(vec!["b".to_string()]) },
        Instruction::AddMemberToRole { member_id: "c".to_string(), role: "council".to_string() },
    ];
    c.propose(&ctx("a", NEAR, 0), "p".to_string(), instrs).unwrap();
    c.approve(&ctx("a", 0, 0), 0, 0).unwrap();
    assert_eq!(c.policy.roles[1].kind, RoleKind::Group(vec!["b".to_string(), "c".to_string()]));
}
