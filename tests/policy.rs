use voyager::contract::Contract;
use voyager::policy::{
    default_policy, Policy, RoleKind, RolePermission, UserInfo, VersionedPolicy, VotePolicy, WeightKind, WeightOrRatio,
};
use voyager::proposals::{Instruction, ProposalKind};
use voyager::types::{Action, Config, DaoError};

fn perms(list: &[&str]) -> Vec<String> {
    list.iter().map(|s| s.to_string()).collect()
}

fn group(list: &[&str]) -> RoleKind {
    RoleKind::Group(list.iter().map(|s| s.to_string()).collect())
}

fn user(name: &str, amount: u128) -> UserInfo {
    UserInfo { account_id: name.to_string(), amount }
}

fn plain_policy(roles: Vec<RolePermission>, kinds: Vec<ProposalKind>) -> Policy {
    Policy {
        proposal_kinds: kinds,
        roles,
        default_vote_policy: VotePolicy::default(),
        proposal_bond: 10u128.pow(24),
        proposal_period: 1_000_000_000 * 60 * 60 * 24 * 7,
        bounty_bond: 10u128.pow(24),
        bounty_forgiveness_period: 1_000_000_000 * 60 * 60 * 24,
    }
}

#[test]
fn test_vote_policy() {
    let r1 = WeightOrRatio::Weight(100);
    assert_eq!(r1.to_weight(1_000_000), 100);
    let r2 = WeightOrRatio::Ratio(1, 2);
    assert_eq!(r2.to_weight(2), 2);
    let r2 = WeightOrRatio::Ratio(1, 2);
    assert_eq!(r2.to_weight(5), 3);
    let r2 = WeightOrRatio::Ratio(1, 1);
    assert_eq!(r2.to_weight(5), 5);
}

#[test]
fn ratio_weight_edges() {
    assert_eq!(WeightOrRatio::Ratio(1, 2).to_weight(0), 0);
    assert_eq!(WeightOrRatio::Ratio(2, 3).to_weight(10), 7);
    assert_eq!(WeightOrRatio::Ratio(3, 2).to_weight(10), 10);
    assert_eq!(WeightOrRatio::Ratio(1, 2).to_weight(u128::MAX), u128::MAX / 2 + 1);
    assert_eq!(WeightOrRatio::Ratio(u64::MAX - 1, u64::MAX).to_weight(u128::MAX), u128::MAX - (1u128 << 64));
    assert_eq!(WeightOrRatio::Weight(100).to_weight(7), 7);
}

#[test]
fn threshold_is_monotone_and_at_least_quorum() {
    let policy = default_policy(vec!["a".to_string()]);
    let vp = VotePolicy { weight_kind: WeightKind::TokenWeight, quorum: 40, threshold: WeightOrRatio::Ratio(1, 2) };
    let kind = String::new();
    let small = policy.get_threshold(&vp, 10, &kind).unwrap();
    let large = policy.get_threshold(&vp, 1000, &kind).unwrap();
    assert_eq!(small, 40);
    assert_eq!(large, 501);
    assert!(small <= large);
}

#[test]
fn role_weight_threshold_counts_group_members() {
    let policy = plain_policy(
        vec![
            RolePermission { name: "all".to_string(), kind: RoleKind::Everyone, permissions: perms(&["*:AddProposal"]) },
            RolePermission { name: "council".to_string(), kind: group(&["a", "b"]), permissions: perms(&["*:*"]) },
            RolePermission { name: "community".to_string(), kind: group(&["a", "c", "d"]), permissions: perms(&["*:*"]) },
        ],
        vec![],
    );
    let vp = VotePolicy::default();
    assert_eq!(policy.get_threshold(&vp, 0, &String::new()), Ok(3));
}

#[test]
fn role_weight_threshold_rejects_non_group_role() {
    let policy = plain_policy(
        vec![RolePermission { name: "all".to_string(), kind: RoleKind::Everyone, permissions: perms(&["*:VoteApprove"]) }],
        vec![],
    );
    let vp = VotePolicy::default();
    assert_eq!(policy.get_threshold(&vp, 0, &String::new()), Err(DaoError::UnsupportedRole));
    assert_eq!(DaoError::UnsupportedRole.as_str(), "ERR_UNSUPPORTED_ROLE");
}

#[test]
fn permissions_match_all_four_patterns() {
    let mk = |p: &str| plain_policy(vec![RolePermission { name: "r".to_string(), kind: RoleKind::Everyone, permissions: perms(&[p]) }], vec![]);
    let kind = "transfer".to_string();
    for p in ["transfer:VoteApprove", "transfer:*", "*:VoteApprove", "*:*"] {
        assert!(mk(p).can_execute_action(user("x", 0), &kind, &Action::VoteApprove));
    }
    assert!(!mk("transfer:VoteReject").can_execute_action(user("x", 0), &kind, &Action::VoteApprove));
    assert!(!mk("config:*").can_execute_action(user("x", 0), &kind, &Action::VoteApprove));
}

#[test]
fn roles_match_by_kind() {
    assert!(RoleKind::Everyone.match_user(&user("x", 0)));
    assert!(RoleKind::Member(10).match_user(&user("x", 10)));
    assert!(!RoleKind::Member(10).match_user(&user("x", 9)));
    assert!(group(&["x"]).match_user(&user("x", 0)));
    assert!(!group(&["y"]).match_user(&user("x", 0)));
    assert_eq!(group(&["x", "y"]).get_role_size(), Some(2));
    assert_eq!(RoleKind::Member(1).get_role_size(), None);
}

#[test]
fn group_membership_edits() {
    let mut g = group(&["a"]);
    assert_eq!(g.add_member_to_group(&"b".to_string()), Ok(()));
    assert_eq!(g.add_member_to_group(&"b".to_string()), Ok(()));
    assert_eq!(g, group(&["a", "b"]));
    assert_eq!(g.remove_member_from_group(&"a".to_string()), Ok(()));
    assert_eq!(g, group(&["b"]));
    let mut e = RoleKind::Everyone;
    assert_eq!(e.add_member_to_group(&"b".to_string()), Err(()));
    assert_eq!(e.remove_member_from_group(&"b".to_string()), Err(()));
    assert_eq!(e, RoleKind::Everyone);
}

#[test]
fn member_edits_by_role_name_never_fail() {
    let mut policy = default_policy(vec!["a".to_string()]);
    policy.add_member_to_role(&"council".to_string(), &"b".to_string());
    assert_eq!(policy.roles[1].kind, group(&["a", "b"]));
    policy.remove_member_from_role(&"council".to_string(), &"a".to_string());
    assert_eq!(policy.roles[1].kind, group(&["b"]));
    let before = policy.clone();
    policy.add_member_to_role(&"all".to_string(), &"c".to_string());
    policy.add_member_to_role(&"missing".to_string(), &"c".to_string());
    assert_eq!(policy, before);
}

#[test]
fn default_policy_shape() {
    let policy = default_policy(vec!["a".to_string(), "a".to_string(), "b".to_string()]);
    assert_eq!(policy.roles.len(), 2);
    assert_eq!(policy.roles[0].name, "all");
    assert_eq!(policy.roles[1].kind, group(&["a", "b"]));
    assert_eq!(policy.proposal_bond, 10u128.pow(24));
    assert_eq!(policy.proposal_period, 604_800_000_000_000);
    assert_eq!(policy.bounty_forgiveness_period, 86_400_000_000_000);
    assert!(policy.can_execute_action(user("z", 0), &String::new(), &Action::AddProposal));
    assert!(!policy.can_execute_action(user("z", 0), &String::new(), &Action::VoteApprove));
    assert!(policy.can_execute_action(user("a", 0), &String::new(), &Action::Finalize));
    assert!(!policy.can_execute_action(user("a", 0), &String::new(), &Action::RemoveProposal));
}

#[test]
fn proposal_kind_matching_takes_first_match() {
    let transfer = ProposalKind {
        name: "transfer".to_string(),
        required_instrs: vec![7],
        vote_policy: VotePolicy { weight_kind: WeightKind::TokenWeight, quorum: 5, threshold: WeightOrRatio::Weight(9) },
    };
    let vote = ProposalKind { name: "signal".to_string(), required_instrs: vec![11], vote_policy: VotePolicy::default() };
    let any = ProposalKind { name: "any".to_string(), required_instrs: vec![], vote_policy: VotePolicy::default() };
    let policy = plain_policy(vec![], vec![transfer, vote, any]);
    let t = vec![Instruction::Transfer { token_id: String::new(), receiver_id: "r".to_string(), amount: 1 }];
    assert_eq!(policy.match_proposal_kind(&t), "transfer");
    assert_eq!(policy.match_proposal_kind(&vec![Instruction::Vote]), "signal");
    assert_eq!(policy.match_proposal_kind(&vec![Instruction::AddMemberToRole { member_id: "m".to_string(), role: "r".to_string() }]), "any");
    assert_eq!(policy.get_vote_policy(&"transfer".to_string()).unwrap().quorum, 5);
    assert!(policy.get_vote_policy(&"nothing".to_string()).is_none());
    assert_eq!(plain_policy(vec![], vec![]).match_proposal_kind(&t), "");
    assert_eq!(Instruction::Vote.to_enum(), 11);
    assert_eq!(t[0].to_enum(), 7);
}

#[test]
fn versioned_policy_upgrades_to_default() {
    let v = VersionedPolicy::Default(vec!["a".to_string()]).upgrade();
    assert_eq!(v.clone().to_policy(), default_policy(vec!["a".to_string()]));
    let mut w = v;
    w.to_policy_mut().proposal_bond = 7;
    assert_eq!(w.to_policy().proposal_bond, 7);
    let c = Contract::new(
        Config { name: "n".to_string(), purpose: "p".to_string(), metadata: vec![] },
        VersionedPolicy::Default(vec!["a".to_string()]),
    );
    assert_eq!(c.get_policy(), &default_policy(vec!["a".to_string()]));
}
