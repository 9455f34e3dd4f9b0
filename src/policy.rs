use vstd::prelude::*;

use crate::proposals::{Instruction, Proposal, ProposalKind, ProposalStatus};
use crate::types::{AccountId, Action, Balance, DaoError};

verus! {

/// Whether `x` occurs among the strings.
pub open spec fn seq_has(s: Seq<String>, x: Seq<char>) -> bool {
    exists|i: int| 0 <= i < s.len() && (#[trigger] s[i])@ == x
}

/// No string occurs twice.
pub open spec fn distinct_views(s: Seq<String>) -> bool {
    forall|i: int, j: int| 0 <= i < s.len() && 0 <= j < s.len() && i != j ==> (#[trigger] s[i])@ != (#[trigger] s[j])@
}

/// The accounts with every occurrence of `m` left out.
pub open spec fn without(s: Seq<String>, m: Seq<char>) -> Seq<String>
    decreases s.len(),
{
    if s.len() == 0 {
        s
    } else if s.last()@ == m {
        without(s.drop_last(), m)
    } else {
        without(s.drop_last(), m).push(s.last())
    }
}

/// Whether `x` occurs in `v`.
pub fn contains_string(v: &Vec<String>, x: &String) -> (r: bool)
    ensures
        r == seq_has(v@, x@),
{
    let mut i: usize = 0;
    while i < v.len()
        invariant
            i <= v.len(),
            forall|j: int| 0 <= j < i ==> (#[trigger] v@[j])@ != x@,
        decreases v.len() - i,
    {
        if v[i] == *x {
            return true;
        }
        i = i + 1;
    }
    false
}

/// Which users a role applies to.
#[derive(Clone, Debug, PartialEq)]
pub enum RoleKind {
    /// Everyone.
    Everyone,
    /// Users whose weight is at least the given amount.
    Member(Balance),
    /// The listed accounts, each once.
    Group(Vec<AccountId>),
}

/// `new` is `old` after adding `m` to a group; other kinds stay as they are.
pub open spec fn kind_after_add(old: RoleKind, new: RoleKind, m: AccountId) -> bool {
    match old {
        RoleKind::Group(a) => new is Group && new->Group_0@ == if seq_has(a@, m@) {
            a@
        } else {
            a@.push(m)
        },
        _ => new == old,
    }
}

/// `new` is `old` after removing `m` from a group; other kinds stay as they are.
pub open spec fn kind_after_remove(old: RoleKind, new: RoleKind, m: Seq<char>) -> bool {
    match old {
        RoleKind::Group(a) => new is Group && new->Group_0@ == without(a@, m),
        _ => new == old,
    }
}

proof fn lemma_has_push(s: Seq<String>, e: String, x: Seq<char>)
    ensures
        seq_has(s.push(e), x) == (seq_has(s, x) || e@ == x),
{
    let t = s.push(e);
    if seq_has(t, x) {
        let k = choose|k: int| 0 <= k < t.len() && (#[trigger] t[k])@ == x;
        if k < s.len() {
            assert(s[k] == t[k]);
        }
    }
    if seq_has(s, x) {
        let k = choose|k: int| 0 <= k < s.len() && (#[trigger] s[k])@ == x;
        assert(t[k] == s[k]);
    }
    assert(t[s.len() as int] == e);
}

proof fn lemma_has_last(s: Seq<String>, x: Seq<char>)
    requires
        s.len() > 0,
    ensures
        seq_has(s, x) == (seq_has(s.drop_last(), x) || s.last()@ == x),
{
    assert(s == s.drop_last().push(s.last()));
    lemma_has_push(s.drop_last(), s.last(), x);
}

proof fn lemma_without_has(s: Seq<String>, m: Seq<char>, x: Seq<char>)
    ensures
        seq_has(without(s, m), x) == (seq_has(s, x) && x != m),
    decreases s.len(),
{
    if s.len() > 0 {
        let d = s.drop_last();
        lemma_without_has(d, m, x);
        lemma_has_last(s, x);
        if s.last()@ != m {
            lemma_has_push(without(d, m), s.last(), x);
        }
    }
}

proof fn lemma_without_distinct(s: Seq<String>, m: Seq<char>)
    requires
        distinct_views(s),
    ensures
        distinct_views(without(s, m)),
    decreases s.len(),
{
    if s.len() > 0 {
        let d = s.drop_last();
        assert(distinct_views(d)) by {
            assert forall|i: int, j: int| 0 <= i < d.len() && 0 <= j < d.len() && i != j implies (#[trigger] d[i])@ != (#[trigger] d[j])@ by {
                assert(s[i] == d[i] && s[j] == d[j]);
            }
        }
        lemma_without_distinct(d, m);
        if s.last()@ != m {
            lemma_without_has(d, m, s.last()@);
            if seq_has(d, s.last()@) {
                let i = choose|i: int| 0 <= i < d.len() && (#[trigger] d[i])@ == s.last()@;
                assert(s[i]@ == s[s.len() - 1]@);
            }
        }
    }
}

impl RoleKind {
    pub open spec fn wf(self) -> bool {
        match self {
            RoleKind::Group(a) => distinct_views(a@),
            _ => true,
        }
    }

    /// Whether the role applies to an account with the given weight.
    pub open spec fn applies_to(self, account: Seq<char>, amount: Balance) -> bool {
        match self {
            RoleKind::Everyone => true,
            RoleKind::Member(m) => amount >= m,
            RoleKind::Group(a) => seq_has(a@, account),
        }
    }

    /// Checks if the user matches this role.
    pub fn match_user(&self, user: &UserInfo) -> (r: bool)
        ensures
            r == self.applies_to(user.account_id@, user.amount),
    {
        match self {
            RoleKind::Everyone => true,
            RoleKind::Member(amount) => user.amount >= *amount,
            RoleKind::Group(accounts) => contains_string(accounts, &user.account_id),
        }
    }

    /// Number of members of a group role; `None` for the other kinds.
    pub fn get_role_size(&self) -> (r: Option<usize>)
        ensures
            r is Some == (*self is Group),
            *self is Group ==> r->Some_0 == self->Group_0@.len(),
    {
        match self {
            RoleKind::Group(accounts) => Some(accounts.len()),
            _ => None,
        }
    }

    /// Adds the member to a group role; fails on other kinds, which stay unchanged.
    pub fn add_member_to_group(&mut self, member_id: &AccountId) -> (r: Result<(), ()>)
        requires
            old(self).wf(),
        ensures
            final(self).wf(),
            r is Ok == (*old(self) is Group),
            kind_after_add(*old(self), *final(self), *member_id),
    {
        match self {
            RoleKind::Group(accounts) => {
                if !contains_string(accounts, member_id) {
                    accounts.push(member_id.clone());
                }
                Ok(())
            }
            _ => Err(()),
        }
    }

    /// Removes the member from a group role; fails on other kinds, which stay unchanged.
    pub fn remove_member_from_group(&mut self, member_id: &AccountId) -> (r: Result<(), ()>)
        requires
            old(self).wf(),
        ensures
            final(self).wf(),
            r is Ok == (*old(self) is Group),
            kind_after_remove(*old(self), *final(self), member_id@),
    {
        match self {
            RoleKind::Group(accounts) => {
                let ghost before = accounts@;
                let mut kept: Vec<AccountId> = Vec::new();
                let mut i: usize = 0;
                while i < accounts.len()
                    invariant
                        accounts@ == before,
                        i <= accounts.len(),
                        kept@ == without(before.subrange(0, i as int), member_id@),
                    decreases accounts.len() - i,
                {
                    proof {
                        assert(before.subrange(0, i + 1).drop_last() == before.subrange(0, i as int));
                    }
                    if accounts[i] != *member_id {
                        kept.push(accounts[i].clone());
                    }
                    i = i + 1;
                }
                assert(before.subrange(0, before.len() as int) == before);
                proof {
                    lemma_without_distinct(before, member_id@);
                }
                *accounts = kept;
                Ok(())
            }
            _ => Err(()),
        }
    }
}

/// A role: who it applies to and which `<proposal_kind>:<action>` permissions it grants.
#[derive(Clone, Debug, PartialEq)]
pub struct RolePermission {
    /// Name of the role.
    pub name: String,
    /// Which users the role applies to.
    pub kind: RoleKind,
    /// Permission strings `<proposal_kind>:<action>`; either side may be `*`.
    pub permissions: Vec<String>,
}

/// The user asking for an action, with their voting weight.
pub struct UserInfo {
    pub account_id: AccountId,
    pub amount: Balance,
}

/// Whether the permission string `p` grants `label` on proposals of `kind`.
pub open spec fn perm_grants(p: Seq<char>, kind: Seq<char>, label: Seq<char>) -> bool {
    ||| p == kind + ":"@ + label
    ||| p == kind + ":*"@
    ||| p == "*:"@ + label
    ||| p == "*:*"@
}

/// Whether one of the permission strings grants `label` on `kind`.
pub open spec fn perms_grant(perms: Seq<String>, kind: Seq<char>, label: Seq<char>) -> bool {
    exists|i: int| 0 <= i < perms.len() && perm_grants((#[trigger] perms[i])@, kind, label)
}

/// Whether the permission strings grant `label` on `kind`.
pub fn grants(perms: &Vec<String>, kind: &String, label: &str) -> (r: bool)
    ensures
        r == perms_grant(perms@, kind@, label@),
{
    let mut exact = kind.clone();
    exact.append(":");
    exact.append(label);
    let mut any_action = kind.clone();
    any_action.append(":*");
    let mut any_kind = String::from_str("*:");
    any_kind.append(label);
    let everything = String::from_str("*:*");
    let mut i: usize = 0;
    while i < perms.len()
        invariant
            i <= perms.len(),
            exact@ == kind@ + ":"@ + label@,
            any_action@ == kind@ + ":*"@,
            any_kind@ == "*:"@ + label@,
            everything@ == "*:*"@,
            forall|j: int| 0 <= j < i ==> !perm_grants((#[trigger] perms@[j])@, kind@, label@),
        decreases perms.len() - i,
    {
        let p = &perms[i];
        if *p == exact || *p == any_action || *p == any_kind || *p == everything {
            assert(perm_grants(perms@[i as int]@, kind@, label@));
            return true;
        }
        i = i + 1;
    }
    false
}

/// A fixed weight, or a ratio of the total weight.
#[derive(Clone, Copy, Debug, PartialEq)]
pub enum WeightOrRatio {
    Weight(Balance),
    Ratio(u64, u64),
}

impl WeightOrRatio {
    /// A ratio has a non-zero denominator.
    pub open spec fn wf(self) -> bool {
        self is Ratio ==> self->Ratio_1 > 0
    }

    /// `min(w, total)` for a weight; `min(floor(n * total / d) + 1, total)` for a ratio.
    pub open spec fn resolve(self, total: int) -> int {
        match self {
            WeightOrRatio::Weight(w) => if w < total { w as int } else { total },
            WeightOrRatio::Ratio(n, d) => {
                let r = n * total / d as int + 1;
                if r < total { r } else { total }
            },
        }
    }

    /// The weight this threshold stands for, given the total weight.
    pub fn to_weight(&self, total_weight: Balance) -> (r: Balance)
        requires
            self.wf(),
        ensures
            r == self.resolve(total_weight as int),
    {
        match self {
            WeightOrRatio::Weight(weight) => if *weight < total_weight { *weight } else { total_weight },
            WeightOrRatio::Ratio(num, denom) => {
                let n = *num as u128;
                let d = *denom as u128;
                let t = total_weight;
                if n >= d {
                    proof {
                        assert(n * t >= d * t) by (nonlinear_arith)
                            requires n >= d, t >= 0;
                        vstd::arithmetic::div_mod::lemma_div_is_ordered((d * t) as int, (n * t) as int, d as int);
                        vstd::arithmetic::div_mod::lemma_div_by_multiple(t as int, d as int);
                        assert(d * t == t * d) by (nonlinear_arith);
                    }
                    t
                } else {
                    let q = t / d;
                    let rem = t % d;
                    proof {
                        vstd::arithmetic::div_mod::lemma_fundamental_div_mod(t as int, d as int);
                        assert(n * q <= d * q) by (nonlinear_arith)
                            requires n < d, q >= 0;
                        assert(n * rem < d * d) by (nonlinear_arith)
                            requires n < d, rem < d, n >= 0, rem >= 0;
                        assert(d * d <= 0xffff_ffff_ffff_ffffu128 * 0xffff_ffff_ffff_ffffu128) by (nonlinear_arith)
                            requires d <= 0xffff_ffff_ffff_ffffu128;
                    }
                    let nq = n * q;
                    let nr = n * rem;
                    let a = nr / d;
                    proof {
                        let (ni, ti, di, qi, ri, ai) = (n as int, t as int, d as int, q as int, rem as int, a as int);
                        vstd::arithmetic::div_mod::lemma_fundamental_div_mod(ni * ri, di);
                        let b = (ni * ri) % di;
                        assert(ai <= ri) by (nonlinear_arith)
                            requires ni * ri == di * ai + b, 0 <= b, ni < di, ai >= 0, ri >= 0, di > 0;
                        assert(ni * ti == di * (ni * qi + ai) + b) by (nonlinear_arith)
                            requires ti == di * qi + ri, ni * ri == di * ai + b;
                        vstd::arithmetic::div_mod::lemma_div_multiples_vanish_fancy(ni * qi + ai, b, di);
                        assert(ti > 0 ==> ni * qi + ai < ti) by (nonlinear_arith)
                            requires ai <= ri, ni < di, ti == di * qi + ri, qi >= 0, ri >= 0, ni >= 0, ni * ri == di * ai + b, b >= 0, b < di;
                        assert(ni * qi + ai <= ti) by (nonlinear_arith)
                            requires ai <= ri, ni < di, ti == di * qi + ri, qi >= 0, ri >= 0, ni >= 0;
                    }
                    let part = nq + a;
                    if t == 0 {
                        0
                    } else {
                        part + 1
                    }
                }
            },
        }
    }
}

/// How votes are weighted.
#[derive(Clone, Copy, PartialEq, Eq, Debug, Structural)]
pub enum WeightKind {
    /// By delegated token amounts.
    TokenWeight,
    /// One vote per member of the group roles that may approve.
    RoleWeight,
}

/// How a vote is weighted and decided.
#[derive(Clone, Copy, Debug, PartialEq)]
pub struct VotePolicy {
    pub weight_kind: WeightKind,
    /// Minimum weight any outcome needs.
    pub quorum: Balance,
    /// Weight needed for an outcome.
    pub threshold: WeightOrRatio,
}

impl Default for VotePolicy {
    fn default() -> (r: VotePolicy)
        ensures
            r.weight_kind == WeightKind::RoleWeight,
            r.quorum == 0,
            r.threshold == WeightOrRatio::Ratio(1, 2),
    {
        VotePolicy { weight_kind: WeightKind::RoleWeight, quorum: 0, threshold: WeightOrRatio::Ratio(1, 2) }
    }
}


/// Position of the first kind named `name` at or after `from`; -1 if none.
pub open spec fn kind_pos(kinds: Seq<ProposalKind>, name: Seq<char>, from: int) -> int
    decreases kinds.len() - from,
{
    if from < 0 || from >= kinds.len() {
        -1
    } else if kinds[from].name@ == name {
        from
    } else {
        kind_pos(kinds, name, from + 1)
    }
}

proof fn lemma_kind_pos_range(kinds: Seq<ProposalKind>, name: Seq<char>, from: int)
    requires
        0 <= from,
    ensures
        kind_pos(kinds, name, from) == -1 || (from <= kind_pos(kinds, name, from) < kinds.len()),
    decreases kinds.len() - from,
{
    if from < kinds.len() && kinds[from].name@ != name {
        lemma_kind_pos_range(kinds, name, from + 1);
    }
}

/// Position of the first kind that the instructions match, at or after `from`; -1 if none.
pub open spec fn matched_pos(kinds: Seq<ProposalKind>, instrs: Seq<Instruction>, from: int) -> int
    decreases kinds.len() - from,
{
    if from < 0 || from >= kinds.len() {
        -1
    } else if kinds[from].matches(instrs) {
        from
    } else {
        matched_pos(kinds, instrs, from + 1)
    }
}

/// Position of the first role named `name` at or after `from`; -1 if none.
pub open spec fn role_pos(roles: Seq<RolePermission>, name: Seq<char>, from: int) -> int
    decreases roles.len() - from,
{
    if from < 0 || from >= roles.len() {
        -1
    } else if roles[from].name@ == name {
        from
    } else {
        role_pos(roles, name, from + 1)
    }
}

/// Position of the first tally at or after `from` that reaches `t`; -1 if none.
pub open spec fn first_reaching(counts: Seq<Balance>, t: int, from: int) -> int
    decreases counts.len() - from,
{
    if from < 0 || from >= counts.len() {
        -1
    } else if counts[from] >= t {
        from
    } else {
        first_reaching(counts, t, from + 1)
    }
}

/// Whether a role counts towards the approval weight of `kind`: it grants
/// VoteApprove on the kind through `<kind>:VoteApprove`, `<kind>:*`,
/// `*:VoteApprove` or `*:*`. The last one grants the vote as much as the
/// others, so a group holding only `*:*` counts too.
pub open spec fn approves(role: RolePermission, kind: Seq<char>) -> bool {
    perms_grant(role.permissions@, kind, "VoteApprove"@)
}

/// Total size of the group roles that may approve proposals of `kind`.
pub open spec fn eligible_weight(roles: Seq<RolePermission>, kind: Seq<char>) -> int
    decreases roles.len(),
{
    if roles.len() == 0 {
        0
    } else {
        let r = roles.last();
        eligible_weight(roles.drop_last(), kind) + if approves(r, kind) && r.kind is Group {
            r.kind->Group_0@.len() as int
        } else {
            0
        }
    }
}

/// Some role that may approve `kind` is not a group, so it has no countable size.
pub open spec fn unsupported_role(roles: Seq<RolePermission>, kind: Seq<char>) -> bool {
    exists|i: int| 0 <= i < roles.len() && approves(#[trigger] roles[i], kind) && !(roles[i].kind is Group)
}

/// Decision-making rules of the DAO.
#[derive(Clone, Debug, PartialEq)]
pub struct Policy {
    /// Proposal kinds in priority order: a proposal belongs to the first one it matches.
    pub proposal_kinds: Vec<ProposalKind>,
    /// Roles and their permissions.
    pub roles: Vec<RolePermission>,
    /// Vote policy for proposals whose kind has none.
    pub default_vote_policy: VotePolicy,
    /// Bond attached to a proposal.
    pub proposal_bond: Balance,
    /// How long a proposal stays open, in nanoseconds.
    pub proposal_period: u64,
    /// Bond attached to a bounty claim.
    pub bounty_bond: Balance,
    /// Time after a claim during which giving up is not punished, in nanoseconds.
    pub bounty_forgiveness_period: u64,
}

/// A policy as kept in storage: a council list standing for the default policy, or a full policy.
#[derive(Clone, Debug, PartialEq)]
pub enum VersionedPolicy {
    /// The default policy with the given accounts as council.
    Default(Vec<AccountId>),
    Current(Policy),
}

/// The default proposal and bounty bond: 10^24.
pub open spec fn default_bond() -> Balance {
    1_000_000_000_000_000_000_000_000
}

/// `p` is the default policy for the given council.
pub open spec fn is_default_policy(p: Policy, council: Seq<AccountId>) -> bool {
    &&& p.proposal_kinds@.len() == 0
    &&& p.roles@.len() == 2
    &&& p.roles@[0].name@ == "all"@
    &&& p.roles@[0].kind is Everyone
    &&& p.roles@[0].permissions@.len() == 1
    &&& p.roles@[0].permissions@[0]@ == "*:AddProposal"@
    &&& p.roles@[1].name@ == "council"@
    &&& p.roles@[1].kind is Group
    &&& distinct_views(p.roles@[1].kind->Group_0@)
    &&& forall|x: Seq<char>| seq_has(p.roles@[1].kind->Group_0@, x) == seq_has(council, x)
    &&& p.roles@[1].permissions@.len() == 5
    &&& p.roles@[1].permissions@[0]@ == "*:AddProposal"@
    &&& p.roles@[1].permissions@[1]@ == "*:VoteApprove"@
    &&& p.roles@[1].permissions@[2]@ == "*:VoteReject"@
    &&& p.roles@[1].permissions@[3]@ == "*:VoteRemove"@
    &&& p.roles@[1].permissions@[4]@ == "*:Finalize"@
    &&& p.default_vote_policy.weight_kind == WeightKind::RoleWeight
    &&& p.default_vote_policy.quorum == 0
    &&& p.default_vote_policy.threshold == WeightOrRatio::Ratio(1, 2)
    &&& p.proposal_bond == default_bond()
    &&& p.proposal_period == 604_800_000_000_000u64
    &&& p.bounty_bond == default_bond()
    &&& p.bounty_forgiveness_period == 86_400_000_000_000u64
}

/// The default policy: everyone may add proposals; the council may add,
/// approve, reject, veto and finalize them; one vote per council member, with
/// more than half needed; bonds of 10^24; a proposal period of seven days and
/// a forgiveness period of one day.
pub fn default_policy(council: Vec<AccountId>) -> (r: Policy)
    ensures
        is_default_policy(r, council@),
        r.wf(),
{
    let mut members: Vec<AccountId> = Vec::new();
    let mut i: usize = 0;
    while i < council.len()
        invariant
            i <= council.len(),
            distinct_views(members@),
            forall|x: Seq<char>| seq_has(members@, x) == seq_has(council@.subrange(0, i as int), x),
        decreases council.len() - i,
    {
        proof {
            assert(council@.subrange(0, i + 1) == council@.subrange(0, i as int).push(council@[i as int]));
            assert forall|x: Seq<char>| seq_has(council@.subrange(0, i + 1), x) == (seq_has(council@.subrange(0, i as int), x) || council@[i as int]@ == x) by {
                lemma_has_push(council@.subrange(0, i as int), council@[i as int], x);
            }
        }
        let ghost before_all = members@;
        let ghost c = council@[i as int];
        if !contains_string(&members, &council[i]) {
            members.push(council[i].clone());
            proof {
                assert forall|x: Seq<char>| seq_has(members@, x) == (seq_has(before_all, x) || c@ == x) by {
                    lemma_has_push(before_all, c, x);
                }
                assert forall|p: int, q: int| 0 <= p < members@.len() && 0 <= q < members@.len() && p != q implies (#[trigger] members@[p])@ != (#[trigger] members@[q])@ by {
                    if p < before_all.len() && q < before_all.len() {
                        assert(members@[p] == before_all[p] && members@[q] == before_all[q]);
                    } else if p < before_all.len() {
                        assert(members@[p] == before_all[p]);
                    } else if q < before_all.len() {
                        assert(members@[q] == before_all[q]);
                    }
                }
            }
        }
        proof {
            let pre = council@.subrange(0, i as int);
            let post = council@.subrange(0, i + 1);
            assert(post == pre.push(c));
            assert forall|x: Seq<char>| seq_has(members@, x) == seq_has(post, x) by {
                lemma_has_push(pre, c, x);
                if c@ == x {
                    assert(seq_has(members@, x));
                }
                assert(seq_has(before_all, x) == seq_has(pre, x));
            }
        }
        i = i + 1;
    }
    assert(council@.subrange(0, council@.len() as int) == council@);
    let mut everyone_perms: Vec<String> = Vec::new();
    everyone_perms.push(String::from_str("*:AddProposal"));
    let mut council_perms: Vec<String> = Vec::new();
    council_perms.push(String::from_str("*:AddProposal"));
    council_perms.push(String::from_str("*:VoteApprove"));
    council_perms.push(String::from_str("*:VoteReject"));
    council_perms.push(String::from_str("*:VoteRemove"));
    council_perms.push(String::from_str("*:Finalize"));
    let mut roles: Vec<RolePermission> = Vec::new();
    roles.push(RolePermission { name: String::from_str("all"), kind: RoleKind::Everyone, permissions: everyone_perms });
    roles.push(RolePermission { name: String::from_str("council"), kind: RoleKind::Group(members), permissions: council_perms });
    let r = Policy {
        proposal_kinds: Vec::new(),
        roles,
        default_vote_policy: VotePolicy::default(),
        proposal_bond: 1_000_000_000_000_000_000_000_000,
        proposal_period: 604_800_000_000_000,
        bounty_bond: 1_000_000_000_000_000_000_000_000,
        bounty_forgiveness_period: 86_400_000_000_000,
    };
    assert(r.roles@[0].kind.wf());
    assert(r.roles@[1].kind.wf());
    r
}

impl VersionedPolicy {
    /// Turns either version into a full policy.
    pub fn upgrade(self) -> (r: Self)
        ensures
            r is Current,
            self is Current ==> r == self,
            self is Default ==> is_default_policy(r->Current_0, self->Default_0@),
            self is Default ==> r->Current_0.wf(),
    {
        match self {
            VersionedPolicy::Default(accounts) => VersionedPolicy::Current(default_policy(accounts)),
            VersionedPolicy::Current(policy) => VersionedPolicy::Current(policy),
        }
    }

    /// The full policy held.
    pub fn to_policy(self) -> (r: Policy)
        requires
            self is Current,
        ensures
            r == self->Current_0,
    {
        match self {
            VersionedPolicy::Current(policy) => policy,
            VersionedPolicy::Default(_) => vstd::pervasive::unreached(),
        }
    }
}

impl VersionedPolicy {
    /// Mutable access to the full policy held.
    pub fn to_policy_mut(&mut self) -> (r: &mut Policy)
        requires
            *old(self) is Current,
        ensures
            *r == old(self)->Current_0,
            *final(self) == VersionedPolicy::Current(*final(r)),
    {
        match self {
            VersionedPolicy::Current(policy) => policy,
            VersionedPolicy::Default(_) => vstd::pervasive::unreached(),
        }
    }
}

impl Policy {
    /// Every group lists its members once and every ratio has a non-zero denominator.
    pub open spec fn wf(self) -> bool {
        &&& forall|i: int| 0 <= i < self.roles@.len() ==> (#[trigger] self.roles@[i]).kind.wf()
        &&& self.default_vote_policy.threshold.wf()
        &&& forall|i: int| 0 <= i < self.proposal_kinds@.len() ==> (#[trigger] self.proposal_kinds@[i]).vote_policy.threshold.wf()
    }

    /// The vote policy of the kind named `kind`, or the default one.
    pub open spec fn vote_policy_for(self, kind: Seq<char>) -> VotePolicy {
        let p = kind_pos(self.proposal_kinds@, kind, 0);
        if p >= 0 {
            self.proposal_kinds@[p].vote_policy
        } else {
            self.default_vote_policy
        }
    }

    /// Name of the first kind the instructions match; empty if none.
    pub open spec fn kind_of(self, instrs: Seq<Instruction>) -> Seq<char> {
        let p = matched_pos(self.proposal_kinds@, instrs, 0);
        if p >= 0 {
            self.proposal_kinds@[p].name@
        } else {
            Seq::empty()
        }
    }

    /// Some role that applies to the user grants `label` on `kind`.
    pub open spec fn allows(self, account: Seq<char>, amount: Balance, kind: Seq<char>, label: Seq<char>) -> bool {
        exists|i: int|
            0 <= i < self.roles@.len() && (#[trigger] self.roles@[i]).kind.applies_to(account, amount)
                && perms_grant(self.roles@[i].permissions@, kind, label)
    }

    /// Threshold computation fails: role weight with a non-group role that may approve.
    pub open spec fn threshold_fails(self, vp: VotePolicy, kind: Seq<char>) -> bool {
        vp.weight_kind == WeightKind::RoleWeight && unsupported_role(self.roles@, kind)
    }

    /// `max(quorum, resolve(threshold, total))`, where the total is the token
    /// supply under token weight and the eligible group size under role weight.
    pub open spec fn threshold_for(self, vp: VotePolicy, total_supply: int, kind: Seq<char>) -> int {
        let total = match vp.weight_kind {
            WeightKind::TokenWeight => total_supply,
            WeightKind::RoleWeight => eligible_weight(self.roles@, kind),
        };
        let w = vp.threshold.resolve(total);
        if vp.quorum > w { vp.quorum as int } else { w }
    }

    /// Everything but the roles is equal.
    pub open spec fn same_but_roles(self, other: Policy) -> bool {
        &&& self.proposal_kinds == other.proposal_kinds
        &&& self.default_vote_policy == other.default_vote_policy
        &&& self.proposal_bond == other.proposal_bond
        &&& self.proposal_period == other.proposal_period
        &&& self.bounty_bond == other.bounty_bond
        &&& self.bounty_forgiveness_period == other.bounty_forgiveness_period
    }

    /// `self` is `old` after adding `member` to the first role named `role`, if that role is a group.
    pub open spec fn member_added(self, old: Policy, role: Seq<char>, member: AccountId) -> bool {
        let i = role_pos(old.roles@, role, 0);
        &&& self.same_but_roles(old)
        &&& self.roles@.len() == old.roles@.len()
        &&& forall|j: int| 0 <= j < old.roles@.len() && j != i ==> #[trigger] self.roles@[j] == old.roles@[j]
        &&& i >= 0 ==> self.roles@[i].name == old.roles@[i].name && self.roles@[i].permissions == old.roles@[i].permissions
            && kind_after_add(old.roles@[i].kind, self.roles@[i].kind, member)
    }

    /// `self` is `old` after removing `member` from the first role named `role`, if that role is a group.
    pub open spec fn member_removed(self, old: Policy, role: Seq<char>, member: Seq<char>) -> bool {
        let i = role_pos(old.roles@, role, 0);
        &&& self.same_but_roles(old)
        &&& self.roles@.len() == old.roles@.len()
        &&& forall|j: int| 0 <= j < old.roles@.len() && j != i ==> #[trigger] self.roles@[j] == old.roles@[j]
        &&& i >= 0 ==> self.roles@[i].name == old.roles@[i].name && self.roles@[i].permissions == old.roles@[i].permissions
            && kind_after_remove(old.roles@[i].kind, self.roles@[i].kind, member)
    }

    /// Adds the member to the first role with this name, if it is a group.
    /// Never fails: a missing role or a role of another kind leaves the policy as it is.
    pub fn add_member_to_role(&mut self, role: &String, member_id: &AccountId)
        requires
            old(self).wf(),
        ensures
            final(self).wf(),
            final(self).member_added(*old(self), role@, *member_id),
    {
        let i = self.find_role(role);
        if i < self.roles.len() {
            let ghost before = self.roles@;
            let mut r = self.roles.remove(i);
            let _ = r.kind.add_member_to_group(member_id);
            self.roles.insert(i, r);
            assert(self.roles@ =~= before.update(i as int, r));
        }
    }

    /// Removes the member from the first role with this name, if it is a group.
    /// Never fails: a missing role or a role of another kind leaves the policy as it is.
    pub fn remove_member_from_role(&mut self, role: &String, member_id: &AccountId)
        requires
            old(self).wf(),
        ensures
            final(self).wf(),
            final(self).member_removed(*old(self), role@, member_id@),
    {
        let i = self.find_role(role);
        if i < self.roles.len() {
            let ghost before = self.roles@;
            let mut r = self.roles.remove(i);
            let _ = r.kind.remove_member_from_group(member_id);
            self.roles.insert(i, r);
            assert(self.roles@ =~= before.update(i as int, r));
        }
    }

    /// Index of the first role with this name; the number of roles if none.
    fn find_role(&self, role: &String) -> (r: usize)
        ensures
            role_pos(self.roles@, role@, 0) == if r < self.roles@.len() { r as int } else { -1 },
            r <= self.roles@.len(),
    {
        let mut i: usize = 0;
        while i < self.roles.len()
            invariant
                i <= self.roles.len(),
                role_pos(self.roles@, role@, 0) == role_pos(self.roles@, role@, i as int),
            decreases self.roles.len() - i,
        {
            if self.roles[i].name == *role {
                return i;
            }
            i = i + 1;
        }
        i
    }

    /// Indices of the roles that apply to the user, in order.
    fn get_user_roles(&self, user: &UserInfo) -> (r: Vec<usize>)
        ensures
            forall|k: int| 0 <= k < r@.len() ==> #[trigger] r@[k] < self.roles@.len()
                && self.roles@[r@[k] as int].kind.applies_to(user.account_id@, user.amount),
            forall|i: int|
                0 <= i < self.roles@.len() && (#[trigger] self.roles@[i]).kind.applies_to(user.account_id@, user.amount)
                    ==> exists|k: int| 0 <= k < r@.len() && r@[k] as int == i,
    {
        let mut out: Vec<usize> = Vec::new();
        let mut i: usize = 0;
        while i < self.roles.len()
            invariant
                i <= self.roles.len(),
                forall|k: int| 0 <= k < out@.len() ==> #[trigger] out@[k] < i
                    && self.roles@[out@[k] as int].kind.applies_to(user.account_id@, user.amount),
                forall|j: int|
                    0 <= j < i && (#[trigger] self.roles@[j]).kind.applies_to(user.account_id@, user.amount)
                        ==> exists|k: int| 0 <= k < out@.len() && out@[k] as int == j,
            decreases self.roles.len() - i,
        {
            let ghost before = out@;
            if self.roles[i].kind.match_user(user) {
                out.push(i);
                proof {
                    assert(out@[before.len() as int] as int == i);
                    assert forall|j: int|
                        0 <= j < i && (#[trigger] self.roles@[j]).kind.applies_to(user.account_id@, user.amount)
                        implies exists|k: int| 0 <= k < out@.len() && out@[k] as int == j by {
                        let k = choose|k: int| 0 <= k < before.len() && before[k] as int == j;
                        assert(out@[k] == before[k]);
                    }
                }
            }
            i = i + 1;
        }
        out
    }

    /// The vote policy of the kind with this name, or `None` when no kind has it.
    pub fn get_vote_policy(&self, proposal_kind: &String) -> (r: Option<&VotePolicy>)
        ensures
            ({
                let p = kind_pos(self.proposal_kinds@, proposal_kind@, 0);
                &&& r is Some == (p >= 0)
                &&& p >= 0 ==> *r->Some_0 == self.proposal_kinds@[p].vote_policy
            }),
    {
        let mut i: usize = 0;
        while i < self.proposal_kinds.len()
            invariant
                i <= self.proposal_kinds.len(),
                kind_pos(self.proposal_kinds@, proposal_kind@, 0) == kind_pos(self.proposal_kinds@, proposal_kind@, i as int),
            decreases self.proposal_kinds.len() - i,
        {
            if self.proposal_kinds[i].name == *proposal_kind {
                return Some(&self.proposal_kinds[i].vote_policy);
            }
            i = i + 1;
        }
        None
    }

    /// The vote policy that applies to proposals of this kind.
    pub fn effective_vote_policy(&self, proposal_kind: &String) -> (r: VotePolicy)
        requires
            self.wf(),
        ensures
            r == self.vote_policy_for(proposal_kind@),
            r.threshold.wf(),
    {
        proof {
            lemma_kind_pos_range(self.proposal_kinds@, proposal_kind@, 0);
        }
        match self.get_vote_policy(proposal_kind) {
            Some(vp) => *vp,
            None => self.default_vote_policy,
        }
    }

    /// Name of the first proposal kind whose required tags all occur among the
    /// instructions; the empty string if none.
    pub fn match_proposal_kind(&self, instructions: &Vec<Instruction>) -> (r: String)
        ensures
            r@ == self.kind_of(instructions@),
    {
        let mut i: usize = 0;
        while i < self.proposal_kinds.len()
            invariant
                i <= self.proposal_kinds.len(),
                matched_pos(self.proposal_kinds@, instructions@, 0) == matched_pos(self.proposal_kinds@, instructions@, i as int),
            decreases self.proposal_kinds.len() - i,
        {
            if self.proposal_kinds[i].match_proposal(instructions) {
                return self.proposal_kinds[i].name.clone();
            }
            i = i + 1;
        }
        String::new()
    }

    /// Whether some role that applies to the user grants the action on proposals of this kind.
    pub fn can_execute_action(&self, user: UserInfo, proposal_kind: &String, action: &Action) -> (r: bool)
        ensures
            r == self.allows(user.account_id@, user.amount, proposal_kind@, action.label()),
    {
        let roles = self.get_user_roles(&user);
        let label = action.to_label();
        let mut k: usize = 0;
        while k < roles.len()
            invariant
                k <= roles.len(),
                label@ == action.label(),
                forall|m: int| 0 <= m < roles@.len() ==> #[trigger] roles@[m] < self.roles@.len()
                    && self.roles@[roles@[m] as int].kind.applies_to(user.account_id@, user.amount),
                forall|m: int| 0 <= m < k ==> !perms_grant(self.roles@[#[trigger] roles@[m] as int].permissions@, proposal_kind@, label@),
            decreases roles.len() - k,
        {
            let idx = roles[k];
            if grants(&self.roles[idx].permissions, proposal_kind, label) {
                assert(self.roles@[idx as int].kind.applies_to(user.account_id@, user.amount));
                assert(label@ == action.label());
                assert(perms_grant(self.roles@[idx as int].permissions@, proposal_kind@, action.label()));
                return true;
            }
            k = k + 1;
        }
        proof {
            assert forall|i: int|
                0 <= i < self.roles@.len() && (#[trigger] self.roles@[i]).kind.applies_to(user.account_id@, user.amount)
                implies !perms_grant(self.roles@[i].permissions@, proposal_kind@, label@) by {
                let m = choose|m: int| 0 <= m < roles@.len() && roles@[m] as int == i;
                assert(!perms_grant(self.roles@[roles@[m] as int].permissions@, proposal_kind@, label@));
            }
        }
        false
    }

    /// The weight a vote needs under this vote policy for a proposal of this
    /// kind. Fails with `UnsupportedRole` under role weight when a role that may
    /// approve the kind is not a group.
    pub fn get_threshold(&self, vote_policy: &VotePolicy, total_supply: u128, proposal_kind: &String) -> (r: Result<u128, DaoError>)
        requires
            vote_policy.threshold.wf(),
        ensures
            self.threshold_fails(*vote_policy, proposal_kind@) ==> r == Err::<u128, DaoError>(DaoError::UnsupportedRole),
            !self.threshold_fails(*vote_policy, proposal_kind@) ==> r is Ok && r->Ok_0 == self.threshold_for(
                *vote_policy,
                total_supply as int,
                proposal_kind@,
            ),
    {
        let w = match vote_policy.weight_kind {
            WeightKind::TokenWeight => vote_policy.threshold.to_weight(total_supply),
            WeightKind::RoleWeight => {
                let label = Action::VoteApprove.to_label();
                let mut total: u128 = 0;
                let mut i: usize = 0;
                while i < self.roles.len()
                    invariant
                        i <= self.roles.len(),
                        label@ == "VoteApprove"@,
                        vote_policy.weight_kind == WeightKind::RoleWeight,
                        total == eligible_weight(self.roles@.subrange(0, i as int), proposal_kind@),
                        total <= i * 0xffff_ffff_ffff_ffffu128,
                        forall|j: int| 0 <= j < i ==> !(approves(#[trigger] self.roles@[j], proposal_kind@) && !(self.roles@[j].kind is Group)),
                    decreases self.roles.len() - i,
                {
                    let ghost pre = self.roles@.subrange(0, i as int);
                    let ghost post = self.roles@.subrange(0, i + 1);
                    proof {
                        assert(post.drop_last() == pre);
                        assert(post.last() == self.roles@[i as int]);
                        assert(eligible_weight(post, proposal_kind@) == eligible_weight(pre, proposal_kind@) + if approves(self.roles@[i as int], proposal_kind@) && self.roles@[i as int].kind is Group {
                            self.roles@[i as int].kind->Group_0@.len() as int
                        } else {
                            0
                        });
                    }
                    if grants(&self.roles[i].permissions, proposal_kind, label) {
                        match self.roles[i].kind.get_role_size() {
                            Some(n) => {
                                proof {
                                    assert((i + 1) * 0xffff_ffff_ffff_ffffu128 == i * 0xffff_ffff_ffff_ffffu128 + 0xffff_ffff_ffff_ffffu128) by (nonlinear_arith);
                                    assert(i * 0xffff_ffff_ffff_ffffu128 + 0xffff_ffff_ffff_ffffu128 <= 0xffff_ffff_ffff_ffffu128 * 0xffff_ffff_ffff_ffffu128 + 0xffff_ffff_ffff_ffffu128) by (nonlinear_arith)
                                        requires i < 0xffff_ffff_ffff_ffffu128;
                                }
                                total = total + n as u128;
                            },
                            None => {
                                assert(unsupported_role(self.roles@, proposal_kind@));
                                assert(self.threshold_fails(*vote_policy, proposal_kind@));
                                return Err(DaoError::UnsupportedRole);
                            },
                        }
                    }
                    i = i + 1;
                }
                assert(self.roles@.subrange(0, self.roles@.len() as int) == self.roles@);
                assert(!unsupported_role(self.roles@, proposal_kind@));
                vote_policy.threshold.to_weight(total)
            },
        };
        let r = if vote_policy.quorum > w { vote_policy.quorum } else { w };
        assert(vote_policy.weight_kind == WeightKind::TokenWeight ==> r == self.threshold_for(*vote_policy, total_supply as int, proposal_kind@));
        assert(vote_policy.weight_kind == WeightKind::RoleWeight ==> r == self.threshold_for(*vote_policy, total_supply as int, proposal_kind@));
        Ok(r)
    }

    /// Status of an in-progress proposal at time `now`: expired once the
    /// voting period has passed; rejected when rejections exceed the
    /// threshold; approved for the first version whose approvals reach it;
    /// otherwise still in progress.
    pub fn proposal_status(&self, proposal: &Proposal, total_supply: Balance, now: u64) -> (r: Result<ProposalStatus, DaoError>)
        requires
            self.wf(),
            proposal.wf(),
        ensures
            ({
                let vp = self.vote_policy_for(proposal.kind@);
                let t = self.threshold_for(vp, total_supply as int, proposal.kind@);
                let v = first_reaching(proposal.approve_count@, t, 0);
                if proposal.status != ProposalStatus::InProgress {
                    r == Err::<ProposalStatus, DaoError>(DaoError::ProposalNotInProgress)
                } else if proposal.submission_time + self.proposal_period < now {
                    r == Ok::<ProposalStatus, DaoError>(ProposalStatus::Expired)
                } else if self.threshold_fails(vp, proposal.kind@) {
                    r == Err::<ProposalStatus, DaoError>(DaoError::UnsupportedRole)
                } else if proposal.reject_count > t {
                    r == Ok::<ProposalStatus, DaoError>(ProposalStatus::Rejected)
                } else if v >= 0 {
                    r == Ok::<ProposalStatus, DaoError>(ProposalStatus::Approved { version: v as u8 })
                } else {
                    r == Ok::<ProposalStatus, DaoError>(ProposalStatus::InProgress)
                }
            }),
    {
        if proposal.status != ProposalStatus::InProgress {
            return Err(DaoError::ProposalNotInProgress);
        }
        if (proposal.submission_time as u128) + (self.proposal_period as u128) < now as u128 {
            return Ok(ProposalStatus::Expired);
        }
        let vote_policy = self.effective_vote_policy(&proposal.kind);
        let threshold = match self.get_threshold(&vote_policy, total_supply, &proposal.kind) {
            Ok(t) => t,
            Err(e) => return Err(e),
        };
        if proposal.reject_count > threshold {
            return Ok(ProposalStatus::Rejected);
        }
        let mut version: usize = 0;
        while version < proposal.approve_count.len()
            invariant
                version <= proposal.approve_count.len(),
                proposal.approve_count@.len() <= 255,
                vote_policy == self.vote_policy_for(proposal.kind@),
                threshold == self.threshold_for(vote_policy, total_supply as int, proposal.kind@),
                !self.threshold_fails(vote_policy, proposal.kind@),
                proposal.status == ProposalStatus::InProgress,
                proposal.submission_time + self.proposal_period >= now,
                proposal.reject_count <= threshold,
                first_reaching(proposal.approve_count@, threshold as int, 0) == first_reaching(
                    proposal.approve_count@,
                    threshold as int,
                    version as int,
                ),
            decreases proposal.approve_count.len() - version,
        {
            if proposal.approve_count[version] >= threshold {
                return Ok(ProposalStatus::Approved { version: version as u8 });
            }
            version = version + 1;
        }
        Ok(ProposalStatus::InProgress)
    }
}

/// A copy of the strings.
pub fn copy_strings(v: &Vec<String>) -> (r: Vec<String>)
    ensures
        r@ == v@,
{
    let mut out: Vec<String> = Vec::new();
    let mut i: usize = 0;
    while i < v.len()
        invariant
            i <= v.len(),
            out@ == v@.subrange(0, i as int),
        decreases v.len() - i,
    {
        out.push(v[i].clone());
        assert(out@ == v@.subrange(0, i + 1));
        i = i + 1;
    }
    assert(v@.subrange(0, v@.len() as int) == v@);
    out
}

/// A copy of the bytes.
pub fn copy_bytes(v: &Vec<u8>) -> (r: Vec<u8>)
    ensures
        r@ == v@,
{
    let mut out: Vec<u8> = Vec::new();
    let mut i: usize = 0;
    while i < v.len()
        invariant
            i <= v.len(),
            out@ == v@.subrange(0, i as int),
        decreases v.len() - i,
    {
        out.push(v[i]);
        assert(out@ == v@.subrange(0, i + 1));
        i = i + 1;
    }
    assert(v@.subrange(0, v@.len() as int) == v@);
    out
}

impl RoleKind {
    /// Equal kinds, with group members compared as sequences.
    pub open spec fn same_as(self, o: RoleKind) -> bool {
        match self {
            RoleKind::Group(a) => o is Group && o->Group_0@ == a@,
            _ => o == self,
        }
    }

    pub fn copy(&self) -> (r: RoleKind)
        ensures
            r.same_as(*self),
    {
        match self {
            RoleKind::Everyone => RoleKind::Everyone,
            RoleKind::Member(m) => RoleKind::Member(*m),
            RoleKind::Group(a) => RoleKind::Group(copy_strings(a)),
        }
    }
}

impl RolePermission {
    pub open spec fn same_as(self, o: RolePermission) -> bool {
        &&& self.name == o.name
        &&& self.kind.same_as(o.kind)
        &&& self.permissions@ == o.permissions@
    }

    pub fn copy(&self) -> (r: RolePermission)
        ensures
            r.same_as(*self),
    {
        RolePermission { name: self.name.clone(), kind: self.kind.copy(), permissions: copy_strings(&self.permissions) }
    }
}

impl ProposalKind {
    pub open spec fn same_as(self, o: ProposalKind) -> bool {
        &&& self.name == o.name
        &&& self.required_instrs@ == o.required_instrs@
        &&& self.vote_policy == o.vote_policy
    }

    pub fn copy(&self) -> (r: ProposalKind)
        ensures
            r.same_as(*self),
    {
        let mut req: Vec<u8> = Vec::new();
        let mut i: usize = 0;
        while i < self.required_instrs.len()
            invariant
                i <= self.required_instrs.len(),
                req@ == self.required_instrs@.subrange(0, i as int),
            decreases self.required_instrs.len() - i,
        {
            req.push(self.required_instrs[i]);
            assert(req@ == self.required_instrs@.subrange(0, i + 1));
            i = i + 1;
        }
        assert(self.required_instrs@.subrange(0, self.required_instrs@.len() as int) == self.required_instrs@);
        ProposalKind { name: self.name.clone(), required_instrs: req, vote_policy: self.vote_policy }
    }
}

impl Policy {
    /// Equal policies, with the vectors inside compared element by element.
    pub open spec fn same_as(self, o: Policy) -> bool {
        &&& self.roles@.len() == o.roles@.len()
        &&& forall|i: int| 0 <= i < self.roles@.len() ==> (#[trigger] self.roles@[i]).same_as(o.roles@[i])
        &&& self.proposal_kinds@.len() == o.proposal_kinds@.len()
        &&& forall|i: int| 0 <= i < self.proposal_kinds@.len() ==> (#[trigger] self.proposal_kinds@[i]).same_as(o.proposal_kinds@[i])
        &&& self.default_vote_policy == o.default_vote_policy
        &&& self.proposal_bond == o.proposal_bond
        &&& self.proposal_period == o.proposal_period
        &&& self.bounty_bond == o.bounty_bond
        &&& self.bounty_forgiveness_period == o.bounty_forgiveness_period
    }

    pub fn copy(&self) -> (r: Policy)
        ensures
            r.same_as(*self),
            self.wf() ==> r.wf(),
    {
        let mut roles: Vec<RolePermission> = Vec::new();
        let mut i: usize = 0;
        while i < self.roles.len()
            invariant
                i <= self.roles.len(),
                roles@.len() == i,
                forall|j: int| 0 <= j < i ==> (#[trigger] roles@[j]).same_as(self.roles@[j]),
            decreases self.roles.len() - i,
        {
            roles.push(self.roles[i].copy());
            i = i + 1;
        }
        let mut kinds: Vec<ProposalKind> = Vec::new();
        let mut k: usize = 0;
        while k < self.proposal_kinds.len()
            invariant
                k <= self.proposal_kinds.len(),
                kinds@.len() == k,
                forall|j: int| 0 <= j < k ==> (#[trigger] kinds@[j]).same_as(self.proposal_kinds@[j]),
            decreases self.proposal_kinds.len() - k,
        {
            kinds.push(self.proposal_kinds[k].copy());
            k = k + 1;
        }
        let r = Policy {
            proposal_kinds: kinds,
            roles,
            default_vote_policy: self.default_vote_policy,
            proposal_bond: self.proposal_bond,
            proposal_period: self.proposal_period,
            bounty_bond: self.bounty_bond,
            bounty_forgiveness_period: self.bounty_forgiveness_period,
        };
        proof {
            if self.wf() {
                assert forall|j: int| 0 <= j < r.roles@.len() implies (#[trigger] r.roles@[j]).kind.wf() by {
                    assert(self.roles@[j].kind.wf());
                }
                assert forall|j: int| 0 <= j < r.proposal_kinds@.len() implies (#[trigger] r.proposal_kinds@[j]).vote_policy.threshold.wf() by {
                    assert(self.proposal_kinds@[j].vote_policy.threshold.wf());
                }
            }
        }
        r
    }

    /// Whether the policy is well formed: groups without repeated members and
    /// ratios with non-zero denominators.
    pub fn is_valid(&self) -> (r: bool)
        ensures
            r == self.wf(),
    {
        if !ratio_ok(&self.default_vote_policy.threshold) {
            return false;
        }
        let mut i: usize = 0;
        while i < self.roles.len()
            invariant
                i <= self.roles.len(),
                forall|j: int| 0 <= j < i ==> (#[trigger] self.roles@[j]).kind.wf(),
            decreases self.roles.len() - i,
        {
            match &self.roles[i].kind {
                RoleKind::Group(a) => {
                    if !all_distinct(a) {
                        return false;
                    }
                },
                _ => {},
            }
            i = i + 1;
        }
        let mut k: usize = 0;
        while k < self.proposal_kinds.len()
            invariant
                k <= self.proposal_kinds.len(),
                forall|j: int| 0 <= j < self.roles@.len() ==> (#[trigger] self.roles@[j]).kind.wf(),
                self.default_vote_policy.threshold.wf(),
                forall|j: int| 0 <= j < k ==> (#[trigger] self.proposal_kinds@[j]).vote_policy.threshold.wf(),
            decreases self.proposal_kinds.len() - k,
        {
            if !ratio_ok(&self.proposal_kinds[k].vote_policy.threshold) {
                return false;
            }
            k = k + 1;
        }
        true
    }
}

fn ratio_ok(t: &WeightOrRatio) -> (r: bool)
    ensures
        r == t.wf(),
{
    match t {
        WeightOrRatio::Ratio(_, d) => *d > 0,
        WeightOrRatio::Weight(_) => true,
    }
}

/// Whether no string occurs twice.
fn all_distinct(v: &Vec<String>) -> (r: bool)
    ensures
        r == distinct_views(v@),
{
    let mut i: usize = 0;
    while i < v.len()
        invariant
            i <= v.len(),
            forall|p: int, q: int| 0 <= p < i && 0 <= q < v@.len() && p != q ==> (#[trigger] v@[p])@ != (#[trigger] v@[q])@,
        decreases v.len() - i,
    {
        let mut j: usize = 0;
        while j < v.len()
            invariant
                i < v.len(),
                j <= v.len(),
                forall|p: int, q: int| 0 <= p < i && 0 <= q < v@.len() && p != q ==> (#[trigger] v@[p])@ != (#[trigger] v@[q])@,
                forall|q: int| 0 <= q < j && q != i ==> v@[i as int]@ != (#[trigger] v@[q])@,
            decreases v.len() - j,
        {
            if j != i && v[i] == v[j] {
                return false;
            }
            j = j + 1;
        }
        i = i + 1;
    }
    true
}

impl VersionedPolicy {
    pub open spec fn same_as(self, o: VersionedPolicy) -> bool {
        match self {
            VersionedPolicy::Default(c) => o is Default && o->Default_0@ == c@,
            VersionedPolicy::Current(p) => o is Current && o->Current_0.same_as(p),
        }
    }

    /// A default council list, or a well-formed full policy.
    pub open spec fn wf(self) -> bool {
        self is Current ==> self->Current_0.wf()
    }

    pub fn copy(&self) -> (r: VersionedPolicy)
        ensures
            r.same_as(*self),
            self.wf() ==> r.wf(),
    {
        match self {
            VersionedPolicy::Default(c) => VersionedPolicy::Default(copy_strings(c)),
            VersionedPolicy::Current(p) => VersionedPolicy::Current(p.copy()),
        }
    }

    /// Whether the policy is well formed.
    pub fn is_valid(&self) -> (r: bool)
        ensures
            r == self.wf(),
    {
        match self {
            VersionedPolicy::Default(_) => true,
            VersionedPolicy::Current(p) => p.is_valid(),
        }
    }
}

} // verus!
