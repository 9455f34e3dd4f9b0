use vstd::prelude::*;

use crate::bounties::{Bounty, BountyClaim};
use crate::contract::{claim_pos, count_claims, is_payout, Contract, Effect};
use crate::policy::{is_default_policy, Policy, VersionedPolicy, VotePolicy, WeightKind};
use crate::types::{AccountId, Action, Balance, Config, Context, DaoError};

verus! {

/// Numeric tag of an instruction variant, used to classify proposals.
pub type InstructionKind = u8;

/// A named class of proposals: those whose instructions include every tag of
/// `required_instrs`. The class decides which vote policy applies.
#[derive(Clone, Debug, PartialEq)]
pub struct ProposalKind {
    pub name: String,
    pub required_instrs: Vec<InstructionKind>,
    pub vote_policy: VotePolicy,
}

/// Status of a proposal; every status but `InProgress` is terminal.
#[derive(Clone, Copy, PartialEq, Eq, Debug, Structural)]
pub enum ProposalStatus {
    InProgress,
    /// The given version reached the threshold and was executed.
    Approved { version: u8 },
    /// Rejections reached the threshold; bonds were refunded.
    Rejected,
    /// The voting period ran out; bonds were refunded.
    Expired,
    /// Moved elsewhere.
    Moved,
}

/// One call of a remote method.
#[derive(Clone, Debug, PartialEq)]
pub struct ActionCall {
    pub method_name: String,
    pub args: Vec<u8>,
    pub deposit: Balance,
    pub gas: u64,
}

/// An effect that runs when a proposal version is approved.
#[derive(Clone, Debug, PartialEq)]
pub enum Instruction {
    /// Replace the DAO config.
    ChangeConfig { config: Config },
    /// Replace the whole policy.
    ChangePolicy { policy: VersionedPolicy },
    /// Add a member to a group role.
    AddMemberToRole { member_id: AccountId, role: String },
    /// Remove a member from a group role.
    RemoveMemberFromRole { member_id: AccountId, role: String },
    /// Call `receiver_id` once for each action.
    FunctionCall { receiver_id: AccountId, actions: Vec<ActionCall> },
    /// Upgrade this contract with the code stored under `hash`.
    UpgradeSelf { hash: [u8; 32] },
    /// Upgrade another contract by calling `method_name` with the code stored under `hash`.
    UpgradeRemote { receiver_id: AccountId, method_name: String, hash: [u8; 32] },
    /// Transfer `amount` of `token_id` (empty: the native token) to `receiver_id`.
    Transfer { token_id: AccountId, receiver_id: AccountId, amount: Balance },
    /// Set the staking contract; allowed only while none is set.
    SetStakingContract { staking_id: AccountId },
    /// Register a new bounty.
    AddBounty { bounty: Bounty },
    /// Pay out a bounty to the account that did it.
    BountyDone { bounty_id: u64, receiver_id: AccountId },
    /// A signaling vote with no effect.
    Vote,
}

impl Instruction {
    pub open spec fn tag(self) -> InstructionKind {
        match self {
            Instruction::ChangeConfig { .. } => 0,
            Instruction::ChangePolicy { .. } => 1,
            Instruction::AddMemberToRole { .. } => 2,
            Instruction::RemoveMemberFromRole { .. } => 3,
            Instruction::FunctionCall { .. } => 4,
            Instruction::UpgradeSelf { .. } => 5,
            Instruction::UpgradeRemote { .. } => 6,
            Instruction::Transfer { .. } => 7,
            Instruction::SetStakingContract { .. } => 8,
            Instruction::AddBounty { .. } => 9,
            Instruction::BountyDone { .. } => 10,
            Instruction::Vote => 11,
        }
    }

    /// The stable numeric tag of this variant.
    pub fn to_enum(&self) -> (r: InstructionKind)
        ensures
            r == self.tag(),
    {
        match self {
            Instruction::ChangeConfig { .. } => 0,
            Instruction::ChangePolicy { .. } => 1,
            Instruction::AddMemberToRole { .. } => 2,
            Instruction::RemoveMemberFromRole { .. } => 3,
            Instruction::FunctionCall { .. } => 4,
            Instruction::UpgradeSelf { .. } => 5,
            Instruction::UpgradeRemote { .. } => 6,
            Instruction::Transfer { .. } => 7,
            Instruction::SetStakingContract { .. } => 8,
            Instruction::AddBounty { .. } => 9,
            Instruction::BountyDone { .. } => 10,
            Instruction::Vote => 11,
        }
    }

    /// Variants that must stand alone in a proposal.
    pub open spec fn is_standalone(self) -> bool {
        self is SetStakingContract || self is UpgradeSelf || self is Vote || self is BountyDone
    }
}

/// A policy carried by a `ChangePolicy` is well formed: groups list each
/// member once and every ratio has a non-zero denominator. This is no rule of
/// instruction-set validity; it is checked when a proposal is submitted so
/// that an approved policy change can never install a policy whose threshold
/// computation would later divide by zero in `to_weight`.
pub open spec fn policy_payload_ok(i: Instruction) -> bool {
    match i {
        Instruction::ChangePolicy { policy } => policy.wf(),
        _ => true,
    }
}

/// Every policy the instructions carry is well formed.
pub open spec fn policies_ok(instrs: Seq<Instruction>) -> bool {
    forall|k: int| 0 <= k < instrs.len() ==> policy_payload_ok(#[trigger] instrs[k])
}

/// A valid instruction set: when it holds more than one instruction, none of
/// them is a standalone variant.
pub open spec fn valid_instruction_set(instrs: Seq<Instruction>) -> bool {
    instrs.len() > 1 ==> forall|k: int| 0 <= k < instrs.len() ==> !(#[trigger] instrs[k]).is_standalone()
}

/// The instructions of a stored version: at least one, a valid set, and
/// well-formed policies only.
pub open spec fn well_formed_instructions(instrs: Seq<Instruction>) -> bool {
    &&& instrs.len() >= 1
    &&& valid_instruction_set(instrs)
    &&& policies_ok(instrs)
}

/// Equal action lists, with byte arguments compared as sequences.
pub open spec fn actions_same(a: Seq<ActionCall>, b: Seq<ActionCall>) -> bool {
    &&& a.len() == b.len()
    &&& forall|k: int|
        0 <= k < a.len() ==> (#[trigger] a[k]).method_name == b[k].method_name && a[k].args@ == b[k].args@ && a[k].deposit
            == b[k].deposit && a[k].gas == b[k].gas
}

impl ActionCall {
    pub fn copy(&self) -> (r: ActionCall)
        ensures
            r.method_name == self.method_name,
            r.args@ == self.args@,
            r.deposit == self.deposit,
            r.gas == self.gas,
    {
        ActionCall {
            method_name: self.method_name.clone(),
            args: crate::policy::copy_bytes(&self.args),
            deposit: self.deposit,
            gas: self.gas,
        }
    }
}

/// A copy of the action list.
pub fn copy_actions(v: &Vec<ActionCall>) -> (r: Vec<ActionCall>)
    ensures
        actions_same(r@, v@),
{
    let mut out: Vec<ActionCall> = Vec::new();
    let mut i: usize = 0;
    while i < v.len()
        invariant
            i <= v.len(),
            out@.len() == i,
            forall|k: int|
                0 <= k < i ==> (#[trigger] out@[k]).method_name == v@[k].method_name && out@[k].args@ == v@[k].args@
                    && out@[k].deposit == v@[k].deposit && out@[k].gas == v@[k].gas,
        decreases v.len() - i,
    {
        out.push(v[i].copy());
        i = i + 1;
    }
    out
}

/// Whether some instruction carries the tag `t`.
pub open spec fn has_tag(instrs: Seq<Instruction>, t: InstructionKind) -> bool {
    exists|k: int| 0 <= k < instrs.len() && (#[trigger] instrs[k]).tag() == t
}

impl ProposalKind {
    /// Every required tag occurs among the instructions.
    pub open spec fn matches(self, instrs: Seq<Instruction>) -> bool {
        forall|j: int| 0 <= j < self.required_instrs@.len() ==> has_tag(instrs, #[trigger] self.required_instrs@[j])
    }

    /// Whether the instructions fall under this kind.
    pub fn match_proposal(&self, instructions: &Vec<Instruction>) -> (r: bool)
        ensures
            r == self.matches(instructions@),
    {
        let mut tags: Vec<InstructionKind> = Vec::new();
        let mut k: usize = 0;
        while k < instructions.len()
            invariant
                k <= instructions.len(),
                tags@.len() == k,
                forall|m: int| 0 <= m < k ==> tags@[m] == (#[trigger] instructions@[m]).tag(),
            decreases instructions.len() - k,
        {
            tags.push(instructions[k].to_enum());
            k = k + 1;
        }
        let mut j: usize = 0;
        while j < self.required_instrs.len()
            invariant
                j <= self.required_instrs.len(),
                tags@.len() == instructions@.len(),
                forall|m: int| 0 <= m < tags@.len() ==> tags@[m] == (#[trigger] instructions@[m]).tag(),
                forall|q: int| 0 <= q < j ==> has_tag(instructions@, #[trigger] self.required_instrs@[q]),
            decreases self.required_instrs.len() - j,
        {
            let want = self.required_instrs[j];
            let mut found = false;
            let mut m: usize = 0;
            while m < tags.len()
                invariant
                    m <= tags.len(),
                    tags@.len() == instructions@.len(),
                    forall|p: int| 0 <= p < tags@.len() ==> tags@[p] == (#[trigger] instructions@[p]).tag(),
                    found ==> has_tag(instructions@, want),
                    !found ==> forall|p: int| 0 <= p < m ==> tags@[p] != want,
                decreases tags.len() - m,
            {
                if tags[m] == want {
                    assert(instructions@[m as int].tag() == want);
                    found = true;
                }
                m = m + 1;
            }
            if !found {
                assert(!has_tag(instructions@, want)) by {
                    assert forall|p: int| 0 <= p < instructions@.len() implies (#[trigger] instructions@[p]).tag() != want by {
                        assert(tags@[p] != want);
                    }
                }
                return false;
            }
            j = j + 1;
        }
        true
    }
}

/// A ballot: `choice` 0 rejects, `choice` v + 1 approves version v.
#[derive(Clone, Copy, PartialEq, Eq, Debug, Structural)]
pub struct Vote {
    pub choice: u8,
    pub weight: u128,
}

/// A vote to remove one version of a proposal.
#[derive(Clone, Debug, PartialEq)]
pub struct RemoveVote {
    pub account_id: AccountId,
    pub version: u8,
}

/// One concrete text and instruction list within a proposal topic.
#[derive(Clone, Debug, PartialEq)]
pub struct ProposalVersion {
    pub proposer: AccountId,
    pub description: String,
    pub instructions: Vec<Instruction>,
}

/// A proposal topic: one or more competing versions sharing one tally.
#[derive(Clone, Debug, PartialEq)]
pub struct Proposal {
    /// Kind matched when the proposal was created.
    pub kind: String,
    /// The competing versions.
    pub versions: Vec<ProposalVersion>,
    pub status: ProposalStatus,
    /// Approval weight per version.
    pub approve_count: Vec<Balance>,
    /// Rejection weight over the whole topic.
    pub reject_count: Balance,
    /// Removal weight per version.
    pub remove_count: Vec<Balance>,
    /// Whether each version was withdrawn or vetoed.
    pub remove_flag: Vec<bool>,
    /// The current ballot of each account that voted, one entry per account.
    pub votes: Vec<(AccountId, Vote)>,
    /// Removal votes cast so far.
    pub remove_votes: Vec<RemoveVote>,
    /// Block time of submission.
    pub submission_time: u64,
}

/// A proposal as kept in storage, one variant per schema version.
#[derive(Clone, Debug)]
pub enum VersionedProposal {
    Default(Proposal),
}

impl From<VersionedProposal> for Proposal {
    fn from(v: VersionedProposal) -> (r: Proposal) {
        match v {
            VersionedProposal::Default(p) => p,
        }
    }
}

impl vstd::std_specs::convert::FromSpecImpl<VersionedProposal> for Proposal {
    open spec fn obeys_from_spec() -> bool {
        true
    }

    open spec fn from_spec(v: VersionedProposal) -> Proposal {
        match v {
            VersionedProposal::Default(p) => p,
        }
    }
}

/// Sum of the weights of the ballots with the given choice.
pub open spec fn tally(votes: Seq<(AccountId, Vote)>, choice: int) -> int
    decreases votes.len(),
{
    if votes.len() == 0 {
        0
    } else {
        let last = votes.last().1;
        tally(votes.drop_last(), choice) + if last.choice == choice { last.weight as int } else { 0 }
    }
}

/// No account holds two ballots.
pub open spec fn voters_distinct(votes: Seq<(AccountId, Vote)>) -> bool {
    forall|i: int, j: int|
        0 <= i < votes.len() && 0 <= j < votes.len() && i != j ==> (#[trigger] votes[i]).0@ != (#[trigger] votes[j]).0@
}

impl Proposal {
    /// The per-version arrays have one entry per version.
    pub open spec fn lengths_agree(self) -> bool {
        &&& self.approve_count@.len() == self.versions@.len()
        &&& self.remove_count@.len() == self.versions@.len()
        &&& self.remove_flag@.len() == self.versions@.len()
    }

    /// The tallies are exactly the sums of the recorded ballots.
    pub open spec fn tallies_match(self) -> bool {
        &&& self.reject_count == tally(self.votes@, 0)
        &&& forall|v: int| 0 <= v < self.approve_count@.len() ==> #[trigger] self.approve_count@[v] == tally(self.votes@, v + 1)
    }

    pub open spec fn wf(self) -> bool {
        &&& 1 <= self.versions@.len() <= 255
        &&& forall|v: int| 0 <= v < self.versions@.len() ==> well_formed_instructions((#[trigger] self.versions@[v]).instructions@)
        &&& self.lengths_agree()
        &&& voters_distinct(self.votes@)
        &&& forall|k: int| 0 <= k < self.votes@.len() ==> (#[trigger] self.votes@[k]).1.choice <= self.versions@.len()
        &&& self.tallies_match()
    }
}


/// Position of the ballot of `account` at or after `from`; -1 if none.
pub open spec fn voter_pos(votes: Seq<(AccountId, Vote)>, account: Seq<char>, from: int) -> int
    decreases votes.len() - from,
{
    if from < 0 || from >= votes.len() {
        -1
    } else if votes[from].0@ == account {
        from
    } else {
        voter_pos(votes, account, from + 1)
    }
}

/// The ballots after `account` casts `vote`: its earlier ballot is replaced,
/// or the ballot is added.
pub open spec fn ballots_after(votes: Seq<(AccountId, Vote)>, account: AccountId, vote: Vote) -> Seq<(AccountId, Vote)> {
    let pos = voter_pos(votes, account@, 0);
    if pos >= 0 {
        votes.update(pos, (account, vote))
    } else {
        votes.push((account, vote))
    }
}

/// Whether a removal vote of this account on this version is already recorded.
pub open spec fn remove_voted(votes: Seq<RemoveVote>, account: Seq<char>, version: u8) -> bool {
    exists|k: int| 0 <= k < votes.len() && (#[trigger] votes[k]).account_id@ == account && votes[k].version == version
}

pub(crate) proof fn lemma_tally_push(s: Seq<(AccountId, Vote)>, x: (AccountId, Vote), c: int)
    ensures
        tally(s.push(x), c) == tally(s, c) + if x.1.choice == c { x.1.weight as int } else { 0 },
{
    assert(s.push(x).drop_last() == s);
}

pub(crate) proof fn lemma_tally_update(s: Seq<(AccountId, Vote)>, k: int, x: (AccountId, Vote), c: int)
    requires
        0 <= k < s.len(),
    ensures
        tally(s.update(k, x), c) == tally(s, c) - (if s[k].1.choice == c { s[k].1.weight as int } else { 0 })
            + (if x.1.choice == c { x.1.weight as int } else { 0 }),
    decreases s.len(),
{
    if k == s.len() - 1 {
        assert(s.update(k, x).drop_last() == s.drop_last());
    } else {
        let d = s.drop_last();
        lemma_tally_update(d, k, x, c);
        assert(s.update(k, x).drop_last() == d.update(k, x));
    }
}

pub(crate) proof fn lemma_tally_ge(s: Seq<(AccountId, Vote)>, k: int)
    requires
        0 <= k < s.len(),
    ensures
        tally(s, s[k].1.choice as int) >= s[k].1.weight,
    decreases s.len(),
{
    lemma_tally_nonneg(s.drop_last(), s[k].1.choice as int);
    if k < s.len() - 1 {
        lemma_tally_ge(s.drop_last(), k);
    }
}

pub(crate) proof fn lemma_tally_absent(s: Seq<(AccountId, Vote)>, c: int)
    requires
        forall|k: int| 0 <= k < s.len() ==> (#[trigger] s[k]).1.choice < c,
    ensures
        tally(s, c) == 0,
    decreases s.len(),
{
    if s.len() > 0 {
        let d = s.drop_last();
        assert forall|k: int| 0 <= k < d.len() implies (#[trigger] d[k]).1.choice < c by {
            assert(d[k] == s[k]);
        }
        lemma_tally_absent(d, c);
        assert(s.last() == s[s.len() - 1]);
    }
}

pub(crate) proof fn lemma_tally_nonneg(s: Seq<(AccountId, Vote)>, c: int)
    ensures
        tally(s, c) >= 0,
    decreases s.len(),
{
    if s.len() > 0 {
        lemma_tally_nonneg(s.drop_last(), c);
    }
}

proof fn lemma_voter_pos_range(votes: Seq<(AccountId, Vote)>, account: Seq<char>, from: int)
    requires
        0 <= from,
    ensures
        voter_pos(votes, account, from) == -1 || (from <= voter_pos(votes, account, from) < votes.len()
            && votes[voter_pos(votes, account, from)].0@ == account),
        voter_pos(votes, account, from) == -1 ==> forall|k: int| from <= k < votes.len() ==> (#[trigger] votes[k]).0@ != account,
    decreases votes.len() - from,
{
    if from < votes.len() && votes[from].0@ != account {
        lemma_voter_pos_range(votes, account, from + 1);
    }
}

/// The status a ballot on `choice` leads to, given the ballots after it.
pub open spec fn status_from_ballots(ballots: Seq<(AccountId, Vote)>, choice: int, threshold: int) -> ProposalStatus {
    if tally(ballots, 0) >= threshold {
        ProposalStatus::Rejected
    } else if choice != 0 && tally(ballots, choice) >= threshold {
        ProposalStatus::Approved { version: (choice - 1) as u8 }
    } else {
        ProposalStatus::InProgress
    }
}

impl Proposal {
    /// Why casting `vote` from `account_id` would fail, if it would.
    pub fn check_vote(&self, account_id: &AccountId, vote: Vote) -> (r: Option<DaoError>)
        requires
            self.wf(),
            vote.choice <= self.versions@.len(),
        ensures
            r == self.vote_error(account_id@, vote),
    {
        let pos = self.find_voter(account_id);
        if vote.choice != 0 && self.remove_flag[(vote.choice - 1) as usize] {
            return Some(DaoError::ProposalRemoved);
        }
        if pos < self.votes.len() && self.votes[pos].1.choice == vote.choice {
            return Some(DaoError::AlreadyVoted);
        }
        let current = if vote.choice == 0 { self.reject_count } else { self.approve_count[(vote.choice - 1) as usize] };
        if current > u128::MAX - vote.weight {
            return Some(DaoError::BalanceOverflow);
        }
        None
    }

    /// The status casting `vote` from `account_id` would lead to, without casting it.
    pub fn predict_status(&self, account_id: &AccountId, vote: Vote, threshold: u128) -> (r: ProposalStatus)
        requires
            self.wf(),
            vote.choice <= self.versions@.len(),
            self.vote_error(account_id@, vote) is None,
        ensures
            r == status_from_ballots(ballots_after(self.votes@, *account_id, vote), vote.choice as int, threshold as int),
    {
        let ghost b = ballots_after(self.votes@, *account_id, vote);
        proof {
            lemma_voter_pos_range(self.votes@, account_id@, 0);
        }
        let pos = self.find_voter(account_id);
        let mut reject = self.reject_count;
        let mut approve: u128 = if vote.choice == 0 { 0 } else { self.approve_count[(vote.choice - 1) as usize] };
        if pos < self.votes.len() {
            let prior = self.votes[pos].1;
            proof {
                lemma_tally_ge(self.votes@, pos as int);
                assert forall|c: int| tally(b, c) == tally(self.votes@, c) - (if prior.choice == c { prior.weight as int } else { 0 })
                    + (if vote.choice == c { vote.weight as int } else { 0 }) by {
                    lemma_tally_update(self.votes@, pos as int, (*account_id, vote), c);
                }
            }
            if prior.choice == 0 {
                reject = reject - prior.weight;
            }
        } else {
            proof {
                assert forall|c: int| tally(b, c) == tally(self.votes@, c) + (if vote.choice == c { vote.weight as int } else { 0 }) by {
                    lemma_tally_push(self.votes@, (*account_id, vote), c);
                }
            }
        }
        if vote.choice == 0 {
            reject = reject + vote.weight;
        } else {
            approve = approve + vote.weight;
        }
        if reject >= threshold {
            ProposalStatus::Rejected
        } else if vote.choice != 0 && approve >= threshold {
            ProposalStatus::Approved { version: vote.choice - 1 }
        } else {
            ProposalStatus::InProgress
        }
    }

    /// Everything but the ballots and tallies is as in `o`.
    pub open spec fn same_but_tallies(self, o: Proposal) -> bool {
        &&& self.kind == o.kind
        &&& self.versions == o.versions
        &&& self.status == o.status
        &&& self.remove_count == o.remove_count
        &&& self.remove_flag == o.remove_flag
        &&& self.remove_votes == o.remove_votes
        &&& self.submission_time == o.submission_time
    }

    /// The status a ballot leads to, given the tallies after it.
    pub open spec fn status_after_vote(self, choice: u8, threshold: u128) -> ProposalStatus {
        if self.reject_count >= threshold {
            ProposalStatus::Rejected
        } else if choice != 0 && self.approve_count@[choice - 1] >= threshold {
            ProposalStatus::Approved { version: (choice - 1) as u8 }
        } else {
            ProposalStatus::InProgress
        }
    }

    /// Why casting `vote` from `account` fails, if it does: a removed version;
    /// a repeat of the account's current ballot; a tally that would overflow.
    pub open spec fn vote_error(self, account: Seq<char>, vote: Vote) -> Option<DaoError> {
        let pos = voter_pos(self.votes@, account, 0);
        if vote.choice != 0 && self.remove_flag@[vote.choice - 1] {
            Some(DaoError::ProposalRemoved)
        } else if pos >= 0 && self.votes@[pos].1.choice == vote.choice {
            Some(DaoError::AlreadyVoted)
        } else if tally(self.votes@, vote.choice as int) + vote.weight > u128::MAX {
            Some(DaoError::BalanceOverflow)
        } else {
            None
        }
    }

    /// Position of the ballot of `account_id`; the number of ballots if none.
    fn find_voter(&self, account_id: &AccountId) -> (r: usize)
        ensures
            r <= self.votes@.len(),
            r < self.votes@.len() ==> r == voter_pos(self.votes@, account_id@, 0),
            r == self.votes@.len() ==> voter_pos(self.votes@, account_id@, 0) == -1,
    {
        let mut i: usize = 0;
        while i < self.votes.len()
            invariant
                i <= self.votes.len(),
                voter_pos(self.votes@, account_id@, 0) == voter_pos(self.votes@, account_id@, i as int),
            decreases self.votes.len() - i,
        {
            if self.votes[i].0 == *account_id {
                return i;
            }
            i = i + 1;
        }
        i
    }

    /// Records the ballot of `account_id`. An earlier ballot of the same
    /// account is taken back first, so its weight counts once, in one slot.
    /// Returns `Rejected` when rejections reach the threshold, `Approved` when
    /// the chosen version's approvals do, `InProgress` otherwise.
    pub fn update_votes(&mut self, account_id: &AccountId, vote: Vote, _vote_policy: &VotePolicy, threshold: u128) -> (r: Result<ProposalStatus, DaoError>)
        requires
            old(self).wf(),
            vote.choice <= old(self).versions@.len(),
        ensures
            old(self).vote_error(account_id@, vote) is Some ==> r == Err::<ProposalStatus, DaoError>(
                old(self).vote_error(account_id@, vote)->Some_0,
            ) && *final(self) == *old(self),
            old(self).vote_error(account_id@, vote) is None ==> r == Ok::<ProposalStatus, DaoError>(
                final(self).status_after_vote(vote.choice, threshold),
            ) && final(self).wf() && final(self).same_but_tallies(*old(self)) && final(self).votes@ == ballots_after(
                old(self).votes@,
                *account_id,
                vote,
            ),
    {
        proof {
            lemma_voter_pos_range(self.votes@, account_id@, 0);
        }
        let pos = self.find_voter(account_id);
        let found = pos < self.votes.len();
        if vote.choice != 0 && self.remove_flag[(vote.choice - 1) as usize] {
            return Err(DaoError::ProposalRemoved);
        }
        if found && self.votes[pos].1.choice == vote.choice {
            return Err(DaoError::AlreadyVoted);
        }
        let current = if vote.choice == 0 { self.reject_count } else { self.approve_count[(vote.choice - 1) as usize] };
        if current > u128::MAX - vote.weight {
            return Err(DaoError::BalanceOverflow);
        }
        let ghost old_votes = self.votes@;
        let ghost new_votes = ballots_after(old_votes, *account_id, vote);
        if found {
            let prior = self.votes[pos].1;
            proof {
                lemma_tally_ge(old_votes, pos as int);
            }
            if prior.choice == 0 {
                self.reject_count = self.reject_count - prior.weight;
            } else {
                let i = (prior.choice - 1) as usize;
                let c = self.approve_count[i];
                self.approve_count.set(i, c - prior.weight);
            }
            self.votes.set(pos, (account_id.clone(), vote));
            proof {
                assert forall|c: int| tally(new_votes, c) == tally(old_votes, c) - (if prior.choice == c { prior.weight as int } else { 0 })
                    + (if vote.choice == c { vote.weight as int } else { 0 }) by {
                    lemma_tally_update(old_votes, pos as int, (*account_id, vote), c);
                }
            }
        } else {
            self.votes.push((account_id.clone(), vote));
            proof {
                assert forall|c: int| tally(new_votes, c) == tally(old_votes, c) + (if vote.choice == c { vote.weight as int } else { 0 }) by {
                    lemma_tally_push(old_votes, (*account_id, vote), c);
                }
            }
        }
        if vote.choice == 0 {
            self.reject_count = self.reject_count + vote.weight;
        } else {
            let i = (vote.choice - 1) as usize;
            let c = self.approve_count[i];
            self.approve_count.set(i, c + vote.weight);
        }
        proof {
            assert(self.votes@ == new_votes);
            assert forall|v: int| 0 <= v < self.approve_count@.len() implies #[trigger] self.approve_count@[v] == tally(self.votes@, v + 1) by {
                assert(old(self).approve_count@[v] == tally(old_votes, v + 1));
            }
            assert forall|i: int, j: int|
                0 <= i < self.votes@.len() && 0 <= j < self.votes@.len() && i != j implies (#[trigger] self.votes@[i]).0@ != (#[trigger] self.votes@[j]).0@ by {
                if i < old_votes.len() && i != pos {
                    assert(self.votes@[i] == old_votes[i]);
                }
                if j < old_votes.len() && j != pos {
                    assert(self.votes@[j] == old_votes[j]);
                }
            }
            assert forall|k: int| 0 <= k < self.votes@.len() implies (#[trigger] self.votes@[k]).1.choice <= self.versions@.len() by {
                if k < old_votes.len() && k != pos {
                    assert(self.votes@[k] == old_votes[k]);
                }
            }
        }
        let status = if self.reject_count >= threshold {
            ProposalStatus::Rejected
        } else if vote.choice != 0 && self.approve_count[(vote.choice - 1) as usize] >= threshold {
            ProposalStatus::Approved { version: vote.choice - 1 }
        } else {
            ProposalStatus::InProgress
        };
        Ok(status)
    }

    /// Records a vote to remove a version and adds `weight` to its removal
    /// tally. Returns whether that tally has reached the threshold.
    pub fn update_remove_votes(&mut self, vote: RemoveVote, weight: u128, threshold: u128) -> (r: Result<bool, DaoError>)
        requires
            old(self).wf(),
        ensures
            vote.version >= old(self).versions@.len() ==> r == Err::<bool, DaoError>(DaoError::NoProposalVersion),
            vote.version < old(self).versions@.len() && remove_voted(old(self).remove_votes@, vote.account_id@, vote.version)
                ==> r == Err::<bool, DaoError>(DaoError::AlreadyVoted),
            vote.version < old(self).versions@.len() && !remove_voted(old(self).remove_votes@, vote.account_id@, vote.version)
                && old(self).remove_count@[vote.version as int] + weight > u128::MAX ==> r == Err::<bool, DaoError>(DaoError::BalanceOverflow),
            r is Err ==> *final(self) == *old(self),
            r is Ok == (vote.version < old(self).versions@.len() && !remove_voted(old(self).remove_votes@, vote.account_id@, vote.version)
                && old(self).remove_count@[vote.version as int] + weight <= u128::MAX),
            r is Ok ==> ({
                let v = vote.version as int;
                let n = old(self).remove_count@[v] + weight;
                &&& v < old(self).versions@.len()
                &&& !remove_voted(old(self).remove_votes@, vote.account_id@, vote.version)
                &&& n <= u128::MAX
                &&& final(self).remove_count@ == old(self).remove_count@.update(v, n as u128)
                &&& final(self).remove_votes@ == old(self).remove_votes@.push(vote)
                &&& r->Ok_0 == (n >= threshold)
                &&& final(self).wf()
                &&& final(self).kind == old(self).kind
                &&& final(self).versions == old(self).versions
                &&& final(self).status == old(self).status
                &&& final(self).approve_count == old(self).approve_count
                &&& final(self).reject_count == old(self).reject_count
                &&& final(self).remove_flag == old(self).remove_flag
                &&& final(self).votes == old(self).votes
                &&& final(self).submission_time == old(self).submission_time
            }),
    {
        if vote.version as usize >= self.versions.len() {
            return Err(DaoError::NoProposalVersion);
        }
        let mut i: usize = 0;
        while i < self.remove_votes.len()
            invariant
                i <= self.remove_votes.len(),
                vote.version < self.versions@.len(),
                forall|k: int| 0 <= k < i ==> !((#[trigger] self.remove_votes@[k]).account_id@ == vote.account_id@
                    && self.remove_votes@[k].version == vote.version),
            decreases self.remove_votes.len() - i,
        {
            if self.remove_votes[i].version == vote.version && self.remove_votes[i].account_id == vote.account_id {
                return Err(DaoError::AlreadyVoted);
            }
            i = i + 1;
        }
        let v = vote.version as usize;
        let c = self.remove_count[v];
        if c > u128::MAX - weight {
            return Err(DaoError::BalanceOverflow);
        }
        self.remove_count.set(v, c + weight);
        self.remove_votes.push(vote);
        Ok(c + weight >= threshold)
    }

    /// The ballot for `choice`: the caller's weight under token weight, one
    /// under role weight. Fails when no such version exists.
    pub fn create_vote(&self, vote_policy: &VotePolicy, choice: u8, user_weight: Balance) -> (r: Result<Vote, DaoError>)
        ensures
            choice > self.versions@.len() ==> r == Err::<Vote, DaoError>(DaoError::NoProposalVersion),
            choice <= self.versions@.len() ==> r == Ok::<Vote, DaoError>(
                Vote {
                    choice,
                    weight: if vote_policy.weight_kind == WeightKind::TokenWeight { user_weight } else { 1 },
                },
            ),
    {
        if choice as usize > self.versions.len() {
            return Err(DaoError::NoProposalVersion);
        }
        let weight = match vote_policy.weight_kind {
            WeightKind::TokenWeight => user_weight,
            WeightKind::RoleWeight => 1,
        };
        Ok(Vote { choice, weight })
    }
}

/// Whether executing the instruction queues an effect.
pub open spec fn emits(i: Instruction) -> bool {
    i is FunctionCall || i is UpgradeSelf || i is UpgradeRemote || i is Transfer
}

/// `e` is the effect that executing `i` queues.
pub open spec fn effect_matches(e: Effect, i: Instruction) -> bool {
    match i {
        Instruction::FunctionCall { receiver_id, actions } => match e {
            Effect::FunctionCall { receiver_id: r, actions: a } => r == receiver_id && actions_same(a@, actions@),
            _ => false,
        },
        Instruction::UpgradeSelf { hash } => e == (Effect::UpgradeSelf { hash }),
        Instruction::UpgradeRemote { receiver_id, method_name, hash } => e == (Effect::UpgradeRemote { receiver_id, method_name, hash }),
        Instruction::Transfer { token_id, receiver_id, amount } => is_payout(e, token_id@, receiver_id@, amount),
        _ => false,
    }
}

/// `effs` are the effects of the instructions, in order.
pub open spec fn effects_of(instrs: Seq<Instruction>, effs: Seq<Effect>) -> bool
    decreases instrs.len(),
{
    if instrs.len() == 0 {
        effs.len() == 0
    } else if emits(instrs.last()) {
        effs.len() > 0 && effect_matches(effs.last(), instrs.last()) && effects_of(instrs.drop_last(), effs.drop_last())
    } else {
        effects_of(instrs.drop_last(), effs)
    }
}

/// The bounties the instructions register, in order.
pub open spec fn added_bounties(instrs: Seq<Instruction>) -> Seq<Option<Bounty>>
    decreases instrs.len(),
{
    if instrs.len() == 0 {
        Seq::empty()
    } else {
        match instrs.last() {
            Instruction::AddBounty { bounty } => added_bounties(instrs.drop_last()).push(Some(bounty)),
            _ => added_bounties(instrs.drop_last()),
        }
    }
}

/// Position of the last `ChangeConfig`; -1 if none.
pub open spec fn last_config_pos(instrs: Seq<Instruction>) -> int
    decreases instrs.len(),
{
    if instrs.len() == 0 {
        -1
    } else if instrs.last() is ChangeConfig {
        instrs.len() - 1
    } else {
        last_config_pos(instrs.drop_last())
    }
}

/// The config a `ChangeConfig` carries.
pub open spec fn config_of(i: Instruction) -> Config {
    match i {
        Instruction::ChangeConfig { config } => config,
        _ => arbitrary(),
    }
}

/// Position of the last instruction that edits the policy; -1 if none.
pub open spec fn last_policy_edit(instrs: Seq<Instruction>) -> int
    decreases instrs.len(),
{
    if instrs.len() == 0 {
        -1
    } else if edits_policy(instrs.last()) {
        instrs.len() - 1
    } else {
        last_policy_edit(instrs.drop_last())
    }
}

/// `p` is the policy that a `ChangePolicy` instruction installs.
pub open spec fn installs_policy(p: Policy, i: Instruction) -> bool {
    match i {
        Instruction::ChangePolicy { policy } => match policy {
            VersionedPolicy::Current(q) => p.same_as(q),
            VersionedPolicy::Default(c) => is_default_policy(p, c@),
        },
        _ => true,
    }
}

/// `new` is `old` after instruction `i`: the policy a `ChangePolicy`
/// installs, a member added to or removed from a group role, or `old` itself.
pub open spec fn policy_step(old: Policy, new: Policy, i: Instruction) -> bool {
    match i {
        Instruction::ChangePolicy { .. } => installs_policy(new, i),
        Instruction::AddMemberToRole { member_id, role } => new.member_added(old, role@, member_id),
        Instruction::RemoveMemberFromRole { member_id, role } => new.member_removed(old, role@, member_id@),
        _ => new == old,
    }
}

/// `chain` holds the policy before each instruction and after the last one.
pub open spec fn policy_chain(chain: Seq<Policy>, instrs: Seq<Instruction>) -> bool {
    &&& chain.len() == instrs.len() + 1
    &&& forall|j: int| 0 <= j < instrs.len() ==> #[trigger] policy_step(chain[j], chain[j + 1], instrs[j])
}

/// Whether an instruction edits the policy.
pub open spec fn edits_policy(i: Instruction) -> bool {
    i is ChangePolicy || i is AddMemberToRole || i is RemoveMemberFromRole
}

/// The refund of `bond` to each version's proposer, in order.
pub open spec fn refunds(effs: Seq<Effect>, versions: Seq<ProposalVersion>, bond: Balance) -> bool {
    &&& effs.len() == versions.len()
    &&& forall|k: int| 0 <= k < effs.len() ==> #[trigger] effs[k] == (Effect::Transfer { receiver_id: versions[k].proposer, amount: bond })
}

/// Whether the proposal is one just created with these parts.
pub open spec fn is_fresh_proposal(
    p: Proposal,
    kind: Seq<char>,
    proposer: AccountId,
    description: String,
    instructions: Vec<Instruction>,
    now: u64,
) -> bool {
    &&& p.kind@ == kind
    &&& p.versions@.len() == 1
    &&& p.versions@[0].proposer == proposer
    &&& p.versions@[0].description == description
    &&& p.versions@[0].instructions == instructions
    &&& p.status == ProposalStatus::InProgress
    &&& p.approve_count@ == seq![0u128]
    &&& p.reject_count == 0
    &&& p.remove_count@ == seq![0u128]
    &&& p.remove_flag@ == seq![false]
    &&& p.votes@.len() == 0
    &&& p.remove_votes@.len() == 0
    &&& p.submission_time == now
}

impl Contract {
    /// Everything but the proposals is as in `o`.
    pub open spec fn same_but_proposals(self, o: Contract) -> bool {
        &&& self.config == o.config
        &&& self.policy == o.policy
        &&& self.staking_id == o.staking_id
        &&& self.total_delegation_amount == o.total_delegation_amount
        &&& self.same_bounties(o)
        &&& self.effects == o.effects
    }

    /// Nothing changed: the proposals are compared by content.
    pub open spec fn unchanged(self, o: Contract) -> bool {
        &&& self.same_but_proposals(o)
        &&& self.proposals@ == o.proposals@
    }

    /// Proposals other than `id` are as in `o`.
    pub open spec fn others_kept(self, o: Contract, id: u64) -> bool {
        &&& self.proposals@.len() == o.proposals@.len()
        &&& forall|j: int| 0 <= j < o.proposals@.len() && j != id ==> #[trigger] self.proposals@[j] == o.proposals@[j]
    }

    /// Proposals with a terminal status are as in `o`.
    pub open spec fn terminal_kept(self, o: Contract) -> bool {
        forall|j: int|
            0 <= j < o.proposals@.len() && (#[trigger] o.proposals@[j]) is Some && o.proposals@[j]->Some_0.status
                != ProposalStatus::InProgress ==> j < self.proposals@.len() && self.proposals@[j] == o.proposals@[j]
    }

    /// A staking contract, once set, is kept.
    pub open spec fn staking_kept(self, o: Contract) -> bool {
        o.staking_id is Some ==> self.staking_id == o.staking_id
    }

    /// The caller may perform `action` on proposals of `kind`.
    pub open spec fn allows(self, ctx: Context, kind: Seq<char>, action: Action) -> bool {
        self.policy.allows(ctx.predecessor_account_id@, ctx.user_weight, kind, action.label())
    }

    /// Why submitting these instructions fails, if it does.
    pub open spec fn check_error(self, ctx: Context, instrs: Seq<Instruction>, action: Action) -> Option<DaoError> {
        if ctx.attached_deposit < self.policy.proposal_bond {
            Some(DaoError::MinBond)
        } else if instrs.len() == 0 {
            Some(DaoError::EmptyInstructionSet)
        } else if !valid_instruction_set(instrs) {
            Some(DaoError::InvalidInstructionSet)
        } else if !policies_ok(instrs) {
            // a policy change that would make thresholds divide by zero
            Some(DaoError::InvalidInstructionSet)
        } else if instrs[0] is SetStakingContract && self.staking_id is Some {
            Some(DaoError::StakingContractCantChange)
        } else if !self.allows(ctx, self.policy.kind_of(instrs), action) {
            Some(DaoError::PermissionDenied)
        } else {
            None
        }
    }

    /// Why executing the instructions of an approved version fails, if it does.
    pub open spec fn exec_error(self, instrs: Seq<Instruction>) -> Option<DaoError> {
        if instrs.len() == 1 {
            match instrs[0] {
                Instruction::SetStakingContract { .. } => if self.staking_id is Some {
                    Some(DaoError::InvalidStakingChange)
                } else {
                    None
                },
                Instruction::BountyDone { bounty_id, receiver_id } => if self.bounty(bounty_id) is None {
                    Some(DaoError::NoBounty)
                } else {
                    self.claim_error(receiver_id@, bounty_id)
                },
                _ => None,
            }
        } else {
            None
        }
    }

    /// `self` is `old` after one instruction that is not standalone ran.
    pub open spec fn instruction_done(self, old: Contract, i: Instruction) -> bool {
        &&& self.staking_id == old.staking_id
        &&& self.total_delegation_amount == old.total_delegation_amount
        &&& self.proposals == old.proposals
        &&& self.bounty_claimers == old.bounty_claimers
        &&& emits(i) ==> self.effects@.len() == old.effects@.len() + 1 && self.effects@.drop_last() == old.effects@
            && effect_matches(self.effects@.last(), i)
        &&& !emits(i) ==> self.effects == old.effects
        &&& match i {
            Instruction::AddBounty { bounty } => self.bounties@ == old.bounties@.push(Some(bounty)),
            _ => self.bounties == old.bounties,
        }
        &&& match i {
            Instruction::ChangeConfig { config } => self.config.same_as(config),
            _ => self.config == old.config,
        }
        &&& policy_step(old.policy, self.policy, i)
    }

    /// `self` is `old` after the instructions, none standalone, ran in order
    /// and queued `effs`: their effects queued, their bounties registered, the
    /// last config set; the policy is the result of applying every policy
    /// edit in order, so untouched when there is none and the one installed
    /// when the last edit is a `ChangePolicy`.
    pub open spec fn plain_done(self, old: Contract, instrs: Seq<Instruction>, effs: Seq<Effect>) -> bool {
        let p = last_config_pos(instrs);
        &&& effects_of(instrs, effs)
        &&& self.bounties@ == old.bounties@ + added_bounties(instrs)
        &&& self.bounty_claimers == old.bounty_claimers
        &&& self.staking_id == old.staking_id
        &&& self.total_delegation_amount == old.total_delegation_amount
        &&& p >= 0 ==> self.config.same_as(config_of(instrs[p]))
        &&& p < 0 ==> self.config == old.config
        &&& (forall|k: int| 0 <= k < instrs.len() ==> !edits_policy(#[trigger] instrs[k])) ==> self.policy == old.policy
        &&& last_policy_edit(instrs) >= 0 ==> installs_policy(self.policy, instrs[last_policy_edit(instrs)])
        &&& exists|chain: Seq<Policy>| #[trigger] policy_chain(chain, instrs) && chain[0] == old.policy && chain.last() == self.policy
    }

    /// `self` is `old` after the instructions, none standalone, ran in order.
    pub open spec fn instructions_done(self, old: Contract, instrs: Seq<Instruction>) -> bool {
        let n = old.effects@.len();
        &&& self.effects@.len() >= n
        &&& self.effects@.subrange(0, n as int) == old.effects@
        &&& self.proposals == old.proposals
        &&& self.plain_done(old, instrs, self.effects@.subrange(n as int, self.effects@.len() as int))
    }

    /// `self` is `old` after version `v` of `p` was approved: bonds refunded
    /// to every proposer, then the version's instructions run.
    pub open spec fn executed_from(self, old: Contract, p: Proposal, v: int) -> bool {
        let instrs = p.versions@[v].instructions@;
        let n = old.effects@.len();
        let m = p.versions@.len();
        let rest = self.effects@.subrange((n + m) as int, self.effects@.len() as int);
        &&& self.effects@.len() >= n + m
        &&& self.effects@.subrange(0, n as int) == old.effects@
        &&& refunds(self.effects@.subrange(n as int, (n + m) as int), p.versions@, old.policy.proposal_bond)
        &&& self.total_delegation_amount == old.total_delegation_amount
        &&& if instrs.len() == 1 && instrs[0].is_standalone() {
            self.standalone_done(old, instrs[0], rest)
        } else {
            self.plain_done(old, instrs, rest)
        }
    }

    /// The effect of a standalone instruction: `rest` is what it queued.
    pub open spec fn standalone_done(self, old: Contract, i: Instruction, rest: Seq<Effect>) -> bool {
        match i {
            Instruction::SetStakingContract { staking_id } => self.staking_id == Some(staking_id) && rest.len() == 0
                && self.config == old.config && self.policy == old.policy && self.same_bounties(old),
            Instruction::UpgradeSelf { hash } => rest == seq![Effect::UpgradeSelf { hash }] && self.staking_id == old.staking_id
                && self.config == old.config && self.policy == old.policy && self.same_bounties(old),
            Instruction::Vote => rest.len() == 0 && self.staking_id == old.staking_id && self.config == old.config
                && self.policy == old.policy && self.same_bounties(old),
            Instruction::BountyDone { bounty_id, receiver_id } => {
                let k = claim_pos(old.bounty_claimers@, receiver_id@, bounty_id, 0);
                let b = old.bounty(bounty_id)->Some_0;
                &&& self.staking_id == old.staking_id
                &&& self.config == old.config
                &&& self.policy == old.policy
                &&& self.bounty_claimers@ == old.bounty_claimers@.remove(k)
                &&& rest.len() == 1
                &&& is_payout(rest[0], b.token@, receiver_id@, b.amount)
                &&& b.times <= 1 ==> self.bounties@ == old.bounties@.update(bounty_id as int, None)
                &&& b.times > 1 ==> self.bounties@ == old.bounties@.update(
                    bounty_id as int,
                    Some(Bounty { times: (b.times - 1) as u32, ..b }),
                )
            },
            _ => false,
        }
    }

    /// Runs one instruction that is not standalone.
    fn internal_execute_instruction(&mut self, instr: &Instruction)
        requires
            old(self).wf(),
            !instr.is_standalone(),
            policy_payload_ok(*instr),
        ensures
            final(self).wf(),
            final(self).instruction_done(*old(self), *instr),
    {
        match instr {
            Instruction::ChangeConfig { config } => {
                self.config = config.copy();
            },
            Instruction::ChangePolicy { policy } => {
                self.policy = policy.copy().upgrade().to_policy();
            },
            Instruction::AddMemberToRole { member_id, role } => {
                self.policy.add_member_to_role(role, member_id);
            },
            Instruction::RemoveMemberFromRole { member_id, role } => {
                self.policy.remove_member_from_role(role, member_id);
            },
            Instruction::FunctionCall { receiver_id, actions } => {
                self.effects.push(Effect::FunctionCall { receiver_id: receiver_id.clone(), actions: copy_actions(actions) });
                assert(self.effects@.drop_last() == old(self).effects@);
            },
            Instruction::UpgradeRemote { receiver_id, method_name, hash } => {
                self.effects.push(Effect::UpgradeRemote { receiver_id: receiver_id.clone(), method_name: method_name.clone(), hash: *hash });
                assert(self.effects@.drop_last() == old(self).effects@);
            },
            Instruction::Transfer { token_id, receiver_id, amount } => {
                self.internal_payout(token_id, receiver_id, *amount);
            },
            Instruction::AddBounty { bounty } => {
                self.internal_add_bounty(bounty);
            },
            _ => {},
        }
    }

    /// Runs version `v` of an approved proposal: refunds the bond to every
    /// version's proposer, then runs the version's instructions in order.
    fn internal_execute_proposal(&mut self, proposal: &Proposal, v: usize)
        requires
            old(self).wf(),
            proposal.wf(),
            v < proposal.versions@.len(),
            old(self).exec_error(proposal.versions@[v as int].instructions@) is None,
        ensures
            final(self).wf(),
            final(self).executed_from(*old(self), *proposal, v as int),
            final(self).staking_kept(*old(self)),
            final(self).proposals == old(self).proposals,
    {
        let ghost n = self.effects@.len();
        self.internal_refund_bonds(proposal);
        let ghost refunded = *self;
        let instrs = &proposal.versions[v].instructions;
        if instrs.len() == 1 && is_standalone(&instrs[0]) {
            match &instrs[0] {
                Instruction::SetStakingContract { staking_id } => {
                    self.staking_id = Some(staking_id.clone());
                },
                Instruction::UpgradeSelf { hash } => {
                    self.effects.push(Effect::UpgradeSelf { hash: *hash });
                },
                Instruction::BountyDone { bounty_id, receiver_id } => {
                    let _ = self.internal_execute_bounty_payout(*bounty_id, receiver_id, true);
                },
                _ => {},
            }
            proof {
                let e = self.effects@;
                let m = proposal.versions@.len();
                assert(e.subrange(0, n as int) =~= old(self).effects@);
                assert(e.subrange(n as int, (n + m) as int) =~= refunded.effects@.subrange(n as int, (n + m) as int));
                let rest = e.subrange((n + m) as int, e.len() as int);
                match instrs@[0] {
                    Instruction::UpgradeSelf { hash } => {
                        assert(rest =~= seq![Effect::UpgradeSelf { hash }]);
                    },
                    Instruction::BountyDone { .. } => {
                        assert(rest.len() == 1);
                        assert(rest[0] == e.last());
                    },
                    _ => {
                        assert(rest =~= Seq::<Effect>::empty());
                    },
                }
            }
        } else {
            proof {
                assert(instrs@.subrange(0, 0) =~= Seq::<Instruction>::empty());
                assert(refunded.bounties@ + added_bounties(Seq::<Instruction>::empty()) =~= refunded.bounties@);
                assert(policy_chain(seq![refunded.policy], Seq::<Instruction>::empty()));
                assert(self.effects@.subrange((n + proposal.versions@.len()) as int, self.effects@.len() as int) =~= Seq::<Effect>::empty());
                assert(self.effects@.subrange(0, self.effects@.len() as int) =~= self.effects@);
            }
            let mut i: usize = 0;
            while i < instrs.len()
                invariant
                    i <= instrs.len(),
                    instrs@ == proposal.versions@[v as int].instructions@,
                    well_formed_instructions(instrs@),
                    instrs.len() != 1 || !instrs@[0].is_standalone(),
                    self.wf(),
                    self.instructions_done(refunded, instrs@.subrange(0, i as int)),
                decreases instrs.len() - i,
            {
                let ghost before = *self;
                proof {
                    assert(!instrs@[i as int].is_standalone());
                    assert(policy_payload_ok(instrs@[i as int]));
                }
                self.internal_execute_instruction(&instrs[i]);
                proof {
                    lemma_instructions_step(refunded, before, *self, instrs@, i as int);
                }
                i = i + 1;
            }
            proof {
                assert(instrs@.subrange(0, instrs@.len() as int) == instrs@);
                let e = self.effects@;
                let m = proposal.versions@.len();
                let rest = e.subrange((n + m) as int, e.len() as int);
                assert(e.subrange(0, n as int) =~= old(self).effects@);
                assert(e.subrange(n as int, (n + m) as int) =~= refunded.effects@.subrange(n as int, (n + m) as int));
                assert(self.instructions_done(refunded, instrs@));
            }
        }
    }
}

/// The (bounty, receiver) pairs that `BountyDone` instructions name, in order.
pub open spec fn done_targets(instrs: Seq<Instruction>) -> Seq<(u64, AccountId)>
    decreases instrs.len(),
{
    if instrs.len() == 0 {
        Seq::empty()
    } else {
        match instrs.last() {
            Instruction::BountyDone { bounty_id, receiver_id } => done_targets(instrs.drop_last()).push((bounty_id, receiver_id)),
            _ => done_targets(instrs.drop_last()),
        }
    }
}

/// The (bounty, receiver) pairs that `BountyDone` instructions of all
/// versions name, in version order.
pub open spec fn version_targets(versions: Seq<ProposalVersion>) -> Seq<(u64, AccountId)>
    decreases versions.len(),
{
    if versions.len() == 0 {
        Seq::empty()
    } else {
        version_targets(versions.drop_last()) + done_targets(versions.last().instructions@)
    }
}

/// The claims after releasing the one `t` names: the receiver's first claim on
/// that bounty is removed when the bounty exists and the claim does; otherwise
/// the claims stay as they are.
pub open spec fn release_one(claims: Seq<(AccountId, BountyClaim)>, bounties: Seq<Option<Bounty>>, t: (u64, AccountId)) -> Seq<(AccountId, BountyClaim)> {
    let k = claim_pos(claims, t.1@, t.0, 0);
    if t.0 < bounties.len() && bounties[t.0 as int] is Some && k >= 0 {
        claims.remove(k)
    } else {
        claims
    }
}

/// The claims after releasing, in order, the claim each target names.
pub open spec fn released(claims: Seq<(AccountId, BountyClaim)>, bounties: Seq<Option<Bounty>>, targets: Seq<(u64, AccountId)>) -> Seq<(AccountId, BountyClaim)>
    decreases targets.len(),
{
    if targets.len() == 0 {
        claims
    } else {
        release_one(released(claims, bounties, targets.drop_last()), bounties, targets.last())
    }
}

impl Contract {
    /// `self` is `old` after the reject path of `p`: bonds refunded to every
    /// proposer, and for each `BountyDone` instruction of any version, in
    /// order, the receiver's claim on that bounty released without payout,
    /// its slot freed. A claim that is already gone has nothing to release and
    /// is skipped, since this path runs on a settled vote and must not fail.
    pub open spec fn rejected_from(self, old: Contract, p: Proposal) -> bool {
        let n = old.effects@.len();
        let m = p.versions@.len();
        &&& self.effects@.len() == n + m
        &&& self.effects@.subrange(0, n as int) == old.effects@
        &&& refunds(self.effects@.subrange(n as int, (n + m) as int), p.versions@, old.policy.proposal_bond)
        &&& self.config == old.config
        &&& self.policy == old.policy
        &&& self.staking_id == old.staking_id
        &&& self.total_delegation_amount == old.total_delegation_amount
        &&& self.bounties == old.bounties
        &&& self.bounty_claimers@ == released(old.bounty_claimers@, old.bounties@, version_targets(p.versions@))
        &&& forall|b: int| 0 <= b < self.bounties@.len() ==> #[trigger] self.bounty_claims_count@[b] == count_claims(self.bounty_claimers@, b)
    }

    /// Queues the refund of the proposal bond to every version's proposer, in
    /// version order.
    fn internal_refund_bonds(&mut self, proposal: &Proposal)
        requires
            old(self).wf(),
        ensures
            final(self).wf(),
            final(self).effects@.len() == old(self).effects@.len() + proposal.versions@.len(),
            final(self).effects@.subrange(0, old(self).effects@.len() as int) == old(self).effects@,
            refunds(
                final(self).effects@.subrange(old(self).effects@.len() as int, final(self).effects@.len() as int),
                proposal.versions@,
                old(self).policy.proposal_bond,
            ),
            final(self).config == old(self).config,
            final(self).policy == old(self).policy,
            final(self).staking_id == old(self).staking_id,
            final(self).total_delegation_amount == old(self).total_delegation_amount,
            final(self).proposals == old(self).proposals,
            final(self).same_bounties(*old(self)),
    {
        let bond = self.policy.proposal_bond;
        let ghost n = self.effects@.len();
        let mut k: usize = 0;
        while k < proposal.versions.len()
            invariant
                k <= proposal.versions.len(),
                self.wf(),
                bond == old(self).policy.proposal_bond,
                self.effects@.len() == n + k,
                self.effects@.subrange(0, n as int) == old(self).effects@,
                refunds(self.effects@.subrange(n as int, n + k), proposal.versions@.subrange(0, k as int), bond),
                self.config == old(self).config,
                self.policy == old(self).policy,
                self.staking_id == old(self).staking_id,
                self.total_delegation_amount == old(self).total_delegation_amount,
                self.proposals == old(self).proposals,
                self.same_bounties(*old(self)),
            decreases proposal.versions.len() - k,
        {
            let ghost prev = self.effects@;
            self.effects.push(Effect::Transfer { receiver_id: proposal.versions[k].proposer.clone(), amount: bond });
            proof {
                let e = self.effects@;
                let vs = proposal.versions@;
                assert(e.subrange(0, n as int) =~= old(self).effects@);
                assert forall|j: int| 0 <= j < k + 1 implies #[trigger] e.subrange(n as int, n + k + 1)[j] == (Effect::Transfer {
                    receiver_id: vs.subrange(0, k + 1)[j].proposer,
                    amount: bond,
                }) by {
                    if j < k {
                        assert(e.subrange(n as int, n + k + 1)[j] == prev.subrange(n as int, n + k)[j]);
                        assert(vs.subrange(0, k + 1)[j] == vs.subrange(0, k as int)[j]);
                    } else {
                        assert(e.subrange(n as int, n + k + 1)[j] == e[n + k]);
                        assert(vs.subrange(0, k + 1)[j] == vs[k as int]);
                    }
                }
            }
            k = k + 1;
        }
        assert(proposal.versions@.subrange(0, proposal.versions@.len() as int) == proposal.versions@);
    }

    /// Refunds the bond to every version's proposer, then releases, without
    /// payout, the claims named by `BountyDone` instructions; a claim already
    /// gone is skipped.
    fn internal_reject_proposal(&mut self, proposal: &Proposal)
        requires
            old(self).wf(),
        ensures
            final(self).wf(),
            final(self).rejected_from(*old(self), *proposal),
            final(self).proposals == old(self).proposals,
    {
        self.internal_refund_bonds(proposal);
        let ghost refunded = *self;
        let ghost vs = proposal.versions@;
        let mut k: usize = 0;
        proof {
            assert(vs.subrange(0, 0) =~= Seq::<ProposalVersion>::empty());
        }
        while k < proposal.versions.len()
            invariant
                k <= proposal.versions.len(),
                vs == proposal.versions@,
                self.wf(),
                self.effects == refunded.effects,
                self.config == old(self).config,
                self.policy == old(self).policy,
                self.staking_id == old(self).staking_id,
                self.total_delegation_amount == old(self).total_delegation_amount,
                self.proposals == old(self).proposals,
                self.bounties == old(self).bounties,
                self.bounty_claimers@ == released(old(self).bounty_claimers@, old(self).bounties@, version_targets(vs.subrange(0, k as int))),
            decreases proposal.versions.len() - k,
        {
            let instrs = &proposal.versions[k].instructions;
            let ghost before = version_targets(vs.subrange(0, k as int));
            let mut i: usize = 0;
            proof {
                assert(instrs@.subrange(0, 0) =~= Seq::<Instruction>::empty());
                assert(before + done_targets(Seq::<Instruction>::empty()) =~= before);
            }
            while i < instrs.len()
                invariant
                    i <= instrs.len(),
                    instrs@ == vs[k as int].instructions@,
                    self.wf(),
                    self.effects == refunded.effects,
                    self.config == old(self).config,
                    self.policy == old(self).policy,
                    self.staking_id == old(self).staking_id,
                    self.total_delegation_amount == old(self).total_delegation_amount,
                    self.proposals == old(self).proposals,
                    self.bounties == old(self).bounties,
                    self.bounty_claimers@ == released(
                        old(self).bounty_claimers@,
                        old(self).bounties@,
                        before + done_targets(instrs@.subrange(0, i as int)),
                    ),
                decreases instrs.len() - i,
            {
                let ghost pre = instrs@.subrange(0, i as int);
                let ghost post = instrs@.subrange(0, i + 1);
                proof {
                    assert(post.drop_last() == pre);
                    assert(post.last() == instrs@[i as int]);
                }
                match &instrs[i] {
                    Instruction::BountyDone { bounty_id, receiver_id } => {
                        proof {
                            crate::bounties::lemma_claim_pos_range(self.bounty_claimers@, receiver_id@, *bounty_id, 0);
                            let k0 = claim_pos(self.bounty_claimers@, receiver_id@, *bounty_id, 0);
                            if k0 >= 0 {
                                assert(crate::contract::has_claims(self.bounty_claimers@, receiver_id@));
                            }
                            let t = before + done_targets(pre);
                            assert(before + done_targets(post) =~= t.push((*bounty_id, *receiver_id)));
                            assert(t.push((*bounty_id, *receiver_id)).drop_last() == t);
                        }
                        let _ = self.internal_execute_bounty_payout(*bounty_id, receiver_id, false);
                    },
                    _ => {
                        proof {
                            assert(done_targets(post) == done_targets(pre));
                        }
                    },
                }
                i = i + 1;
            }
            proof {
                assert(instrs@.subrange(0, instrs@.len() as int) == instrs@);
                let sub = vs.subrange(0, k + 1);
                assert(sub.drop_last() == vs.subrange(0, k as int));
                assert(sub.last() == vs[k as int]);
            }
            k = k + 1;
        }
        assert(vs.subrange(0, vs.len() as int) == vs);
    }
}

impl Contract {
    /// The ballot the caller casts on `choice` of `p`: their weight under
    /// token weight, one under role weight.
    pub open spec fn ballot(self, ctx: Context, p: Proposal, choice: int) -> Vote {
        let vp = self.policy.vote_policy_for(p.kind@);
        Vote { choice: choice as u8, weight: if vp.weight_kind == WeightKind::TokenWeight { ctx.user_weight } else { 1 } }
    }

    /// The threshold that applies to `p`.
    pub open spec fn vote_threshold(self, p: Proposal) -> int {
        self.policy.threshold_for(self.policy.vote_policy_for(p.kind@), self.total_delegation_amount as int, p.kind@)
    }

    /// The status of `p` once the caller's ballot on `choice` is counted.
    pub open spec fn vote_status(self, ctx: Context, p: Proposal, choice: int) -> ProposalStatus {
        status_from_ballots(ballots_after(p.votes@, ctx.predecessor_account_id, self.ballot(ctx, p, choice)), choice, self.vote_threshold(p))
    }

    /// Why the caller's vote `choice` (0 rejects, v + 1 approves version v) on
    /// proposal `id` fails, if it does.
    pub open spec fn vote_error(self, ctx: Context, id: u64, choice: int) -> Option<DaoError> {
        let p = self.proposal(id)->Some_0;
        let action = if choice == 0 { Action::VoteReject } else { Action::VoteApprove };
        if self.proposal(id) is None {
            Some(DaoError::NoProposal)
        } else if choice > p.versions@.len() {
            Some(DaoError::NoProposalVersion)
        } else if !self.allows(ctx, p.kind@, action) {
            Some(DaoError::PermissionDenied)
        } else if p.status != ProposalStatus::InProgress {
            Some(DaoError::ProposalNotInProgress)
        } else if self.policy.threshold_fails(self.policy.vote_policy_for(p.kind@), p.kind@) {
            Some(DaoError::UnsupportedRole)
        } else if p.vote_error(ctx.predecessor_account_id@, self.ballot(ctx, p, choice)) is Some {
            p.vote_error(ctx.predecessor_account_id@, self.ballot(ctx, p, choice))
        } else {
            match self.vote_status(ctx, p, choice) {
                ProposalStatus::Approved { version } => self.exec_error(p.versions@[version as int].instructions@),
                _ => None,
            }
        }
    }

    /// `new` and `r` are what the caller's vote `choice` on proposal `id` leads
    /// to from `self`: an error with nothing changed; or the ballot recorded,
    /// the status updated and, on approval or rejection, the proposal
    /// executed or rejected.
    pub open spec fn vote_outcome(self, new: Contract, r: Result<(), DaoError>, ctx: Context, id: u64, choice: int) -> bool {
        let e = self.vote_error(ctx, id, choice);
        let p = self.proposal(id)->Some_0;
        let s = self.vote_status(ctx, p, choice);
        let np = new.proposal(id)->Some_0;
        if e is Some {
            r == Err::<(), DaoError>(e->Some_0) && new.unchanged(self)
        } else {
            &&& r is Ok
            &&& new.proposal(id) is Some
            &&& np.votes@ == ballots_after(p.votes@, ctx.predecessor_account_id, self.ballot(ctx, p, choice))
            &&& np.status == s
            &&& np.kind == p.kind
            &&& np.versions == p.versions
            &&& np.remove_count == p.remove_count
            &&& np.remove_flag == p.remove_flag
            &&& np.remove_votes == p.remove_votes
            &&& np.submission_time == p.submission_time
            &&& new.others_kept(self, id)
            &&& s == ProposalStatus::InProgress ==> new.same_but_proposals(self)
            &&& s == ProposalStatus::Rejected ==> new.rejected_from(self, p)
            &&& match s {
                ProposalStatus::Approved { version } => new.executed_from(self, p, version as int),
                _ => true,
            }
        }
    }

    /// Takes proposal `id` out of storage, leaving `None` in its place.
    fn take_proposal(&mut self, id: u64) -> (r: Proposal)
        requires
            old(self).proposal(id) is Some,
        ensures
            r == old(self).proposal(id)->Some_0,
            final(self).proposals@ == old(self).proposals@.update(id as int, None),
            final(self).same_but_proposals(*old(self)),
    {
        let mut slot: Option<Proposal> = None;
        assert(id < self.proposals.len());
        self.proposals.set_and_swap(id as usize, &mut slot);
        slot.unwrap()
    }

    /// Whether the instructions form a valid set: when there is more than one,
    /// none is `SetStakingContract`, `UpgradeSelf`, `Vote` or `BountyDone`.
    pub fn is_valid_instruction_set(&self, instructions: &Vec<Instruction>) -> (r: bool)
        ensures
            r == valid_instruction_set(instructions@),
    {
        if instructions.len() <= 1 {
            return true;
        }
        let mut i: usize = 0;
        while i < instructions.len()
            invariant
                i <= instructions.len(),
                instructions@.len() > 1,
                forall|k: int| 0 <= k < i ==> !(#[trigger] instructions@[k]).is_standalone(),
            decreases instructions.len() - i,
        {
            if is_standalone(&instructions[i]) {
                return false;
            }
            i = i + 1;
        }
        true
    }

    /// Whether every policy carried by a `ChangePolicy` is well formed.
    pub fn carried_policies_valid(&self, instructions: &Vec<Instruction>) -> (r: bool)
        ensures
            r == policies_ok(instructions@),
    {
        let mut i: usize = 0;
        while i < instructions.len()
            invariant
                i <= instructions.len(),
                forall|k: int| 0 <= k < i ==> policy_payload_ok(#[trigger] instructions@[k]),
            decreases instructions.len() - i,
        {
            match &instructions[i] {
                Instruction::ChangePolicy { policy } => {
                    if !policy.is_valid() {
                        return false;
                    }
                },
                _ => {},
            }
            i = i + 1;
        }
        true
    }

    /// Checks a submission of instructions by the caller: the bond, the
    /// instruction set, the policies it carries, a staking change, and the caller's permission for
    /// `action` on the kind the instructions match. Returns that kind.
    pub fn internal_check_proposal(&self, ctx: &Context, instructions: &Vec<Instruction>, action: Action) -> (r: Result<String, DaoError>)
        ensures
            self.check_error(*ctx, instructions@, action) is Some ==> r == Err::<String, DaoError>(
                self.check_error(*ctx, instructions@, action)->Some_0,
            ),
            self.check_error(*ctx, instructions@, action) is None ==> r is Ok && r->Ok_0@ == self.policy.kind_of(instructions@),
    {
        if ctx.attached_deposit < self.policy.proposal_bond {
            return Err(DaoError::MinBond);
        }
        if instructions.len() == 0 {
            return Err(DaoError::EmptyInstructionSet);
        }
        if !self.is_valid_instruction_set(instructions) {
            return Err(DaoError::InvalidInstructionSet);
        }
        if !self.carried_policies_valid(instructions) {
            return Err(DaoError::InvalidInstructionSet);
        }
        match &instructions[0] {
            Instruction::SetStakingContract { .. } => {
                if self.staking_id.is_some() {
                    return Err(DaoError::StakingContractCantChange);
                }
            },
            _ => {},
        }
        let kind = self.policy.match_proposal_kind(instructions);
        if !self.policy.can_execute_action(self.internal_user_info(ctx), &kind, &action) {
            return Err(DaoError::PermissionDenied);
        }
        Ok(kind)
    }

    /// Why running these instructions of an approved version would fail, if it would.
    pub fn execution_error(&self, instructions: &Vec<Instruction>) -> (r: Option<DaoError>)
        ensures
            r == self.exec_error(instructions@),
    {
        if instructions.len() != 1 {
            return None;
        }
        match &instructions[0] {
            Instruction::SetStakingContract { .. } => if self.staking_id.is_some() {
                Some(DaoError::InvalidStakingChange)
            } else {
                None
            },
            Instruction::BountyDone { bounty_id, receiver_id } => {
                if *bounty_id >= self.bounties.len() as u64 || self.bounties[*bounty_id as usize].is_none() {
                    return Some(DaoError::NoBounty);
                }
                match self.internal_get_claims(*bounty_id, receiver_id) {
                    Ok(_) => None,
                    Err(e) => Some(e),
                }
            },
            _ => None,
        }
    }

    /// Submits a proposal with one version. The caller attaches at least the
    /// proposal bond and needs `AddProposal` on the kind the instructions
    /// match. Returns the new proposal's id.
    pub fn propose(&mut self, ctx: &Context, description: String, instructions: Vec<Instruction>) -> (r: Result<u64, DaoError>)
        requires
            old(self).wf(),
        ensures
            final(self).wf(),
            final(self).terminal_kept(*old(self)),
            ({
                let e = old(self).check_error(*ctx, instructions@, Action::AddProposal);
                &&& e is Some ==> r == Err::<u64, DaoError>(e->Some_0) && final(self).unchanged(*old(self))
                &&& e is None ==> r == Ok::<u64, DaoError>(old(self).proposals@.len() as u64)
                    && final(self).proposals@.len() == old(self).proposals@.len() + 1
                    && final(self).proposals@.drop_last() == old(self).proposals@
                    && final(self).proposals@.last() is Some
                    && is_fresh_proposal(
                        final(self).proposals@.last()->Some_0,
                        old(self).policy.kind_of(instructions@),
                        ctx.predecessor_account_id,
                        description,
                        instructions,
                        ctx.block_timestamp,
                    )
                    && final(self).same_but_proposals(*old(self))
            }),
    {
        let kind = match self.internal_check_proposal(ctx, &instructions, Action::AddProposal) {
            Ok(k) => k,
            Err(e) => return Err(e),
        };
        let mut versions: Vec<ProposalVersion> = Vec::new();
        versions.push(ProposalVersion { proposer: ctx.predecessor_account_id.clone(), description, instructions });
        let mut approve_count: Vec<Balance> = Vec::new();
        approve_count.push(0);
        let mut remove_count: Vec<Balance> = Vec::new();
        remove_count.push(0);
        let mut remove_flag: Vec<bool> = Vec::new();
        remove_flag.push(false);
        let p = Proposal {
            kind,
            versions,
            status: ProposalStatus::InProgress,
            approve_count,
            reject_count: 0,
            remove_count,
            remove_flag,
            votes: Vec::new(),
            remove_votes: Vec::new(),
            submission_time: ctx.block_timestamp,
        };
        proof {
            assert(p.approve_count@ =~= seq![0u128]);
            assert(p.remove_count@ =~= seq![0u128]);
            assert(p.remove_flag@ =~= seq![false]);
            assert(p.wf());
        }
        let id = self.proposals.len() as u64;
        self.proposals.push(Some(p));
        proof {
            assert(self.proposals@.drop_last() == old(self).proposals@);
            assert forall|i: int| 0 <= i < self.proposals@.len() && (#[trigger] self.proposals@[i]) is Some implies self.proposals@[i]->Some_0.wf() by {
                if i < old(self).proposals@.len() {
                    assert(self.proposals@[i] == old(self).proposals@[i]);
                }
            }
        }
        Ok(id)
    }

    /// Casts the caller's ballot: `choice` 0 rejects, v + 1 approves version v.
    /// A ballot that reaches the threshold approves the version and runs it,
    /// or rejects the proposal and runs the reject path.
    fn handle_vote(&mut self, ctx: &Context, id: u64, choice: u8) -> (r: Result<(), DaoError>)
        requires
            old(self).wf(),
        ensures
            final(self).wf(),
            final(self).terminal_kept(*old(self)),
            final(self).staking_kept(*old(self)),
            old(self).vote_outcome(*final(self), r, *ctx, id, choice as int),
    {
        if id >= self.proposals.len() as u64 {
            return Err(DaoError::NoProposal);
        }
        let (vp, vote, threshold, status) = match &self.proposals[id as usize] {
            None => {
                return Err(DaoError::NoProposal);
            },
            Some(p) => {
                if choice as usize > p.versions.len() {
                    return Err(DaoError::NoProposalVersion);
                }
                let action = if choice == 0 { Action::VoteReject } else { Action::VoteApprove };
                if !self.policy.can_execute_action(self.internal_user_info(ctx), &p.kind, &action) {
                    return Err(DaoError::PermissionDenied);
                }
                if p.status != ProposalStatus::InProgress {
                    return Err(DaoError::ProposalNotInProgress);
                }
                let vp = self.policy.effective_vote_policy(&p.kind);
                let threshold = match self.policy.get_threshold(&vp, self.total_delegation_amount, &p.kind) {
                    Ok(t) => t,
                    Err(e) => return Err(e),
                };
                let vote = match p.create_vote(&vp, choice, ctx.user_weight) {
                    Ok(v) => v,
                    Err(e) => return Err(e),
                };
                match p.check_vote(&ctx.predecessor_account_id, vote) {
                    Some(e) => return Err(e),
                    None => {},
                }
                // The outcome is known before anything changes, so that an
                // approval whose execution would fail leaves the proposal untouched.
                let status = p.predict_status(&ctx.predecessor_account_id, vote, threshold);
                match status {
                    ProposalStatus::Approved { version } => {
                        match self.execution_error(&p.versions[version as usize].instructions) {
                            Some(e) => return Err(e),
                            None => {},
                        }
                    },
                    _ => {},
                }
                (vp, vote, threshold, status)
            },
        };
        let ghost start = *self;
        let mut p = self.take_proposal(id);
        let recorded = p.update_votes(&ctx.predecessor_account_id, vote, &vp, threshold);
        let status = match recorded {
            Ok(s) => s,
            Err(_) => status,
        };
        assert(recorded == Ok::<ProposalStatus, DaoError>(status));
        p.status = status;
        match status {
            ProposalStatus::Approved { version } => {
                self.internal_execute_proposal(&p, version as usize);
            },
            ProposalStatus::Rejected => {
                self.internal_reject_proposal(&p);
            },
            _ => {},
        }
        let ghost done = *self;
        self.proposals.set(id as usize, Some(p));
        proof {
            assert forall|i: int| 0 <= i < self.proposals@.len() && (#[trigger] self.proposals@[i]) is Some implies self.proposals@[i]->Some_0.wf() by {
                if i != id {
                    assert(self.proposals@[i] == start.proposals@[i]);
                }
            }
            assert(self.proposal(id) == Some(p));
        }
        Ok(())
    }

    /// Approves version `version` of proposal `id` for the caller.
    pub fn approve(&mut self, ctx: &Context, id: u64, version: u8) -> (r: Result<(), DaoError>)
        requires
            old(self).wf(),
        ensures
            final(self).wf(),
            final(self).terminal_kept(*old(self)),
            final(self).staking_kept(*old(self)),
            old(self).vote_outcome(*final(self), r, *ctx, id, version + 1),
    {
        if version == 255 {
            if id < self.proposals.len() as u64 && self.proposals[id as usize].is_some() {
                return Err(DaoError::NoProposalVersion);
            }
            return Err(DaoError::NoProposal);
        }
        self.handle_vote(ctx, id, version + 1)
    }

    /// Rejects proposal `id` for the caller.
    pub fn reject(&mut self, ctx: &Context, id: u64) -> (r: Result<(), DaoError>)
        requires
            old(self).wf(),
        ensures
            final(self).wf(),
            final(self).terminal_kept(*old(self)),
            final(self).staking_kept(*old(self)),
            old(self).vote_outcome(*final(self), r, *ctx, id, 0),
    {
        self.handle_vote(ctx, id, 0)
    }

    /// Puts proposal `id` back into storage.
    fn put_proposal(&mut self, id: u64, p: Proposal)
        requires
            id < old(self).proposals@.len(),
        ensures
            final(self).proposals@ == old(self).proposals@.update(id as int, Some(p)),
            final(self).same_but_proposals(*old(self)),
    {
        assert(id < self.proposals.len());
        self.proposals.set(id as usize, Some(p));
    }

    /// Adds a competing version to proposal `id`. The new instructions must
    /// match the proposal's kind; the caller attaches the proposal bond and
    /// needs `AddCounterProposal` on that kind. Returns the new version's index.
    pub fn counter_propose(&mut self, ctx: &Context, id: u64, description: String, instructions: Vec<Instruction>) -> (r: Result<u8, DaoError>)
        requires
            old(self).wf(),
        ensures
            final(self).wf(),
            final(self).terminal_kept(*old(self)),
            ({
                let p = old(self).proposal(id)->Some_0;
                let np = final(self).proposal(id)->Some_0;
                let e = if old(self).proposal(id) is None {
                    Some(DaoError::NoProposal)
                } else if old(self).check_error(*ctx, instructions@, Action::AddCounterProposal) is Some {
                    old(self).check_error(*ctx, instructions@, Action::AddCounterProposal)
                } else if p.status != ProposalStatus::InProgress {
                    Some(DaoError::ProposalNotInProgress)
                } else if old(self).policy.kind_of(instructions@) != p.kind@ {
                    Some(DaoError::DifferentProposalKind)
                } else if p.versions@.len() >= 255 {
                    Some(DaoError::TooManyVersions)
                } else {
                    None::<DaoError>
                };
                &&& e is Some ==> r == Err::<u8, DaoError>(e->Some_0) && final(self).unchanged(*old(self))
                &&& e is None ==> r == Ok::<u8, DaoError>(p.versions@.len() as u8)
                    && final(self).proposal(id) is Some
                    && np.versions@ == p.versions@.push(
                        ProposalVersion { proposer: ctx.predecessor_account_id, description, instructions },
                    )
                    && np.approve_count@ == p.approve_count@.push(0)
                    && np.remove_count@ == p.remove_count@.push(0)
                    && np.remove_flag@ == p.remove_flag@.push(false)
                    && np.kind == p.kind && np.status == p.status && np.reject_count == p.reject_count
                    && np.votes == p.votes && np.remove_votes == p.remove_votes && np.submission_time == p.submission_time
                    && final(self).others_kept(*old(self), id)
                    && final(self).same_but_proposals(*old(self))
            }),
    {
        if id >= self.proposals.len() as u64 || self.proposals[id as usize].is_none() {
            return Err(DaoError::NoProposal);
        }
        let kind = match self.internal_check_proposal(ctx, &instructions, Action::AddCounterProposal) {
            Ok(k) => k,
            Err(e) => return Err(e),
        };
        match &self.proposals[id as usize] {
            Some(p) => {
                if p.status != ProposalStatus::InProgress {
                    return Err(DaoError::ProposalNotInProgress);
                }
                if kind != p.kind {
                    return Err(DaoError::DifferentProposalKind);
                }
                if p.versions.len() >= 255 {
                    return Err(DaoError::TooManyVersions);
                }
            },
            None => return Err(DaoError::NoProposal),
        }
        let ghost start = *self;
        let mut p = self.take_proposal(id);
        let ghost p0 = p;
        let version = p.versions.len() as u8;
        p.versions.push(ProposalVersion { proposer: ctx.predecessor_account_id.clone(), description, instructions });
        p.approve_count.push(0);
        p.remove_count.push(0);
        p.remove_flag.push(false);
        proof {
            let n = p0.versions@.len() as int;
            assert forall|k: int| 0 <= k < p.votes@.len() implies (#[trigger] p.votes@[k]).1.choice <= p.versions@.len() by {
                assert(p0.votes@[k].1.choice <= n);
            }
            assert(tally(p.votes@, n + 1) == 0) by {
                lemma_tally_absent(p.votes@, n + 1);
            }
            assert forall|v: int| 0 <= v < p.approve_count@.len() implies #[trigger] p.approve_count@[v] == tally(p.votes@, v + 1) by {
                if v < n {
                    assert(p.approve_count@[v] == p0.approve_count@[v]);
                }
            }
            assert forall|v: int| 0 <= v < p.versions@.len() implies well_formed_instructions((#[trigger] p.versions@[v]).instructions@) by {
                if v < n {
                    assert(p.versions@[v] == p0.versions@[v]);
                }
            }
        }
        self.put_proposal(id, p);
        proof {
            assert forall|i: int| 0 <= i < self.proposals@.len() && (#[trigger] self.proposals@[i]) is Some implies self.proposals@[i]->Some_0.wf() by {
                if i != id {
                    assert(self.proposals@[i] == start.proposals@[i]);
                }
            }
        }
        Ok(version)
    }

    /// Withdraws version `version` of proposal `id`: only its proposer, and only
    /// before anyone approved it or voted to remove it.
    pub fn withdraw(&mut self, ctx: &Context, id: u64, version: u8) -> (r: Result<(), DaoError>)
        requires
            old(self).wf(),
        ensures
            final(self).wf(),
            final(self).terminal_kept(*old(self)),
            ({
                let p = old(self).proposal(id)->Some_0;
                let v = version as int;
                let np = final(self).proposal(id)->Some_0;
                let e = if old(self).proposal(id) is None {
                    Some(DaoError::NoProposal)
                } else if !old(self).allows(*ctx, p.kind@, Action::WithdrawProposal) {
                    Some(DaoError::PermissionDenied)
                } else if p.status != ProposalStatus::InProgress {
                    Some(DaoError::ProposalNotInProgress)
                } else if v >= p.versions@.len() {
                    Some(DaoError::NoProposalVersion)
                } else if p.remove_flag@[v] {
                    Some(DaoError::AlreadyRemoved)
                } else if p.versions@[v].proposer@ != ctx.predecessor_account_id@ {
                    Some(DaoError::UnauthorizedWithdraw)
                } else if p.approve_count@[v] != 0 || p.remove_count@[v] != 0 {
                    Some(DaoError::VotingBegun)
                } else {
                    None::<DaoError>
                };
                &&& e is Some ==> r == Err::<(), DaoError>(e->Some_0) && final(self).unchanged(*old(self))
                &&& e is None ==> r is Ok && final(self).proposal(id) is Some
                    && np.remove_flag@ == p.remove_flag@.update(v, true)
                    && np.kind == p.kind && np.versions == p.versions
                    && np.status == p.status && np.approve_count == p.approve_count && np.reject_count == p.reject_count
                    && np.remove_count == p.remove_count && np.votes == p.votes && np.remove_votes == p.remove_votes
                    && np.submission_time == p.submission_time
                    && final(self).others_kept(*old(self), id)
                    && final(self).same_but_proposals(*old(self))
            }),
    {
        if id >= self.proposals.len() as u64 || self.proposals[id as usize].is_none() {
            return Err(DaoError::NoProposal);
        }
        match &self.proposals[id as usize] {
            Some(p) => {
                if !self.policy.can_execute_action(self.internal_user_info(ctx), &p.kind, &Action::WithdrawProposal) {
                    return Err(DaoError::PermissionDenied);
                }
                if p.status != ProposalStatus::InProgress {
                    return Err(DaoError::ProposalNotInProgress);
                }
                if version as usize >= p.versions.len() {
                    return Err(DaoError::NoProposalVersion);
                }
                if p.remove_flag[version as usize] {
                    return Err(DaoError::AlreadyRemoved);
                }
                if p.versions[version as usize].proposer != ctx.predecessor_account_id {
                    return Err(DaoError::UnauthorizedWithdraw);
                }
                if p.approve_count[version as usize] != 0 || p.remove_count[version as usize] != 0 {
                    return Err(DaoError::VotingBegun);
                }
            },
            None => return Err(DaoError::NoProposal),
        }
        let ghost start = *self;
        let mut p = self.take_proposal(id);
        p.remove_flag.set(version as usize, true);
        self.put_proposal(id, p);
        proof {
            assert forall|i: int| 0 <= i < self.proposals@.len() && (#[trigger] self.proposals@[i]) is Some implies self.proposals@[i]->Some_0.wf() by {
                if i != id {
                    assert(self.proposals@[i] == start.proposals@[i]);
                }
            }
        }
        Ok(())
    }

    /// Votes to remove version `version` of proposal `id`, with the caller's
    /// weight. Once the removal votes reach the threshold, the version is
    /// flagged as removed.
    pub fn veto(&mut self, ctx: &Context, id: u64, version: u8) -> (r: Result<(), DaoError>)
        requires
            old(self).wf(),
        ensures
            final(self).wf(),
            final(self).terminal_kept(*old(self)),
            ({
                let p = old(self).proposal(id)->Some_0;
                let v = version as int;
                let np = final(self).proposal(id)->Some_0;
                let vp = old(self).policy.vote_policy_for(p.kind@);
                let n = p.remove_count@[v] + ctx.user_weight;
                let e = if old(self).proposal(id) is None {
                    Some(DaoError::NoProposal)
                } else if !old(self).allows(*ctx, p.kind@, Action::VoteRemove) {
                    Some(DaoError::PermissionDenied)
                } else if p.status != ProposalStatus::InProgress {
                    Some(DaoError::ProposalNotInProgress)
                } else if old(self).policy.threshold_fails(vp, p.kind@) {
                    Some(DaoError::UnsupportedRole)
                } else if v >= p.versions@.len() {
                    Some(DaoError::NoProposalVersion)
                } else if remove_voted(p.remove_votes@, ctx.predecessor_account_id@, version) {
                    Some(DaoError::AlreadyVoted)
                } else if n > u128::MAX {
                    Some(DaoError::BalanceOverflow)
                } else {
                    None::<DaoError>
                };
                &&& e is Some ==> r == Err::<(), DaoError>(e->Some_0) && final(self).unchanged(*old(self))
                &&& e is None ==> r is Ok && final(self).proposal(id) is Some
                    && np.remove_count@ == p.remove_count@.update(v, n as u128)
                    && np.remove_votes@ == p.remove_votes@.push(RemoveVote { account_id: ctx.predecessor_account_id, version })
                    && np.remove_flag@ == if n >= old(self).vote_threshold(p) { p.remove_flag@.update(v, true) } else { p.remove_flag@ }
                    && np.kind == p.kind && np.versions == p.versions && np.status == p.status
                    && np.approve_count == p.approve_count && np.reject_count == p.reject_count && np.votes == p.votes
                    && np.submission_time == p.submission_time
                    && final(self).others_kept(*old(self), id)
                    && final(self).same_but_proposals(*old(self))
            }),
    {
        if id >= self.proposals.len() as u64 || self.proposals[id as usize].is_none() {
            return Err(DaoError::NoProposal);
        }
        let threshold = match &self.proposals[id as usize] {
            Some(p) => {
                if !self.policy.can_execute_action(self.internal_user_info(ctx), &p.kind, &Action::VoteRemove) {
                    return Err(DaoError::PermissionDenied);
                }
                if p.status != ProposalStatus::InProgress {
                    return Err(DaoError::ProposalNotInProgress);
                }
                let vp = self.policy.effective_vote_policy(&p.kind);
                match self.policy.get_threshold(&vp, self.total_delegation_amount, &p.kind) {
                    Ok(t) => t,
                    Err(e) => return Err(e),
                }
            },
            None => return Err(DaoError::NoProposal),
        };
        let ghost start = *self;
        let mut p = self.take_proposal(id);
        let ghost p0 = p;
        let remove_vote = RemoveVote { account_id: ctx.predecessor_account_id.clone(), version };
        match p.update_remove_votes(remove_vote, ctx.user_weight, threshold) {
            Ok(reached) => {
                if reached {
                    p.remove_flag.set(version as usize, true);
                }
            },
            Err(e) => {
                self.put_proposal(id, p);
                assert(self.proposals@ =~= start.proposals@);
                return Err(e);
            },
        }
        self.put_proposal(id, p);
        proof {
            assert forall|i: int| 0 <= i < self.proposals@.len() && (#[trigger] self.proposals@[i]) is Some implies self.proposals@[i]->Some_0.wf() by {
                if i != id {
                    assert(self.proposals@[i] == start.proposals@[i]);
                }
            }
        }
        Ok(())
    }

    /// Deletes proposal `id`, which is still in progress. Bonds are not refunded.
    pub fn remove(&mut self, ctx: &Context, id: u64) -> (r: Result<(), DaoError>)
        requires
            old(self).wf(),
        ensures
            final(self).wf(),
            final(self).terminal_kept(*old(self)),
            ({
                let p = old(self).proposal(id)->Some_0;
                let e = if old(self).proposal(id) is None {
                    Some(DaoError::NoProposal)
                } else if !old(self).allows(*ctx, p.kind@, Action::RemoveProposal) {
                    Some(DaoError::PermissionDenied)
                } else if p.status != ProposalStatus::InProgress {
                    Some(DaoError::ProposalNotInProgress)
                } else {
                    None::<DaoError>
                };
                &&& e is Some ==> r == Err::<(), DaoError>(e->Some_0) && final(self).unchanged(*old(self))
                &&& e is None ==> r is Ok && final(self).proposals@ == old(self).proposals@.update(id as int, None)
                    && final(self).same_but_proposals(*old(self))
            }),
    {
        if id >= self.proposals.len() as u64 || self.proposals[id as usize].is_none() {
            return Err(DaoError::NoProposal);
        }
        match &self.proposals[id as usize] {
            Some(p) => {
                if !self.policy.can_execute_action(self.internal_user_info(ctx), &p.kind, &Action::RemoveProposal) {
                    return Err(DaoError::PermissionDenied);
                }
                if p.status != ProposalStatus::InProgress {
                    return Err(DaoError::ProposalNotInProgress);
                }
            },
            None => return Err(DaoError::NoProposal),
        }
        let _ = self.take_proposal(id);
        Ok(())
    }

    /// Closes proposal `id` once its voting period has passed: the status
    /// becomes `Expired` and the reject path refunds the bonds.
    pub fn finalize(&mut self, ctx: &Context, id: u64) -> (r: Result<(), DaoError>)
        requires
            old(self).wf(),
        ensures
            final(self).wf(),
            final(self).terminal_kept(*old(self)),
            final(self).staking_kept(*old(self)),
            ({
                let p = old(self).proposal(id)->Some_0;
                let np = final(self).proposal(id)->Some_0;
                let vp = old(self).policy.vote_policy_for(p.kind@);
                let expired = p.submission_time + old(self).policy.proposal_period < ctx.block_timestamp;
                let e = if old(self).proposal(id) is None {
                    Some(DaoError::NoProposal)
                } else if !old(self).allows(*ctx, p.kind@, Action::Finalize) {
                    Some(DaoError::PermissionDenied)
                } else if p.status != ProposalStatus::InProgress {
                    Some(DaoError::ProposalNotInProgress)
                } else if !expired && old(self).policy.threshold_fails(vp, p.kind@) {
                    Some(DaoError::UnsupportedRole)
                } else if !expired {
                    Some(DaoError::ProposalNotExpired)
                } else {
                    None::<DaoError>
                };
                &&& e is Some ==> r == Err::<(), DaoError>(e->Some_0) && final(self).unchanged(*old(self))
                &&& e is None ==> r is Ok && final(self).proposal(id) is Some
                    && np == (Proposal { status: ProposalStatus::Expired, ..p })
                    && final(self).others_kept(*old(self), id)
                    && final(self).rejected_from(*old(self), p)
            }),
    {
        if id >= self.proposals.len() as u64 || self.proposals[id as usize].is_none() {
            return Err(DaoError::NoProposal);
        }
        match &self.proposals[id as usize] {
            Some(p) => {
                if !self.policy.can_execute_action(self.internal_user_info(ctx), &p.kind, &Action::Finalize) {
                    return Err(DaoError::PermissionDenied);
                }
                match self.policy.proposal_status(p, self.total_delegation_amount, ctx.block_timestamp) {
                    Ok(ProposalStatus::Expired) => {},
                    Ok(_) => return Err(DaoError::ProposalNotExpired),
                    Err(e) => return Err(e),
                }
            },
            None => return Err(DaoError::NoProposal),
        }
        let ghost start = *self;
        let mut p = self.take_proposal(id);
        p.status = ProposalStatus::Expired;
        self.internal_reject_proposal(&p);
        self.put_proposal(id, p);
        proof {
            assert forall|i: int| 0 <= i < self.proposals@.len() && (#[trigger] self.proposals@[i]) is Some implies self.proposals@[i]->Some_0.wf() by {
                if i != id {
                    assert(self.proposals@[i] == start.proposals@[i]);
                }
            }
        }
        Ok(())
    }

    /// Replaces version `version` of proposal `id` with new text and
    /// instructions of the same kind: only its proposer, and only before anyone
    /// approved it or voted to remove it.
    pub fn amend(&mut self, ctx: &Context, id: u64, version: u8, description: String, instructions: Vec<Instruction>) -> (r: Result<(), DaoError>)
        requires
            old(self).wf(),
        ensures
            final(self).wf(),
            final(self).terminal_kept(*old(self)),
            ({
                let p = old(self).proposal(id)->Some_0;
                let v = version as int;
                let np = final(self).proposal(id)->Some_0;
                let e = if old(self).proposal(id) is None {
                    Some(DaoError::NoProposal)
                } else if old(self).check_error(*ctx, instructions@, Action::AmendProposal) is Some {
                    old(self).check_error(*ctx, instructions@, Action::AmendProposal)
                } else if p.status != ProposalStatus::InProgress {
                    Some(DaoError::ProposalNotInProgress)
                } else if old(self).policy.kind_of(instructions@) != p.kind@ {
                    Some(DaoError::DifferentProposalKind)
                } else if v >= p.versions@.len() {
                    Some(DaoError::NoProposalVersion)
                } else if p.versions@[v].proposer@ != ctx.predecessor_account_id@ {
                    Some(DaoError::UnauthorizedAmend)
                } else if p.approve_count@[v] != 0 || p.remove_count@[v] != 0 {
                    Some(DaoError::VotingBegun)
                } else {
                    None::<DaoError>
                };
                &&& e is Some ==> r == Err::<(), DaoError>(e->Some_0) && final(self).unchanged(*old(self))
                &&& e is None ==> r is Ok && final(self).proposal(id) is Some
                    && np.versions@ == p.versions@.update(
                        v,
                        ProposalVersion { proposer: ctx.predecessor_account_id, description, instructions },
                    )
                    && np.kind == p.kind && np.status == p.status && np.approve_count == p.approve_count
                    && np.reject_count == p.reject_count && np.remove_count == p.remove_count && np.remove_flag == p.remove_flag
                    && np.votes == p.votes && np.remove_votes == p.remove_votes && np.submission_time == p.submission_time
                    && final(self).others_kept(*old(self), id)
                    && final(self).same_but_proposals(*old(self))
            }),
    {
        if id >= self.proposals.len() as u64 || self.proposals[id as usize].is_none() {
            return Err(DaoError::NoProposal);
        }
        let kind = match self.internal_check_proposal(ctx, &instructions, Action::AmendProposal) {
            Ok(k) => k,
            Err(e) => return Err(e),
        };
        match &self.proposals[id as usize] {
            Some(p) => {
                if p.status != ProposalStatus::InProgress {
                    return Err(DaoError::ProposalNotInProgress);
                }
                if kind != p.kind {
                    return Err(DaoError::DifferentProposalKind);
                }
                if version as usize >= p.versions.len() {
                    return Err(DaoError::NoProposalVersion);
                }
                if p.versions[version as usize].proposer != ctx.predecessor_account_id {
                    return Err(DaoError::UnauthorizedAmend);
                }
                if p.approve_count[version as usize] != 0 || p.remove_count[version as usize] != 0 {
                    return Err(DaoError::VotingBegun);
                }
            },
            None => return Err(DaoError::NoProposal),
        }
        let ghost start = *self;
        let mut p = self.take_proposal(id);
        let ghost p0 = p;
        p.versions.set(version as usize, ProposalVersion { proposer: ctx.predecessor_account_id.clone(), description, instructions });
        proof {
            assert forall|v: int| 0 <= v < p.versions@.len() implies well_formed_instructions((#[trigger] p.versions@[v]).instructions@) by {
                if v != version {
                    assert(p.versions@[v] == p0.versions@[v]);
                }
            }
        }
        self.put_proposal(id, p);
        proof {
            assert forall|i: int| 0 <= i < self.proposals@.len() && (#[trigger] self.proposals@[i]) is Some implies self.proposals@[i]->Some_0.wf() by {
                if i != id {
                    assert(self.proposals@[i] == start.proposals@[i]);
                }
            }
        }
        Ok(())
    }
}

fn is_standalone(i: &Instruction) -> (r: bool)
    ensures
        r == i.is_standalone(),
{
    match i {
        Instruction::SetStakingContract { .. } | Instruction::UpgradeSelf { .. } | Instruction::Vote | Instruction::BountyDone { .. } => true,
        _ => false,
    }
}

proof fn lemma_last_config_range(instrs: Seq<Instruction>)
    ensures
        -1 <= last_config_pos(instrs) < instrs.len(),
    decreases instrs.len(),
{
    if instrs.len() > 0 {
        lemma_last_config_range(instrs.drop_last());
    }
}

proof fn lemma_last_policy_edit_range(instrs: Seq<Instruction>)
    ensures
        -1 <= last_policy_edit(instrs) < instrs.len(),
    decreases instrs.len(),
{
    if instrs.len() > 0 {
        lemma_last_policy_edit_range(instrs.drop_last());
    }
}

proof fn lemma_instructions_step(start: Contract, before: Contract, after: Contract, instrs: Seq<Instruction>, i: int)
    requires
        0 <= i < instrs.len(),
        before.instructions_done(start, instrs.subrange(0, i)),
        after.instruction_done(before, instrs[i]),
    ensures
        after.instructions_done(start, instrs.subrange(0, i + 1)),
{
    let pre = instrs.subrange(0, i);
    let post = instrs.subrange(0, i + 1);
    assert(post.drop_last() == pre);
    assert(post.last() == instrs[i]);
    let n = start.effects@.len();
    let e = after.effects@;
    assert(e.subrange(0, n as int) =~= start.effects@) by {
        if emits(instrs[i]) {
            assert(e.drop_last() == before.effects@);
        }
    }
    if emits(instrs[i]) {
        assert(e.subrange(n as int, e.len() as int).drop_last() =~= before.effects@.subrange(n as int, before.effects@.len() as int));
        assert(e.subrange(n as int, e.len() as int).last() == e.last());
    }
    match instrs[i] {
        Instruction::AddBounty { bounty } => {
            assert(after.bounties@ =~= start.bounties@ + added_bounties(post));
        },
        _ => {},
    }
    assert forall|k: int| 0 <= k < pre.len() implies #[trigger] pre[k] == post[k] by {}
    if forall|k: int| 0 <= k < post.len() ==> !edits_policy(#[trigger] post[k]) {
        assert forall|k: int| 0 <= k < pre.len() implies !edits_policy(#[trigger] pre[k]) by {
            assert(pre[k] == post[k]);
        }
        assert(!edits_policy(post[i]));
    }
    lemma_last_policy_edit_range(pre);
    if !edits_policy(instrs[i]) {
        assert(last_policy_edit(post) == last_policy_edit(pre));
        if last_policy_edit(pre) >= 0 {
            assert(pre[last_policy_edit(pre)] == post[last_policy_edit(post)]);
        }
    }
    let chain = choose|chain: Seq<Policy>| #[trigger] policy_chain(chain, pre) && chain[0] == start.policy && chain.last() == before.policy;
    let longer = chain.push(after.policy);
    assert forall|j: int| 0 <= j < post.len() implies #[trigger] policy_step(longer[j], longer[j + 1], post[j]) by {
        if j < pre.len() {
            assert(policy_step(chain[j], chain[j + 1], pre[j]));
            assert(longer[j] == chain[j] && longer[j + 1] == chain[j + 1] && post[j] == pre[j]);
        } else {
            assert(longer[j] == before.policy && longer[j + 1] == after.policy);
        }
    }
    assert(policy_chain(longer, post));
    lemma_last_config_range(pre);
    if !(instrs[i] is ChangeConfig) {
        assert(last_config_pos(post) == last_config_pos(pre));
        if last_config_pos(pre) >= 0 {
            assert(pre[last_config_pos(pre)] == post[last_config_pos(post)]);
        }
    }
}

} // verus!
