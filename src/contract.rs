use vstd::prelude::*;

use crate::bounties::{Bounty, BountyClaim};
use crate::policy::{Policy, UserInfo, VersionedPolicy};
use crate::proposals::{ActionCall, Proposal};
use crate::types::{is_base_token, AccountId, Balance, Config, Context, DaoError};

verus! {

/// An outside action the host performs after the request: value transfers,
/// remote calls and code upgrades.
#[derive(Clone, Debug, PartialEq)]
pub enum Effect {
    /// Transfer of the native token.
    Transfer { receiver_id: AccountId, amount: Balance },
    /// Fungible-token transfer through the token's `ft_transfer` method.
    FtTransfer { token_id: AccountId, receiver_id: AccountId, amount: Balance },
    /// Calls of `receiver_id`, one per action.
    FunctionCall { receiver_id: AccountId, actions: Vec<ActionCall> },
    /// Deploy the code stored under `hash` to this contract.
    UpgradeSelf { hash: [u8; 32] },
    /// Call `method_name` of `receiver_id` with the code stored under `hash`.
    UpgradeRemote { receiver_id: AccountId, method_name: String, hash: [u8; 32] },
}

/// `e` pays `amount` of `token` to `receiver`: a native transfer for the
/// native token, a fungible-token transfer otherwise.
pub open spec fn is_payout(e: Effect, token: Seq<char>, receiver: Seq<char>, amount: Balance) -> bool {
    if is_base_token(token) {
        match e {
            Effect::Transfer { receiver_id, amount: a } => receiver_id@ == receiver && a == amount,
            _ => false,
        }
    } else {
        match e {
            Effect::FtTransfer { token_id, receiver_id, amount: a } => token_id@ == token && receiver_id@ == receiver && a == amount,
            _ => false,
        }
    }
}

/// Number of claims on bounty `b`.
pub open spec fn count_claims(claims: Seq<(AccountId, BountyClaim)>, b: int) -> int
    decreases claims.len(),
{
    if claims.len() == 0 {
        0
    } else {
        count_claims(claims.drop_last(), b) + if claims.last().1.bounty_id == b { 1int } else { 0 }
    }
}

/// Position of the first claim of `account` on bounty `b` at or after `from`; -1 if none.
pub open spec fn claim_pos(claims: Seq<(AccountId, BountyClaim)>, account: Seq<char>, b: u64, from: int) -> int
    decreases claims.len() - from,
{
    if from < 0 || from >= claims.len() {
        -1
    } else if claims[from].0@ == account && claims[from].1.bounty_id == b {
        from
    } else {
        claim_pos(claims, account, b, from + 1)
    }
}

/// Whether `account` holds any claim.
pub open spec fn has_claims(claims: Seq<(AccountId, BountyClaim)>, account: Seq<char>) -> bool {
    exists|k: int| 0 <= k < claims.len() && (#[trigger] claims[k]).0@ == account
}

pub(crate) proof fn lemma_count_push(s: Seq<(AccountId, BountyClaim)>, x: (AccountId, BountyClaim), b: int)
    ensures
        count_claims(s.push(x), b) == count_claims(s, b) + if x.1.bounty_id == b { 1int } else { 0 },
{
    assert(s.push(x).drop_last() == s);
}

pub(crate) proof fn lemma_count_remove(s: Seq<(AccountId, BountyClaim)>, k: int, b: int)
    requires
        0 <= k < s.len(),
    ensures
        count_claims(s.remove(k), b) == count_claims(s, b) - if s[k].1.bounty_id == b { 1int } else { 0 },
    decreases s.len(),
{
    if k == s.len() - 1 {
        assert(s.remove(k) == s.drop_last());
    } else {
        let d = s.drop_last();
        lemma_count_remove(d, k, b);
        assert(s.remove(k) == d.remove(k).push(s.last()));
        lemma_count_push(d.remove(k), s.last(), b);
    }
}

pub(crate) proof fn lemma_count_update(s: Seq<(AccountId, BountyClaim)>, k: int, x: (AccountId, BountyClaim), b: int)
    requires
        0 <= k < s.len(),
        x.1.bounty_id == s[k].1.bounty_id,
    ensures
        count_claims(s.update(k, x), b) == count_claims(s, b),
    decreases s.len(),
{
    if k == s.len() - 1 {
        assert(s.update(k, x).drop_last() == s.drop_last());
    } else {
        let d = s.drop_last();
        lemma_count_update(d, k, x, b);
        assert(s.update(k, x).drop_last() == d.update(k, x));
    }
}

pub(crate) proof fn lemma_count_pos(s: Seq<(AccountId, BountyClaim)>, k: int)
    requires
        0 <= k < s.len(),
    ensures
        count_claims(s, s[k].1.bounty_id as int) >= 1,
    decreases s.len(),
{
    let b = s[k].1.bounty_id as int;
    if k < s.len() - 1 {
        lemma_count_pos(s.drop_last(), k);
    }
    lemma_count_nonneg(s.drop_last(), b);
}

proof fn lemma_count_nonneg(s: Seq<(AccountId, BountyClaim)>, b: int)
    ensures
        count_claims(s, b) >= 0,
    decreases s.len(),
{
    if s.len() > 0 {
        lemma_count_nonneg(s.drop_last(), b);
    }
}

/// The whole state of the DAO.
pub struct Contract {
    pub config: Config,
    pub policy: Policy,
    /// The staking contract, once set.
    pub staking_id: Option<AccountId>,
    /// Total delegated weight, read from the weight oracle.
    pub total_delegation_amount: Balance,
    /// Proposals by id; a removed proposal leaves `None`.
    pub proposals: Vec<Option<Proposal>>,
    /// Bounties by id; a bounty paid out for the last time leaves `None`.
    pub bounties: Vec<Option<Bounty>>,
    /// Number of open claims of each bounty, by bounty id.
    pub bounty_claims_count: Vec<u32>,
    /// Every open claim with the account that holds it, in the order they were made.
    pub bounty_claimers: Vec<(AccountId, BountyClaim)>,
    /// Effects decided so far and not yet handed to the host.
    pub effects: Vec<Effect>,
}

impl Contract {
    /// Invariants of the state: a well-formed policy and proposals; one claim
    /// count per bounty, equal to the number of open claims on it and at most
    /// the payouts it has left; no claims on a bounty that is gone.
    pub open spec fn wf(self) -> bool {
        &&& self.policy.wf()
        &&& forall|i: int| 0 <= i < self.proposals@.len() && (#[trigger] self.proposals@[i]) is Some ==> self.proposals@[i]->Some_0.wf()
        &&& self.claims_wf()
    }

    pub open spec fn claims_wf(self) -> bool {
        &&& self.bounty_claims_count@.len() == self.bounties@.len()
        &&& forall|b: int| 0 <= b < self.bounties@.len() ==> #[trigger] self.bounty_claims_count@[b] == count_claims(self.bounty_claimers@, b)
        &&& forall|b: int| 0 <= b < self.bounties@.len() && (#[trigger] self.bounties@[b]) is Some ==> self.bounty_claims_count@[b] <= self.bounties@[b]->Some_0.times
        &&& forall|b: int| 0 <= b < self.bounties@.len() && (#[trigger] self.bounties@[b]) is None ==> self.bounty_claims_count@[b] == 0
        &&& forall|k: int| 0 <= k < self.bounty_claimers@.len() ==> (#[trigger] self.bounty_claimers@[k]).1.bounty_id < self.bounties@.len()
    }

    /// Config, policy, staking contract, delegation total and proposals are as in `o`.
    pub open spec fn same_governance(self, o: Contract) -> bool {
        &&& self.config == o.config
        &&& self.policy == o.policy
        &&& self.staking_id == o.staking_id
        &&& self.total_delegation_amount == o.total_delegation_amount
        &&& self.proposals == o.proposals
    }

    /// Bounties, claim counts and claims are as in `o`.
    pub open spec fn same_bounties(self, o: Contract) -> bool {
        &&& self.bounties == o.bounties
        &&& self.bounty_claims_count == o.bounty_claims_count
        &&& self.bounty_claimers == o.bounty_claimers
    }

    /// Why looking up the claim of `account` on bounty `id` fails, if it does.
    pub open spec fn claim_error(self, account: Seq<char>, id: u64) -> Option<DaoError> {
        if !has_claims(self.bounty_claimers@, account) {
            Some(DaoError::NoBountyClaims)
        } else if claim_pos(self.bounty_claimers@, account, id, 0) < 0 {
            Some(DaoError::NoBountyClaim)
        } else {
            None
        }
    }

    /// The proposal with this id, if any.
    pub open spec fn proposal(self, id: u64) -> Option<Proposal> {
        if id < self.proposals@.len() {
            self.proposals@[id as int]
        } else {
            None
        }
    }

    /// The bounty with this id, if any.
    pub open spec fn bounty(self, id: u64) -> Option<Bounty> {
        if id < self.bounties@.len() {
            self.bounties@[id as int]
        } else {
            None
        }
    }

    /// A DAO with the given config and policy, and nothing else yet.
    pub fn new(config: Config, policy: VersionedPolicy) -> (r: Contract)
        requires
            policy is Current ==> policy->Current_0.wf(),
        ensures
            r.wf(),
            r.config == config,
            policy is Current ==> r.policy == policy->Current_0,
            policy is Default ==> crate::policy::is_default_policy(r.policy, policy->Default_0@),
            r.staking_id is None,
            r.total_delegation_amount == 0,
            r.proposals@.len() == 0,
            r.bounties@.len() == 0,
            r.bounty_claims_count@.len() == 0,
            r.bounty_claimers@.len() == 0,
            r.effects@.len() == 0,
    {
        let policy = policy.upgrade().to_policy();
        Contract {
            config,
            policy,
            staking_id: None,
            total_delegation_amount: 0,
            proposals: Vec::new(),
            bounties: Vec::new(),
            bounty_claims_count: Vec::new(),
            bounty_claimers: Vec::new(),
            effects: Vec::new(),
        }
    }

    /// The caller, with their voting weight.
    pub fn internal_user_info(&self, ctx: &Context) -> (r: UserInfo)
        ensures
            r.account_id == ctx.predecessor_account_id,
            r.amount == ctx.user_weight,
    {
        UserInfo { account_id: ctx.predecessor_account_id.clone(), amount: ctx.user_weight }
    }

    /// Queues a payout of `amount` of `token_id` to `receiver_id`.
    pub fn internal_payout(&mut self, token_id: &AccountId, receiver_id: &AccountId, amount: Balance)
        ensures
            final(self).effects@.len() == old(self).effects@.len() + 1,
            final(self).effects@.drop_last() == old(self).effects@,
            is_payout(final(self).effects@.last(), token_id@, receiver_id@, amount),
            final(self).config == old(self).config,
            final(self).policy == old(self).policy,
            final(self).staking_id == old(self).staking_id,
            final(self).total_delegation_amount == old(self).total_delegation_amount,
            final(self).proposals == old(self).proposals,
            final(self).bounties == old(self).bounties,
            final(self).bounty_claims_count == old(self).bounty_claims_count,
            final(self).bounty_claimers == old(self).bounty_claimers,
    {
        let e = if token_id.as_str().is_empty() {
            Effect::Transfer { receiver_id: receiver_id.clone(), amount }
        } else {
            Effect::FtTransfer { token_id: token_id.clone(), receiver_id: receiver_id.clone(), amount }
        };
        self.effects.push(e);
        assert(self.effects@.drop_last() == old(self).effects@);
    }

    /// Id the next proposal gets.
    pub fn get_last_proposal_id(&self) -> (r: u64)
        ensures
            r == self.proposals@.len(),
    {
        self.proposals.len() as u64
    }

    /// Id the next bounty gets.
    pub fn get_last_bounty_id(&self) -> (r: u64)
        ensures
            r == self.bounties@.len(),
    {
        self.bounties.len() as u64
    }

    /// The proposal with this id, if it exists.
    pub fn get_proposal(&self, id: u64) -> (r: Option<&Proposal>)
        ensures
            r is Some == self.proposal(id) is Some,
            r is Some ==> *r->Some_0 == self.proposal(id)->Some_0,
    {
        if id < self.proposals.len() as u64 {
            match &self.proposals[id as usize] {
                Some(p) => Some(p),
                None => None,
            }
        } else {
            None
        }
    }

    /// The bounty with this id, if it exists.
    pub fn get_bounty(&self, id: u64) -> (r: Option<&Bounty>)
        ensures
            r is Some == self.bounty(id) is Some,
            r is Some ==> *r->Some_0 == self.bounty(id)->Some_0,
    {
        if id < self.bounties.len() as u64 {
            match &self.bounties[id as usize] {
                Some(b) => Some(b),
                None => None,
            }
        } else {
            None
        }
    }

    /// Number of open claims on this bounty.
    pub fn get_bounty_number_of_claims(&self, id: u64) -> (r: u32)
        requires
            self.wf(),
        ensures
            id < self.bounties@.len() ==> r == count_claims(self.bounty_claimers@, id as int),
            id >= self.bounties@.len() ==> r == 0,
    {
        if id < self.bounty_claims_count.len() as u64 {
            self.bounty_claims_count[id as usize]
        } else {
            0
        }
    }

    /// The open claims of this account, in the order they were made.
    pub fn get_bounty_claims(&self, account_id: &AccountId) -> (r: Vec<BountyClaim>)
        ensures
            r@ == self.bounty_claimers@.filter(|c: (AccountId, BountyClaim)| c.0@ == account_id@).map_values(
                |c: (AccountId, BountyClaim)| c.1,
            ),
    {
        let ghost f = |c: (AccountId, BountyClaim)| c.0@ == account_id@;
        let ghost g = |c: (AccountId, BountyClaim)| c.1;
        let mut out: Vec<BountyClaim> = Vec::new();
        let mut i: usize = 0;
        while i < self.bounty_claimers.len()
            invariant
                i <= self.bounty_claimers.len(),
                out@ == self.bounty_claimers@.subrange(0, i as int).filter(f).map_values(g),
                forall|c: (AccountId, BountyClaim)| #[trigger] f(c) == (c.0@ == account_id@),
                forall|c: (AccountId, BountyClaim)| #[trigger] g(c) == c.1,
            decreases self.bounty_claimers.len() - i,
        {
            let ghost pre = self.bounty_claimers@.subrange(0, i as int);
            proof {
                let post = self.bounty_claimers@.subrange(0, i + 1);
                assert(post.drop_last() == pre);
            }
            if self.bounty_claimers[i].0 == *account_id {
                out.push(self.bounty_claimers[i].1);
                proof {
                    let post = self.bounty_claimers@.subrange(0, i + 1);
                    reveal(Seq::filter);
                    assert(post.last() == self.bounty_claimers@[i as int]);
                    assert(f(post.last()));
                    assert(post.filter(f) == pre.filter(f).push(post.last()));
                    assert(out@ =~= post.filter(f).map_values(g));
                }
            } else {
                proof {
                    let post = self.bounty_claimers@.subrange(0, i + 1);
                    reveal(Seq::filter);
                    assert(post.last() == self.bounty_claimers@[i as int]);
                    assert(!f(post.last()));
                    assert(post.filter(f) == pre.filter(f));
                }
            }
            i = i + 1;
        }
        assert(self.bounty_claimers@.subrange(0, self.bounty_claimers@.len() as int) == self.bounty_claimers@);
        out
    }

    /// The staking contract, if set.
    pub fn get_staking_contract(&self) -> (r: Option<&AccountId>)
        ensures
            r is Some == self.staking_id is Some,
            r is Some ==> *r->Some_0 == self.staking_id->Some_0,
    {
        match &self.staking_id {
            Some(s) => Some(s),
            None => None,
        }
    }

    /// The current policy.
    pub fn get_policy(&self) -> (r: &Policy)
        ensures
            *r == self.policy,
    {
        &self.policy
    }

    /// The current config.
    pub fn get_config(&self) -> (r: &Config)
        ensures
            *r == self.config,
    {
        &self.config
    }

    /// Hands the queued effects to the host, leaving the queue empty.
    pub fn take_effects(&mut self) -> (r: Vec<Effect>)
        ensures
            r@ == old(self).effects@,
            final(self).effects@.len() == 0,
            final(self).config == old(self).config,
            final(self).policy == old(self).policy,
            final(self).staking_id == old(self).staking_id,
            final(self).total_delegation_amount == old(self).total_delegation_amount,
            final(self).proposals == old(self).proposals,
            final(self).bounties == old(self).bounties,
            final(self).bounty_claims_count == old(self).bounty_claims_count,
            final(self).bounty_claimers == old(self).bounty_claimers,
    {
        let mut out: Vec<Effect> = Vec::new();
        std::mem::swap(&mut out, &mut self.effects);
        out
    }
}

} // verus!
