use vstd::prelude::*;

use crate::contract::{claim_pos, count_claims, has_claims, is_payout, lemma_count_pos, lemma_count_push, lemma_count_remove, Contract, Effect};
use crate::proposals::{Instruction, ProposalStatus};
use crate::types::{AccountId, Action, Balance, Context, DaoError};

verus! {

/// A claim that an account holds on a bounty.
#[derive(Clone, Copy, PartialEq, Eq, Debug, Structural)]
pub struct BountyClaim {
    /// Bounty id that was claimed.
    pub bounty_id: u64,
    /// Start time of the claim.
    pub start_time: u64,
    /// Duration, from the start, that the claimer gave themselves.
    pub deadline: u64,
    /// Whether the work was reported done.
    pub completed: bool,
}

/// A reward posted by the DAO.
#[derive(Clone, Debug, PartialEq)]
pub struct Bounty {
    /// Description of the bounty.
    pub description: String,
    /// Token the bounty is paid in; the empty string is the native token.
    pub token: AccountId,
    /// Amount paid out for each completion.
    pub amount: Balance,
    /// How many more times this bounty can be paid out.
    pub times: u32,
    /// Longest deadline a claimer may give themselves.
    pub max_deadline: u64,
}

/// A bounty as kept in storage, one variant per schema version.
#[derive(Clone, Debug)]
pub enum VersionedBounty {
    Default(Bounty),
}

impl Bounty {
    /// A field-by-field copy.
    pub fn copy(&self) -> (r: Bounty)
        ensures
            r == *self,
    {
        Bounty {
            description: self.description.clone(),
            token: self.token.clone(),
            amount: self.amount,
            times: self.times,
            max_deadline: self.max_deadline,
        }
    }
}

impl From<VersionedBounty> for Bounty {
    fn from(v: VersionedBounty) -> (r: Bounty) {
        match v {
            VersionedBounty::Default(b) => b,
        }
    }
}

impl vstd::std_specs::convert::FromSpecImpl<VersionedBounty> for Bounty {
    open spec fn obeys_from_spec() -> bool {
        true
    }

    open spec fn from_spec(v: VersionedBounty) -> Bounty {
        match v {
            VersionedBounty::Default(b) => b,
        }
    }
}


pub(crate) proof fn lemma_claim_pos_range(claims: Seq<(AccountId, BountyClaim)>, account: Seq<char>, b: u64, from: int)
    requires
        0 <= from,
    ensures
        claim_pos(claims, account, b, from) == -1 || (from <= claim_pos(claims, account, b, from) < claims.len()),
        claim_pos(claims, account, b, from) >= 0 ==> claims[claim_pos(claims, account, b, from)].0@ == account
            && claims[claim_pos(claims, account, b, from)].1.bounty_id == b,
    decreases claims.len() - from,
{
    if from < claims.len() && !(claims[from].0@ == account && claims[from].1.bounty_id == b) {
        lemma_claim_pos_range(claims, account, b, from + 1);
    }
}

impl Contract {
    /// `self` is `old` after the caller claimed bounty `id` with this deadline:
    /// one more claim counted, and the claim appended, started now.
    pub open spec fn claimed_from(self, old: Contract, ctx: Context, id: u64, deadline: u64) -> bool {
        &&& old.bounty(id) is Some
        &&& old.bounty_claims_count@[id as int] < old.bounty(id)->Some_0.times
        &&& self.bounty_claims_count@ == old.bounty_claims_count@.update(id as int, (old.bounty_claims_count@[id as int] + 1) as u32)
        &&& self.bounty_claimers@ == old.bounty_claimers@.push(
            (ctx.predecessor_account_id, BountyClaim { bounty_id: id, start_time: ctx.block_timestamp, deadline, completed: false }),
        )
        &&& self.bounties == old.bounties
        &&& self.same_governance(old)
        &&& self.effects == old.effects
    }

    /// `self` is `old` after the caller gave up their claim on bounty `id`:
    /// the claim removed and its slot freed; the bounty bond refunded when
    /// within the forgiveness period of the claim's start.
    pub open spec fn gave_up_from(self, old: Contract, ctx: Context, id: u64) -> bool {
        let k = claim_pos(old.bounty_claimers@, ctx.predecessor_account_id@, id, 0);
        let start = old.bounty_claimers@[k].1.start_time;
        let b = id as int;
        &&& self.bounty_claimers@ == old.bounty_claimers@.remove(k)
        &&& self.bounty_claims_count@ == old.bounty_claims_count@.update(b, (old.bounty_claims_count@[b] - 1) as u32)
        &&& self.bounties == old.bounties
        &&& self.same_governance(old)
        &&& ctx.block_timestamp - start <= old.policy.bounty_forgiveness_period ==> self.effects@ == old.effects@.push(
            Effect::Transfer { receiver_id: ctx.predecessor_account_id, amount: old.policy.bounty_bond },
        )
        &&& ctx.block_timestamp - start > old.policy.bounty_forgiveness_period ==> self.effects == old.effects
    }

    /// Registers a bounty and returns its id; it starts with no claims.
    pub fn internal_add_bounty(&mut self, bounty: &Bounty) -> (r: u64)
        requires
            old(self).wf(),
        ensures
            final(self).wf(),
            r == old(self).bounties@.len(),
            final(self).bounties@ == old(self).bounties@.push(Some(*bounty)),
            final(self).bounty_claims_count@ == old(self).bounty_claims_count@.push(0),
            final(self).bounty_claimers == old(self).bounty_claimers,
            final(self).same_governance(*old(self)),
            final(self).effects == old(self).effects,
    {
        let id = self.bounties.len() as u64;
        self.bounties.push(Some(bounty.copy()));
        self.bounty_claims_count.push(0);
        proof {
            let n = old(self).bounties@.len() as int;
            assert(count_claims(self.bounty_claimers@, n) == 0) by {
                lemma_no_claims_beyond(self.bounty_claimers@, n);
            }
            assert(self.bounty_claims_count@[n] == 0);
        }
        id
    }

    /// Position of the first claim of `account_id` on bounty `bounty_id`, if any.
    pub fn internal_find_claim(&self, bounty_id: u64, account_id: &AccountId) -> (r: Option<usize>)
        ensures
            r is None == (claim_pos(self.bounty_claimers@, account_id@, bounty_id, 0) < 0),
            r is Some ==> r->Some_0 == claim_pos(self.bounty_claimers@, account_id@, bounty_id, 0),
    {
        let mut i: usize = 0;
        while i < self.bounty_claimers.len()
            invariant
                i <= self.bounty_claimers.len(),
                claim_pos(self.bounty_claimers@, account_id@, bounty_id, 0) == claim_pos(
                    self.bounty_claimers@,
                    account_id@,
                    bounty_id,
                    i as int,
                ),
            decreases self.bounty_claimers.len() - i,
        {
            if self.bounty_claimers[i].1.bounty_id == bounty_id && self.bounty_claimers[i].0 == *account_id {
                return Some(i);
            }
            i = i + 1;
        }
        None
    }

    /// Position of the claim of `sender_id` on bounty `id`; fails when the
    /// account holds no claims, or none on this bounty.
    pub fn internal_get_claims(&self, id: u64, sender_id: &AccountId) -> (r: Result<usize, DaoError>)
        ensures
            self.claim_error(sender_id@, id) is Some ==> r == Err::<usize, DaoError>(self.claim_error(sender_id@, id)->Some_0),
            self.claim_error(sender_id@, id) is None ==> r is Ok && r->Ok_0 == claim_pos(self.bounty_claimers@, sender_id@, id, 0),
            r is Ok ==> r->Ok_0 < self.bounty_claimers@.len() && self.bounty_claimers@[r->Ok_0 as int].0@ == sender_id@
                && self.bounty_claimers@[r->Ok_0 as int].1.bounty_id == id,
    {
        proof {
            lemma_claim_pos_range(self.bounty_claimers@, sender_id@, id, 0);
        }
        let mut any = false;
        let mut i: usize = 0;
        while i < self.bounty_claimers.len()
            invariant
                i <= self.bounty_claimers.len(),
                any ==> has_claims(self.bounty_claimers@, sender_id@),
                !any ==> forall|k: int| 0 <= k < i ==> (#[trigger] self.bounty_claimers@[k]).0@ != sender_id@,
            decreases self.bounty_claimers.len() - i,
        {
            if self.bounty_claimers[i].0 == *sender_id {
                any = true;
            }
            i = i + 1;
        }
        if !any {
            return Err(DaoError::NoBountyClaims);
        }
        match self.internal_find_claim(id, sender_id) {
            Some(k) => Ok(k),
            None => Err(DaoError::NoBountyClaim),
        }
    }

    /// Removes the claim at position `k` and frees its slot on the bounty.
    pub fn internal_remove_claim(&mut self, k: usize)
        requires
            old(self).wf(),
            k < old(self).bounty_claimers@.len(),
        ensures
            final(self).wf(),
            final(self).bounty_claimers@ == old(self).bounty_claimers@.remove(k as int),
            ({
                let b = old(self).bounty_claimers@[k as int].1.bounty_id as int;
                &&& 0 <= b < old(self).bounties@.len()
                &&& old(self).bounties@[b] is Some
                &&& old(self).bounty_claims_count@[b] >= 1
                &&& final(self).bounty_claims_count@ == old(self).bounty_claims_count@.update(b, (old(self).bounty_claims_count@[b] - 1) as u32)
            }),
            final(self).bounties == old(self).bounties,
            final(self).same_governance(*old(self)),
            final(self).effects == old(self).effects,
    {
        let b = self.bounty_claimers[k].1.bounty_id;
        proof {
            lemma_count_pos(self.bounty_claimers@, k as int);
            assert(self.bounty_claimers@[k as int].1.bounty_id < self.bounties@.len());
            assert(self.bounty_claims_count@[b as int] == count_claims(self.bounty_claimers@, b as int));
            if self.bounties@[b as int] is None {
                assert(self.bounty_claims_count@[b as int] == 0);
            }
        }
        assert(b < self.bounty_claims_count.len());
        let count = self.bounty_claims_count[b as usize];
        assert(count == self.bounty_claims_count@[b as int]);
        self.bounty_claims_count.set(b as usize, count - 1);
        self.bounty_claimers.remove(k);
        proof {
            assert forall|c: int| 0 <= c < self.bounties@.len() implies #[trigger] self.bounty_claims_count@[c] == count_claims(self.bounty_claimers@, c) by {
                lemma_count_remove(old(self).bounty_claimers@, k as int, c);
            }
            assert forall|j: int| 0 <= j < self.bounty_claimers@.len() implies (#[trigger] self.bounty_claimers@[j]).1.bounty_id < self.bounties@.len() by {
                if j < k {
                    assert(self.bounty_claimers@[j] == old(self).bounty_claimers@[j]);
                } else {
                    assert(self.bounty_claimers@[j] == old(self).bounty_claimers@[j + 1]);
                }
            }
        }
    }

    /// Settles the claim of `receiver_id` on bounty `id`: the claim is
    /// removed and, on success, the bounty amount is paid to the receiver and
    /// the bounty has one payout less, leaving when none is left.
    pub fn internal_execute_bounty_payout(&mut self, id: u64, receiver_id: &AccountId, success: bool) -> (r: Result<(), DaoError>)
        requires
            old(self).wf(),
        ensures
            final(self).wf(),
            final(self).same_governance(*old(self)),
            old(self).bounty(id) is None ==> r == Err::<(), DaoError>(DaoError::NoBounty),
            old(self).bounty(id) is Some && old(self).claim_error(receiver_id@, id) is Some ==> r == Err::<(), DaoError>(
                old(self).claim_error(receiver_id@, id)->Some_0,
            ),
            r is Err ==> *final(self) == *old(self),
            r is Ok == (old(self).bounty(id) is Some && old(self).claim_error(receiver_id@, id) is None),
            r is Ok ==> ({
                let k = claim_pos(old(self).bounty_claimers@, receiver_id@, id, 0);
                let b = old(self).bounty(id)->Some_0;
                &&& final(self).bounty_claimers@ == old(self).bounty_claimers@.remove(k)
                &&& !success ==> final(self).bounties == old(self).bounties && final(self).effects == old(self).effects
                &&& success ==> final(self).effects@ == old(self).effects@.push(final(self).effects@.last())
                    && is_payout(final(self).effects@.last(), b.token@, receiver_id@, b.amount)
                &&& success && b.times <= 1 ==> final(self).bounties@ == old(self).bounties@.update(id as int, None)
                &&& success && b.times > 1 ==> final(self).bounties@ == old(self).bounties@.update(
                    id as int,
                    Some(Bounty { times: (b.times - 1) as u32, ..b }),
                )
            }),
    {
        if id >= self.bounties.len() as u64 || self.bounties[id as usize].is_none() {
            return Err(DaoError::NoBounty);
        }
        let k = match self.internal_get_claims(id, receiver_id) {
            Ok(k) => k,
            Err(e) => return Err(e),
        };
        let ghost before = *self;
        self.internal_remove_claim(k);
        if success {
            let ghost mid = *self;
            let (token, amount, times) = match &self.bounties[id as usize] {
                Some(b) => (b.token.clone(), b.amount, b.times),
                None => {
                    assert(false);
                    return Err(DaoError::NoBounty);
                },
            };
            self.internal_payout(&token, receiver_id, amount);
            proof {
                assert(self.effects@ == old(self).effects@.push(self.effects@.last()));
            }
            let ghost after_pay = *self;
            if times <= 1 {
                self.bounties.set(id as usize, None);
                proof {
                    // the claim just removed was the last one on this bounty
                    assert(before.bounty_claims_count@[id as int] <= times);
                    assert(mid.bounty_claims_count@[id as int] == before.bounty_claims_count@[id as int] - 1);
                    assert(self.bounty_claims_count@[id as int] == 0);
                }
            } else {
                let nb = match &self.bounties[id as usize] {
                    Some(b) => Bounty {
                        description: b.description.clone(),
                        token: b.token.clone(),
                        amount: b.amount,
                        times: b.times - 1,
                        max_deadline: b.max_deadline,
                    },
                    None => {
                        assert(false);
                        return Err(DaoError::NoBounty);
                    },
                };
                self.bounties.set(id as usize, Some(nb));
            }
            proof {
                assert(before.bounty_claims_count@[id as int] <= times);
                assert(mid.bounty_claims_count@[id as int] == before.bounty_claims_count@[id as int] - 1);
                assert forall|c: int| 0 <= c < self.bounties@.len() && (#[trigger] self.bounties@[c]) is Some implies self.bounty_claims_count@[c] <= self.bounties@[c]->Some_0.times by {
                    if c != id {
                        assert(self.bounties@[c] == after_pay.bounties@[c]);
                    }
                }
                assert forall|c: int| 0 <= c < self.bounties@.len() && (#[trigger] self.bounties@[c]) is None implies self.bounty_claims_count@[c] == 0 by {
                    if c != id {
                        assert(self.bounties@[c] == after_pay.bounties@[c]);
                    }
                }
            }
        }
        Ok(())
    }

    /// Claims bounty `id` for the caller, who gives themselves `deadline`
    /// nanoseconds. The caller attaches exactly the bounty bond.
    pub fn bounty_claim(&mut self, ctx: &Context, id: u64, deadline: u64) -> (r: Result<(), DaoError>)
        requires
            old(self).wf(),
        ensures
            final(self).wf(),
            ({
                let b = old(self).bounty(id);
                let e = if b is None {
                    Some(DaoError::NoBounty)
                } else if ctx.attached_deposit != old(self).policy.bounty_bond {
                    Some(DaoError::BountyWrongBond)
                } else if old(self).bounty_claims_count@[id as int] >= b->Some_0.times {
                    Some(DaoError::BountyAllClaimed)
                } else if deadline > b->Some_0.max_deadline {
                    Some(DaoError::BountyWrongDeadline)
                } else {
                    None::<DaoError>
                };
                &&& e is Some ==> r == Err::<(), DaoError>(e->Some_0) && *final(self) == *old(self)
                &&& e is None ==> r is Ok && final(self).claimed_from(*old(self), *ctx, id, deadline)
            }),
    {
        if id >= self.bounties.len() as u64 {
            return Err(DaoError::NoBounty);
        }
        let (times, max_deadline) = match &self.bounties[id as usize] {
            Some(b) => (b.times, b.max_deadline),
            None => return Err(DaoError::NoBounty),
        };
        if ctx.attached_deposit != self.policy.bounty_bond {
            return Err(DaoError::BountyWrongBond);
        }
        let count = self.bounty_claims_count[id as usize];
        if count >= times {
            return Err(DaoError::BountyAllClaimed);
        }
        if deadline > max_deadline {
            return Err(DaoError::BountyWrongDeadline);
        }
        self.bounty_claims_count.set(id as usize, count + 1);
        let claim = BountyClaim { bounty_id: id, start_time: ctx.block_timestamp, deadline, completed: false };
        self.bounty_claimers.push((ctx.predecessor_account_id.clone(), claim));
        proof {
            assert forall|c: int| 0 <= c < self.bounties@.len() implies #[trigger] self.bounty_claims_count@[c] == count_claims(self.bounty_claimers@, c) by {
                lemma_count_push(old(self).bounty_claimers@, (ctx.predecessor_account_id, claim), c);
            }
            assert forall|j: int| 0 <= j < self.bounty_claimers@.len() implies (#[trigger] self.bounty_claimers@[j]).1.bounty_id < self.bounties@.len() by {
                if j < old(self).bounty_claimers@.len() {
                    assert(self.bounty_claimers@[j] == old(self).bounty_claimers@[j]);
                }
            }
        }
        Ok(())
    }

    /// Gives up the caller's claim on bounty `id`. Within the forgiveness
    /// period after the claim the bounty bond is refunded; after it, it is kept.
    pub fn bounty_giveup(&mut self, ctx: &Context, id: u64) -> (r: Result<(), DaoError>)
        requires
            old(self).wf(),
        ensures
            final(self).wf(),
            old(self).claim_error(ctx.predecessor_account_id@, id) is Some ==> r == Err::<(), DaoError>(
                old(self).claim_error(ctx.predecessor_account_id@, id)->Some_0,
            ) && *final(self) == *old(self),
            old(self).claim_error(ctx.predecessor_account_id@, id) is None ==> r is Ok && final(self).gave_up_from(*old(self), *ctx, id),
    {
        let k = match self.internal_get_claims(id, &ctx.predecessor_account_id) {
            Ok(k) => k,
            Err(e) => return Err(e),
        };
        let start = self.bounty_claimers[k].1.start_time;
        if (ctx.block_timestamp as u128) <= (start as u128) + (self.policy.bounty_forgiveness_period as u128) {
            self.effects.push(Effect::Transfer { receiver_id: ctx.predecessor_account_id.clone(), amount: self.policy.bounty_bond });
        }
        self.internal_remove_claim(k);
        Ok(())
    }
}

impl Contract {
    /// Reports bounty `id` done for `account_id`, or for the caller when none
    /// is given. A claim past its deadline is released, by anyone. Otherwise only
    /// the claimer may report: a `BountyDone` proposal is filed on their behalf
    /// and the claim is marked completed.
    pub fn bounty_done(&mut self, ctx: &Context, id: u64, account_id: Option<AccountId>, description: String) -> (r: Result<(), DaoError>)
        requires
            old(self).wf(),
        ensures
            final(self).wf(),
            final(self).terminal_kept(*old(self)),
            ({
                let sender = match account_id {
                    Some(a) => a,
                    None => ctx.predecessor_account_id,
                };
                let k = claim_pos(old(self).bounty_claimers@, sender@, id, 0);
                let c = old(self).bounty_claimers@[k].1;
                let expired = ctx.block_timestamp > c.start_time + c.deadline;
                let instrs = seq![Instruction::BountyDone { bounty_id: id, receiver_id: sender }];
                let e = if old(self).claim_error(sender@, id) is Some {
                    old(self).claim_error(sender@, id)
                } else if c.completed {
                    Some(DaoError::BountyClaimCompleted)
                } else if expired {
                    None::<DaoError>
                } else if sender@ != ctx.predecessor_account_id@ {
                    Some(DaoError::BountyDoneMustBeSelf)
                } else {
                    old(self).check_error(*ctx, instrs, Action::AddProposal)
                };
                let np = final(self).proposals@.last()->Some_0;
                &&& e is Some ==> r == Err::<(), DaoError>(e->Some_0) && final(self).unchanged(*old(self))
                &&& e is None && expired ==> r is Ok
                    && final(self).bounty_claimers@ == old(self).bounty_claimers@.remove(k)
                    && final(self).bounties == old(self).bounties
                    && final(self).same_governance(*old(self))
                    && final(self).effects == old(self).effects
                &&& e is None && !expired ==> r is Ok
                    && final(self).bounty_claimers@ == old(self).bounty_claimers@.update(
                        k,
                        (sender, BountyClaim { completed: true, ..c }),
                    )
                    && final(self).bounty_claims_count == old(self).bounty_claims_count
                    && final(self).bounties == old(self).bounties
                    && final(self).proposals@.len() == old(self).proposals@.len() + 1
                    && final(self).proposals@.drop_last() == old(self).proposals@
                    && final(self).proposals@.last() is Some
                    && np.kind@ == old(self).policy.kind_of(instrs)
                    && np.versions@.len() == 1
                    && np.versions@[0].proposer == ctx.predecessor_account_id
                    && np.versions@[0].description == description
                    && np.versions@[0].instructions@ == instrs
                    && np.status == ProposalStatus::InProgress
                    && np.votes@.len() == 0
                    && final(self).total_delegation_amount == old(self).total_delegation_amount
                    && final(self).config == old(self).config
                    && final(self).policy == old(self).policy
                    && final(self).staking_id == old(self).staking_id
                    && final(self).effects == old(self).effects
            }),
    {
        let sender = match account_id {
            Some(a) => a,
            None => ctx.predecessor_account_id.clone(),
        };
        let k = match self.internal_get_claims(id, &sender) {
            Ok(k) => k,
            Err(e) => return Err(e),
        };
        let claim = self.bounty_claimers[k].1;
        if claim.completed {
            return Err(DaoError::BountyClaimCompleted);
        }
        if (ctx.block_timestamp as u128) > (claim.start_time as u128) + (claim.deadline as u128) {
            self.internal_remove_claim(k);
            return Ok(());
        }
        if sender != ctx.predecessor_account_id {
            return Err(DaoError::BountyDoneMustBeSelf);
        }
        let mut instructions: Vec<Instruction> = Vec::new();
        instructions.push(Instruction::BountyDone { bounty_id: id, receiver_id: sender.clone() });
        assert(instructions@ =~= seq![Instruction::BountyDone { bounty_id: id, receiver_id: sender }]);
        match self.propose(ctx, description, instructions) {
            Ok(_) => {},
            Err(e) => return Err(e),
        }
        let ghost before = *self;
        let done = BountyClaim { completed: true, ..claim };
        self.bounty_claimers.set(k, (sender, done));
        proof {
            assert forall|c: int| 0 <= c < self.bounties@.len() implies #[trigger] self.bounty_claims_count@[c] == count_claims(self.bounty_claimers@, c) by {
                crate::contract::lemma_count_update(before.bounty_claimers@, k as int, (sender, done), c);
            }
            assert forall|j: int| 0 <= j < self.bounty_claimers@.len() implies (#[trigger] self.bounty_claimers@[j]).1.bounty_id < self.bounties@.len() by {
                if j != k {
                    assert(self.bounty_claimers@[j] == before.bounty_claimers@[j]);
                }
            }
        }
        Ok(())
    }
}

proof fn lemma_no_claims_beyond(claims: Seq<(AccountId, BountyClaim)>, n: int)
    requires
        forall|k: int| 0 <= k < claims.len() ==> (#[trigger] claims[k]).1.bounty_id < n,
    ensures
        count_claims(claims, n) == 0,
    decreases claims.len(),
{
    if claims.len() > 0 {
        let d = claims.drop_last();
        assert forall|k: int| 0 <= k < d.len() implies (#[trigger] d[k]).1.bounty_id < n by {
            assert(d[k] == claims[k]);
        }
        lemma_no_claims_beyond(d, n);
        assert(claims.last() == claims[claims.len() - 1]);
    }
}

} // verus!
