//! Properties that hold across operations, proved from the contracts.
use vstd::prelude::*;

use crate::bounties::{lemma_claim_pos_range, BountyClaim};
use crate::contract::{claim_pos, count_claims, Contract, Effect};
use crate::policy::{Policy, VotePolicy, WeightKind};
use crate::proposals::{lemma_tally_push, lemma_tally_update, tally, ProposalStatus, Vote};
use crate::types::{AccountId, Context, DaoError};

verus! {

/// In a well-formed state every proposal has one approval tally, one removal
/// tally and one removal flag per version.
pub proof fn per_version_arrays_agree(c: Contract, id: u64)
    requires
        c.wf(),
        c.proposal(id) is Some,
    ensures
        ({
            let p = c.proposal(id)->Some_0;
            &&& p.approve_count@.len() == p.versions@.len()
            &&& p.remove_count@.len() == p.versions@.len()
            &&& p.remove_flag@.len() == p.versions@.len()
        }),
{
    assert(c.proposals@[id as int] is Some);
}

/// In a well-formed state the claim count of every bounty equals the number of
/// open claims on it, over all claimers.
pub proof fn claim_count_matches_claims(c: Contract, b: u64)
    requires
        c.wf(),
        b < c.bounties@.len(),
    ensures
        c.bounty_claims_count@[b as int] == count_claims(c.bounty_claimers@, b as int),
{
}

/// A vote on a proposal whose status is terminal is refused and changes
/// nothing: its tallies and status stay as they were.
pub proof fn settled_proposal_ignores_votes(old: Contract, new: Contract, r: Result<(), DaoError>, ctx: Context, id: u64, choice: int)
    requires
        old.vote_outcome(new, r, ctx, id, choice),
        old.proposal(id) is Some,
        old.proposal(id)->Some_0.status != ProposalStatus::InProgress,
    ensures
        r is Err,
        new.proposal(id) == old.proposal(id),
{
}

/// Once a vote approves or rejects a proposal, the bond has been queued for
/// refund to the proposer of every version, once each, in version order,
/// right after the effects queued before.
pub proof fn settled_vote_refunds_every_proposer(
    old: Contract,
    new: Contract,
    r: Result<(), DaoError>,
    ctx: Context,
    id: u64,
    choice: int,
)
    requires
        old.vote_outcome(new, r, ctx, id, choice),
        r is Ok,
        new.proposal(id)->Some_0.status is Approved || new.proposal(id)->Some_0.status == ProposalStatus::Rejected,
    ensures
        ({
            let p = old.proposal(id)->Some_0;
            let n = old.effects@.len();
            let m = p.versions@.len();
            &&& new.effects@.len() >= n + m
            &&& new.effects@.subrange(0, n as int) == old.effects@
            &&& forall|k: int|
                0 <= k < m ==> #[trigger] new.effects@[n + k] == (Effect::Transfer {
                    receiver_id: p.versions@[k].proposer,
                    amount: old.policy.proposal_bond,
                })
        }),
{
    let p = old.proposal(id)->Some_0;
    let n = old.effects@.len();
    let m = p.versions@.len();
    let refund = new.effects@.subrange(n as int, (n + m) as int);
    assert forall|k: int| 0 <= k < m implies #[trigger] new.effects@[n + k] == (Effect::Transfer {
        receiver_id: p.versions@[k].proposer,
        amount: old.policy.proposal_bond,
    }) by {
        assert(new.effects@[n + k] == refund[k]);
    }
}

/// Each account holds at most one ballot, and its weight counts in the slot of
/// its choice and in no other: taking the ballot out lowers that slot by its
/// weight and leaves every other slot as it is.
pub proof fn ballot_counts_in_one_slot(votes: Seq<(AccountId, Vote)>, k: int, c: int)
    requires
        crate::proposals::voters_distinct(votes),
        0 <= k < votes.len(),
    ensures
        forall|j: int| 0 <= j < votes.len() && j != k ==> (#[trigger] votes[j]).0@ != votes[k].0@,
        tally(votes, c) == tally(votes.remove(k), c) + if votes[k].1.choice == c { votes[k].1.weight as int } else { 0 },
{
    lemma_tally_remove(votes, k, c);
}

proof fn lemma_tally_remove(s: Seq<(AccountId, Vote)>, k: int, c: int)
    requires
        0 <= k < s.len(),
    ensures
        tally(s, c) == tally(s.remove(k), c) + if s[k].1.choice == c { s[k].1.weight as int } else { 0 },
    decreases s.len(),
{
    if k == s.len() - 1 {
        assert(s.remove(k) == s.drop_last());
    } else {
        let d = s.drop_last();
        lemma_tally_remove(d, k, c);
        assert(s.remove(k) == d.remove(k).push(s.last()));
        lemma_tally_push(d.remove(k), s.last(), c);
    }
}

/// Switching a ballot moves its weight cleanly: the old slot loses the old
/// weight, the new slot gains the new weight, and other slots are unchanged.
pub proof fn switching_ballot_moves_weight(votes: Seq<(AccountId, Vote)>, k: int, vote: Vote, c: int)
    requires
        0 <= k < votes.len(),
    ensures
        tally(votes.update(k, (votes[k].0, vote)), c) == tally(votes, c) - (if votes[k].1.choice == c {
            votes[k].1.weight as int
        } else {
            0
        }) + (if vote.choice == c { vote.weight as int } else { 0 }),
{
    lemma_tally_update(votes, k, (votes[k].0, vote), c);
}

/// Under token weight with a ratio threshold, the threshold never decreases as
/// the total supply grows, and it is never below the quorum.
pub proof fn threshold_monotone_in_supply(policy: Policy, vp: VotePolicy, kind: Seq<char>, t1: int, t2: int)
    requires
        vp.weight_kind == WeightKind::TokenWeight,
        vp.threshold is Ratio,
        vp.threshold.wf(),
        0 <= t1 <= t2,
    ensures
        policy.threshold_for(vp, t1, kind) <= policy.threshold_for(vp, t2, kind),
        policy.threshold_for(vp, t1, kind) >= vp.quorum,
{
    let n = vp.threshold->Ratio_0 as int;
    let d = vp.threshold->Ratio_1 as int;
    assert(n * t1 <= n * t2) by (nonlinear_arith)
        requires
            0 <= n,
            t1 <= t2,
    ;
    vstd::arithmetic::div_mod::lemma_div_is_ordered(n * t1, n * t2, d);
}

/// Claiming a bounty and then giving it up within the forgiveness period
/// gives the claim count back its earlier value. When the caller held no
/// earlier claim on that bounty, the claims are as before and exactly the
/// bounty bond is refunded.
pub proof fn claim_then_giveup_restores(s0: Contract, s1: Contract, s2: Contract, ctx: Context, later: Context, id: u64, deadline: u64)
    requires
        s0.wf(),
        id < s0.bounties@.len(),
        s1.claimed_from(s0, ctx, id, deadline),
        s2.gave_up_from(s1, later, id),
        later.predecessor_account_id == ctx.predecessor_account_id,
        ctx.block_timestamp <= later.block_timestamp <= ctx.block_timestamp + s0.policy.bounty_forgiveness_period,
    ensures
        s2.bounty_claims_count@ == s0.bounty_claims_count@,
        claim_pos(s0.bounty_claimers@, ctx.predecessor_account_id@, id, 0) < 0 ==> s2.bounty_claimers@ == s0.bounty_claimers@
            && s2.effects@ == s0.effects@.push(Effect::Transfer { receiver_id: ctx.predecessor_account_id, amount: s0.policy.bounty_bond }),
{
    let who = ctx.predecessor_account_id@;
    let added = (ctx.predecessor_account_id, BountyClaim { bounty_id: id, start_time: ctx.block_timestamp, deadline, completed: false });
    let k = claim_pos(s1.bounty_claimers@, who, id, 0);
    lemma_claim_pos_range(s1.bounty_claimers@, who, id, 0);
    lemma_claim_pos_push(s0.bounty_claimers@, added, who, id, 0);
    assert(s2.bounty_claims_count@ =~= s0.bounty_claims_count@);
    if claim_pos(s0.bounty_claimers@, who, id, 0) < 0 {
        assert(k == s0.bounty_claimers@.len());
        assert(s1.bounty_claimers@.remove(k) =~= s0.bounty_claimers@);
    }
}

proof fn lemma_claim_pos_push(s: Seq<(AccountId, BountyClaim)>, x: (AccountId, BountyClaim), who: Seq<char>, id: u64, from: int)
    requires
        0 <= from <= s.len(),
        x.0@ == who,
        x.1.bounty_id == id,
    ensures
        claim_pos(s, who, id, from) >= 0 ==> claim_pos(s.push(x), who, id, from) == claim_pos(s, who, id, from),
        claim_pos(s, who, id, from) < 0 ==> claim_pos(s.push(x), who, id, from) == s.len(),
    decreases s.len() - from,
{
    let t = s.push(x);
    if from < s.len() {
        assert(t[from] == s[from]);
        if !(s[from].0@ == who && s[from].1.bounty_id == id) {
            lemma_claim_pos_push(s, x, who, id, from + 1);
        }
    } else {
        assert(t[from] == x);
    }
}

} // verus!
