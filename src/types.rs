use vstd::prelude::*;

verus! {

/// Account identifier: an opaque string.
pub type AccountId = String;

/// Token amounts.
pub type Balance = u128;

/// What a caller asks to do with a proposal; its label is the right-hand side
/// of a permission string.
#[derive(Clone, Copy, PartialEq, Eq, Debug, Structural)]
pub enum Action {
    AddProposal,
    AddCounterProposal,
    VoteApprove,
    VoteReject,
    VoteRemove,
    WithdrawProposal,
    RemoveProposal,
    Finalize,
    AmendProposal,
}

impl Action {
    pub open spec fn label(self) -> Seq<char> {
        match self {
            Action::AddProposal => "AddProposal"@,
            Action::AddCounterProposal => "AddCounterProposal"@,
            Action::VoteApprove => "VoteApprove"@,
            Action::VoteReject => "VoteReject"@,
            Action::VoteRemove => "VoteRemove"@,
            Action::WithdrawProposal => "WithdrawProposal"@,
            Action::RemoveProposal => "RemoveProposal"@,
            Action::Finalize => "Finalize"@,
            Action::AmendProposal => "AmendProposal"@,
        }
    }

    /// Textual name of the action, as used in permission strings.
    pub fn to_label(&self) -> (r: &'static str)
        ensures
            r@ == self.label(),
    {
        match self {
            Action::AddProposal => "AddProposal",
            Action::AddCounterProposal => "AddCounterProposal",
            Action::VoteApprove => "VoteApprove",
            Action::VoteReject => "VoteReject",
            Action::VoteRemove => "VoteRemove",
            Action::WithdrawProposal => "WithdrawProposal",
            Action::RemoveProposal => "RemoveProposal",
            Action::Finalize => "Finalize",
            Action::AmendProposal => "AmendProposal",
        }
    }
}


/// Reasons an operation is refused. Every operation is atomic: when one of
/// these comes back, the state is as it was before the call.
#[derive(Clone, Copy, PartialEq, Eq, Debug, Structural)]
pub enum DaoError {
    NoProposal,
    NoProposalVersion,
    ProposalNotInProgress,
    ProposalNotExpired,
    PermissionDenied,
    MinBond,
    EmptyInstructionSet,
    InvalidInstructionSet,
    StakingContractCantChange,
    InvalidStakingChange,
    DifferentProposalKind,
    VotingBegun,
    UnauthorizedWithdraw,
    UnauthorizedAmend,
    AlreadyVoted,
    AlreadyRemoved,
    ProposalRemoved,
    NoBounty,
    NoBountyClaims,
    NoBountyClaim,
    BountyWrongBond,
    BountyAllClaimed,
    BountyWrongDeadline,
    BountyClaimCompleted,
    BountyDoneMustBeSelf,
    UnsupportedRole,
    /// A tally would no longer fit in a `u128`.
    BalanceOverflow,
    /// A proposal already holds the most versions a `u8` can number.
    TooManyVersions,
}

impl DaoError {
    /// The canonical error tag.
    pub fn as_str(&self) -> &'static str {
        match self {
            DaoError::NoProposal => "ERR_NO_PROPOSAL",
            DaoError::NoProposalVersion => "ERR_NO_PROPOSAL_VERSION",
            DaoError::ProposalNotInProgress => "ERR_PROPOSAL_NOT_IN_PROGRESS",
            DaoError::ProposalNotExpired => "ERR_PROPOSAL_NOT_EXPIRED",
            DaoError::PermissionDenied => "ERR_PERMISSION_DENIED",
            DaoError::MinBond => "ERR_MIN_BOND",
            DaoError::EmptyInstructionSet => "ERR_EMPTY_INSTRUCTION_SET",
            DaoError::InvalidInstructionSet => "ERR_INVALID_INSTRUCTION_SET",
            DaoError::StakingContractCantChange => "ERR_STAKING_CONTRACT_CANT_CHANGE",
            DaoError::InvalidStakingChange => "ERR_INVALID_STAKING_CHANGE",
            DaoError::DifferentProposalKind => "ERR_DIFFERENT_PROPOSAL_KIND",
            DaoError::VotingBegun => "ERR_VOTING_BEGUN",
            DaoError::UnauthorizedWithdraw => "ERR_UNAUTHORIZED_WITHDRAW",
            DaoError::UnauthorizedAmend => "ERR_UNAUTHORIZED_AMEND",
            DaoError::AlreadyVoted => "ERR_ALREADY_VOTED",
            DaoError::AlreadyRemoved => "ERR_ALREADY_REMOVED",
            DaoError::ProposalRemoved => "ERR_PROPOSAL_REMOVED",
            DaoError::NoBounty => "ERR_NO_BOUNTY",
            DaoError::NoBountyClaims => "ERR_NO_BOUNTY_CLAIMS",
            DaoError::NoBountyClaim => "ERR_NO_BOUNTY_CLAIM",
            DaoError::BountyWrongBond => "ERR_BOUNTY_WRONG_BOND",
            DaoError::BountyAllClaimed => "ERR_BOUNTY_ALL_CLAIMED",
            DaoError::BountyWrongDeadline => "ERR_BOUNTY_WRONG_DEADLINE",
            DaoError::BountyClaimCompleted => "ERR_BOUNTY_CLAIM_COMPLETED",
            DaoError::BountyDoneMustBeSelf => "ERR_BOUNTY_DONE_MUST_BE_SELF",
            DaoError::UnsupportedRole => "ERR_UNSUPPORTED_ROLE",
            DaoError::BalanceOverflow => "ERR_BALANCE_OVERFLOW",
            DaoError::TooManyVersions => "ERR_TOO_MANY_VERSIONS",
        }
    }
}

/// What the host tells an operation about the request being handled.
pub struct Context {
    /// The account that made the call.
    pub predecessor_account_id: AccountId,
    /// Deposit attached to the call.
    pub attached_deposit: Balance,
    /// Block time, in nanoseconds.
    pub block_timestamp: u64,
    /// Voting weight of the caller, read from the weight oracle.
    pub user_weight: Balance,
}

/// Name, purpose and metadata of the DAO.
#[derive(Clone, Debug, PartialEq)]
pub struct Config {
    pub name: String,
    pub purpose: String,
    pub metadata: Vec<u8>,
}

impl Config {
    /// Equal configs, with the metadata compared as a sequence.
    pub open spec fn same_as(self, o: Config) -> bool {
        &&& self.name == o.name
        &&& self.purpose == o.purpose
        &&& self.metadata@ == o.metadata@
    }

    pub fn copy(&self) -> (r: Config)
        ensures
            r.same_as(*self),
    {
        let mut metadata: Vec<u8> = Vec::new();
        let mut i: usize = 0;
        while i < self.metadata.len()
            invariant
                i <= self.metadata.len(),
                metadata@ == self.metadata@.subrange(0, i as int),
            decreases self.metadata.len() - i,
        {
            metadata.push(self.metadata[i]);
            assert(metadata@ == self.metadata@.subrange(0, i + 1));
            i = i + 1;
        }
        assert(self.metadata@.subrange(0, self.metadata@.len() as int) == self.metadata@);
        Config { name: self.name.clone(), purpose: self.purpose.clone(), metadata }
    }
}

/// The native-token sentinel: a token id that is the empty string.
pub open spec fn is_base_token(token: Seq<char>) -> bool {
    token.len() == 0
}

} // verus!
