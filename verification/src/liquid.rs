//! Liquid democracy: on each proposal a holder either votes directly, with a weight equal to
//! the token balance, or delegates that balance to an approved delegate, who votes with all
//! that was delegated. Never both.
use vstd::prelude::*;
use crate::ballot::{Choice, choice_of, parse_choice, sat_add, saturating_add_i128};
use crate::bytes::{lemma_append_new_name, opt_bytes, views};
use crate::delegates::{DelegateSet, MAX_DELEGATES_NUMBER, add_all, name_set, remove_all, set_of};
use crate::sums::{lemma_slice_finite, lemma_sum_congruent, lemma_sum_empty, lemma_sum_insert, lemma_sum_nonneg, sum_of};
use crate::table::Table;
use crate::ttl::{spec_ttl, ttl_fits, ttl_for};

verus! {

pub const MAX_PROPOSAL_DURATION: u64 = 1_296_000;
pub const MIN_PROPOSAL_DURATION: u64 = 432000;
pub const PROPOSALS_TTL_EXTENSION: u32 = 2_100_000;
pub const DELEGATES_TTL_EXTENSION: u32 = 2_100_000;
pub const USER_ACTION_TTL_EXTENSION: u32 = 1_600_000;

/// A proposal: the delegation deadline, the voting window and the three tallies.
pub struct LiquidBasedVoteProposalData {
    pub description: String,
    pub delegation_deadline: u64,
    pub start_time: u64,
    pub end_time: u64,
    pub total_for: i128,
    pub total_against: i128,
    pub total_abstain: i128,
}

/// A holder's delegation on one proposal: to whom, and how many tokens.
pub struct LiquidBasedVoteDelegationData {
    pub delegate: Vec<u8>,
    pub amount: i128,
}

impl View for LiquidBasedVoteDelegationData {
    type V = (Seq<u8>, i128);

    open spec fn view(&self) -> (Seq<u8>, i128) {
        (self.delegate@, self.amount)
    }
}

/// A line of the governance overview: `status` tells whether voting is open.
pub struct LiquidBasedVoteProposalSummary {
    pub id: Vec<u8>,
    pub description: String,
    pub status: bool,
}

/// What a user did on a proposal.
#[derive(Clone, Copy, Debug, Eq, PartialEq, Structural)]
pub enum LiquidBasedVoteActionStatus {
    NoAction,
    Voted,
    Delegated,
}

#[derive(Clone, Copy, Debug, Eq, PartialEq, Structural)]
pub enum LiquidBasedVoteContractErrors {
    ContractNotInitialized,
    ContractAlreadyInitialized,
    ProposalAlreadyExists,
    ProposalNotFound,
    UserAlreadyVoted,
    UserCannotVote,
    VotingNotActive,
    InvalidChoice,
    StartTimeAfterEnd,
    StartTimeInPast,
    DurationTooLong,
    DurationTooShort,
    DelegateLimitReached,
    DelegateNotFound,
    DelegateAlreadyVoted,
    NotDelegate,
    DelegationDeadlineEnded,
    DelegationDeadlineInPast,
    DelegationDeadlineAfterStart,
}

/// A proposal id together with an address.
pub type Slot = (Vec<u8>, Vec<u8>);

/// The abstract state. Per-proposal entries are keyed by (proposal id, address): direct votes
/// with their weight, delegations, the power gathered by each delegate, and each delegate's
/// choice once it voted.
#[verifier::ext_equal]
pub struct LiquidModel {
    pub admin: Option<Seq<u8>>,
    pub token: Option<Seq<u8>>,
    pub delegates: Set<Seq<u8>>,
    pub proposal_ids: Seq<Seq<u8>>,
    pub proposals: Map<Seq<u8>, LiquidBasedVoteProposalData>,
    pub user_votes: Map<(Seq<u8>, Seq<u8>), i128>,
    pub user_delegations: Map<(Seq<u8>, Seq<u8>), (Seq<u8>, i128)>,
    pub delegate_power: Map<(Seq<u8>, Seq<u8>), i128>,
    pub delegate_votes: Map<(Seq<u8>, Seq<u8>), Seq<u8>>,
}

/// The first rule that a proposal's times break, in the order in which they are checked.
pub open spec fn spec_check_times(now: u64, delegation_deadline: u64, start_time: u64, end_time: u64)
    -> Result<(), LiquidBasedVoteContractErrors>
{
    if delegation_deadline < now {
        Err(LiquidBasedVoteContractErrors::DelegationDeadlineInPast)
    } else if delegation_deadline >= start_time {
        Err(LiquidBasedVoteContractErrors::DelegationDeadlineAfterStart)
    } else if start_time < now {
        Err(LiquidBasedVoteContractErrors::StartTimeInPast)
    } else if start_time >= end_time {
        Err(LiquidBasedVoteContractErrors::StartTimeAfterEnd)
    } else if end_time - start_time > MAX_PROPOSAL_DURATION {
        Err(LiquidBasedVoteContractErrors::DurationTooLong)
    } else if end_time - start_time < MIN_PROPOSAL_DURATION {
        Err(LiquidBasedVoteContractErrors::DurationTooShort)
    } else {
        Ok(())
    }
}

/// The proposal with `weight` more on the tally of `choice`.
pub open spec fn add_weight(p: LiquidBasedVoteProposalData, choice: Choice, weight: i128)
    -> LiquidBasedVoteProposalData
{
    match choice {
        Choice::For => LiquidBasedVoteProposalData {
            total_for: sat_add(p.total_for as int, weight as int) as i128,
            ..p
        },
        Choice::Against => LiquidBasedVoteProposalData {
            total_against: sat_add(p.total_against as int, weight as int) as i128,
            ..p
        },
        Choice::Abstain => LiquidBasedVoteProposalData {
            total_abstain: sat_add(p.total_abstain as int, weight as int) as i128,
            ..p
        },
    }
}

/// A freshly created proposal: no votes yet.
pub open spec fn fresh_proposal(
    description: String,
    delegation_deadline: u64,
    start_time: u64,
    end_time: u64,
) -> LiquidBasedVoteProposalData {
    LiquidBasedVoteProposalData {
        description,
        delegation_deadline,
        start_time,
        end_time,
        total_for: 0,
        total_against: 0,
        total_abstain: 0,
    }
}

impl LiquidModel {
    /// What the constructor answers.
    pub open spec fn constructor_result(self) -> Result<(), LiquidBasedVoteContractErrors> {
        if self.admin is Some {
            Err(LiquidBasedVoteContractErrors::ContractAlreadyInitialized)
        } else {
            Ok(())
        }
    }

    /// What replacing the delegates answers: the list may not hold more than ten entries.
    pub open spec fn set_delegates_result(self, delegates: Seq<Seq<u8>>)
        -> Result<(), LiquidBasedVoteContractErrors>
    {
        if self.admin is None {
            Err(LiquidBasedVoteContractErrors::ContractNotInitialized)
        } else if delegates.len() > MAX_DELEGATES_NUMBER {
            Err(LiquidBasedVoteContractErrors::DelegateLimitReached)
        } else {
            Ok(())
        }
    }

    /// What adding delegates answers: the set may not grow beyond ten.
    pub open spec fn add_delegates_result(self, to_add: Seq<Seq<u8>>)
        -> Result<(), LiquidBasedVoteContractErrors>
    {
        if self.admin is None {
            Err(LiquidBasedVoteContractErrors::ContractNotInitialized)
        } else if (self.delegates + to_add.to_set()).len() > MAX_DELEGATES_NUMBER {
            Err(LiquidBasedVoteContractErrors::DelegateLimitReached)
        } else {
            Ok(())
        }
    }

    /// What creating a proposal answers.
    pub open spec fn create_proposal_result(
        self,
        id: Seq<u8>,
        delegation_deadline: u64,
        start_time: u64,
        end_time: u64,
        now: u64,
    ) -> Result<(), LiquidBasedVoteContractErrors> {
        if self.admin is None {
            Err(LiquidBasedVoteContractErrors::ContractNotInitialized)
        } else if spec_check_times(now, delegation_deadline, start_time, end_time) is Err {
            spec_check_times(now, delegation_deadline, start_time, end_time)
        } else if self.proposals.contains_key(id) {
            Err(LiquidBasedVoteContractErrors::ProposalAlreadyExists)
        } else {
            Ok(())
        }
    }

    /// The state after a successful creation.
    pub open spec fn with_proposal(
        self,
        id: Seq<u8>,
        description: String,
        delegation_deadline: u64,
        start_time: u64,
        end_time: u64,
    ) -> LiquidModel {
        LiquidModel {
            proposal_ids: self.proposal_ids.push(id),
            proposals: self.proposals.insert(
                id,
                fresh_proposal(description, delegation_deadline, start_time, end_time),
            ),
            ..self
        }
    }

    /// Whether `user` already voted directly on, or delegated for, proposal `id`.
    pub open spec fn has_acted(self, user: Seq<u8>, id: Seq<u8>) -> bool {
        self.user_votes.contains_key((id, user)) || self.user_delegations.contains_key((id, user))
    }

    /// The checks of a direct vote made before the voter's balance is asked for.
    pub open spec fn vote_precheck(self, user: Seq<u8>, id: Seq<u8>, now: u64)
        -> Result<(), LiquidBasedVoteContractErrors>
    {
        if self.has_acted(user, id) {
            Err(LiquidBasedVoteContractErrors::UserAlreadyVoted)
        } else if !self.proposals.contains_key(id) {
            Err(LiquidBasedVoteContractErrors::ProposalNotFound)
        } else if now < self.proposals[id].start_time || now > self.proposals[id].end_time {
            Err(LiquidBasedVoteContractErrors::VotingNotActive)
        } else if self.token is None {
            Err(LiquidBasedVoteContractErrors::ContractNotInitialized)
        } else {
            Ok(())
        }
    }

    /// What a direct vote answers, `balance` being the voter's token balance.
    pub open spec fn vote_result(self, user: Seq<u8>, id: Seq<u8>, choice: Seq<u8>, now: u64, balance: i128)
        -> Result<(), LiquidBasedVoteContractErrors>
    {
        if self.vote_precheck(user, id, now) is Err {
            self.vote_precheck(user, id, now)
        } else if balance <= 0 {
            Err(LiquidBasedVoteContractErrors::UserCannotVote)
        } else if choice_of(choice) is None {
            Err(LiquidBasedVoteContractErrors::InvalidChoice)
        } else {
            Ok(())
        }
    }

    /// The state after a direct vote, whatever it answered.
    pub open spec fn vote_next(self, user: Seq<u8>, id: Seq<u8>, choice: Seq<u8>, now: u64, balance: i128)
        -> LiquidModel
    {
        if self.vote_result(user, id, choice, now, balance) is Ok {
            LiquidModel {
                proposals: self.proposals.insert(
                    id,
                    add_weight(self.proposals[id], choice_of(choice).unwrap(), balance),
                ),
                user_votes: self.user_votes.insert((id, user), balance),
                ..self
            }
        } else {
            self
        }
    }

    /// The checks of a delegation made before the holder's balance is asked for.
    pub open spec fn delegate_precheck(self, user: Seq<u8>, id: Seq<u8>, delegate: Seq<u8>, now: u64)
        -> Result<(), LiquidBasedVoteContractErrors>
    {
        if self.has_acted(user, id) {
            Err(LiquidBasedVoteContractErrors::UserAlreadyVoted)
        } else if !self.proposals.contains_key(id) {
            Err(LiquidBasedVoteContractErrors::ProposalNotFound)
        } else if now >= self.proposals[id].delegation_deadline {
            Err(LiquidBasedVoteContractErrors::DelegationDeadlineEnded)
        } else if !self.delegates.contains(delegate) {
            Err(LiquidBasedVoteContractErrors::DelegateNotFound)
        } else if self.token is None {
            Err(LiquidBasedVoteContractErrors::ContractNotInitialized)
        } else {
            Ok(())
        }
    }

    /// What a delegation answers, `balance` being the holder's token balance.
    pub open spec fn delegate_result(self, user: Seq<u8>, id: Seq<u8>, delegate: Seq<u8>, now: u64, balance: i128)
        -> Result<(), LiquidBasedVoteContractErrors>
    {
        if self.delegate_precheck(user, id, delegate, now) is Err {
            self.delegate_precheck(user, id, delegate, now)
        } else if balance <= 0 {
            Err(LiquidBasedVoteContractErrors::UserCannotVote)
        } else {
            Ok(())
        }
    }

    /// The power that `delegate` gathered on proposal `id`.
    pub open spec fn power_of(self, id: Seq<u8>, delegate: Seq<u8>) -> i128 {
        if self.delegate_power.contains_key((id, delegate)) {
            self.delegate_power[(id, delegate)]
        } else {
            0
        }
    }

    /// The state after a delegation, whatever it answered.
    pub open spec fn delegate_next(self, user: Seq<u8>, id: Seq<u8>, delegate: Seq<u8>, now: u64, balance: i128)
        -> LiquidModel
    {
        if self.delegate_result(user, id, delegate, now, balance) is Ok {
            LiquidModel {
                delegate_power: self.delegate_power.insert(
                    (id, delegate),
                    sat_add(self.power_of(id, delegate) as int, balance as int) as i128,
                ),
                user_delegations: self.user_delegations.insert((id, user), (delegate, balance)),
                ..self
            }
        } else {
            self
        }
    }

    /// What a delegate's vote answers.
    pub open spec fn delegate_vote_result(self, delegate: Seq<u8>, id: Seq<u8>, choice: Seq<u8>, now: u64)
        -> Result<(), LiquidBasedVoteContractErrors>
    {
        if !self.delegates.contains(delegate) {
            Err(LiquidBasedVoteContractErrors::NotDelegate)
        } else if !self.proposals.contains_key(id) {
            Err(LiquidBasedVoteContractErrors::ProposalNotFound)
        } else if now < self.proposals[id].start_time || now > self.proposals[id].end_time {
            Err(LiquidBasedVoteContractErrors::VotingNotActive)
        } else if self.delegate_votes.contains_key((id, delegate)) {
            Err(LiquidBasedVoteContractErrors::DelegateAlreadyVoted)
        } else if choice_of(choice) is None {
            Err(LiquidBasedVoteContractErrors::InvalidChoice)
        } else {
            Ok(())
        }
    }

    /// The state after a delegate's vote, whatever it answered.
    pub open spec fn delegate_vote_next(self, delegate: Seq<u8>, id: Seq<u8>, choice: Seq<u8>, now: u64)
        -> LiquidModel
    {
        if self.delegate_vote_result(delegate, id, choice, now) is Ok {
            LiquidModel {
                proposals: self.proposals.insert(
                    id,
                    add_weight(self.proposals[id], choice_of(choice).unwrap(), self.power_of(id, delegate)),
                ),
                delegate_votes: self.delegate_votes.insert((id, delegate), choice),
                ..self
            }
        } else {
            self
        }
    }

    /// What `user`'s line for proposal `id` reports: a direct vote and its weight, a
    /// delegation and its amount, or nothing, with the power gathered as a delegate where
    /// there is any, and `balance` otherwise.
    pub open spec fn user_entry(self, user: Seq<u8>, id: Seq<u8>, balance: i128)
        -> (LiquidBasedVoteActionStatus, i128)
    {
        if self.user_votes.contains_key((id, user)) {
            (LiquidBasedVoteActionStatus::Voted, self.user_votes[(id, user)])
        } else if self.user_delegations.contains_key((id, user)) {
            (LiquidBasedVoteActionStatus::Delegated, self.user_delegations[(id, user)].1)
        } else if self.delegates.contains(user) && self.power_of(id, user) > 0 {
            (LiquidBasedVoteActionStatus::NoAction, self.power_of(id, user))
        } else {
            (LiquidBasedVoteActionStatus::NoAction, balance)
        }
    }
}

impl LiquidBasedVoteProposalData {
    /// A copy of the proposal.
    pub fn copy(&self) -> (r: LiquidBasedVoteProposalData)
        ensures
            r == *self,
    {
        LiquidBasedVoteProposalData {
            description: self.description.clone(),
            delegation_deadline: self.delegation_deadline,
            start_time: self.start_time,
            end_time: self.end_time,
            total_for: self.total_for,
            total_against: self.total_against,
            total_abstain: self.total_abstain,
        }
    }

    /// Adds `weight` to the tally of `choice`, saturating.
    fn add_weight(&mut self, choice: Choice, weight: i128)
        ensures
            *final(self) == add_weight(*old(self), choice, weight),
    {
        match choice {
            Choice::For => {
                self.total_for = saturating_add_i128(self.total_for, weight);
            },
            Choice::Against => {
                self.total_against = saturating_add_i128(self.total_against, weight);
            },
            Choice::Abstain => {
                self.total_abstain = saturating_add_i128(self.total_abstain, weight);
            },
        }
    }
}

/// The stored state of a liquid vote contract. Addresses and proposal ids are held by their
/// bytes.
pub struct LiquidBasedVoteContract {
    admin: Option<Vec<u8>>,
    token: Option<Vec<u8>>,
    delegates: DelegateSet,
    proposal_ids: Vec<Vec<u8>>,
    proposals: Table<Vec<u8>, LiquidBasedVoteProposalData>,
    user_votes: Table<Slot, i128>,
    user_delegations: Table<Slot, LiquidBasedVoteDelegationData>,
    delegate_power: Table<Slot, i128>,
    delegate_votes: Table<Slot, Vec<u8>>,
}

impl LiquidBasedVoteContract {
    pub closed spec fn ids(&self) -> Seq<Seq<u8>> {
        views(self.proposal_ids@)
    }

    /// The abstract state of the contract.
    pub closed spec fn view(&self) -> LiquidModel {
        LiquidModel {
            admin: match self.admin {
                Some(a) => Some(a@),
                None => None,
            },
            token: match self.token {
                Some(t) => Some(t@),
                None => None,
            },
            delegates: self.delegates@.dom(),
            proposal_ids: self.ids(),
            proposals: self.proposals@,
            user_votes: self.user_votes@,
            user_delegations: self.user_delegations@.map_values(|d: LiquidBasedVoteDelegationData| d@),
            delegate_power: self.delegate_power@,
            delegate_votes: self.delegate_votes@.map_values(|c: Vec<u8>| c@),
        }
    }

    /// The stored state is consistent: every table is well formed and the id list names each
    /// stored proposal exactly once.
    pub closed spec fn wf(&self) -> bool {
        &&& self.delegates.wf()
        &&& self.proposals.wf()
        &&& self.user_votes.wf()
        &&& self.user_delegations.wf()
        &&& self.delegate_power.wf()
        &&& self.delegate_votes.wf()
        &&& self.ids().no_duplicates()
        &&& forall|k: Seq<u8>| self.proposals@.contains_key(k) <==> self.ids().contains(k)
    }

    /// Storage before the constructor has run: nothing is stored.
    pub fn new() -> (c: Self)
        ensures
            c.wf(),
            c.view() == (LiquidModel {
                admin: None,
                token: None,
                delegates: Set::empty(),
                proposal_ids: Seq::empty(),
                proposals: Map::empty(),
                user_votes: Map::empty(),
                user_delegations: Map::empty(),
                delegate_power: Map::empty(),
                delegate_votes: Map::empty(),
            }),
    {
        let c = LiquidBasedVoteContract {
            admin: None,
            token: None,
            delegates: Table::new(),
            proposal_ids: Vec::new(),
            proposals: Table::new(),
            user_votes: Table::new(),
            user_delegations: Table::new(),
            delegate_power: Table::new(),
            delegate_votes: Table::new(),
        };
        assert(c.ids() =~= Seq::<Seq<u8>>::empty());
        assert(c.view().delegates =~= Set::empty());
        assert(c.view().user_delegations =~= Map::empty());
        assert(c.view().delegate_votes =~= Map::empty());
        c
    }

    /// The admin address, once set.
    pub fn admin(&self) -> (r: Option<&Vec<u8>>)
        ensures
            match r {
                Some(a) => self.view().admin == Some(a@),
                None => self.view().admin is None,
            },
    {
        match &self.admin {
            Some(a) => Some(a),
            None => None,
        }
    }

    /// The governance token's address, once set.
    pub fn token(&self) -> (r: Option<&Vec<u8>>)
        ensures
            match r {
                Some(t) => self.view().token == Some(t@),
                None => self.view().token is None,
            },
    {
        match &self.token {
            Some(t) => Some(t),
            None => None,
        }
    }

    /// Rebuilds the stored state from its parts. `None` where a table repeats a key or the id
    /// list does not name each stored proposal exactly once.
    pub fn from_parts(
        admin: Option<Vec<u8>>,
        token: Option<Vec<u8>>,
        delegates: DelegateSet,
        proposal_ids: Vec<Vec<u8>>,
        proposals: Table<Vec<u8>, LiquidBasedVoteProposalData>,
        user_votes: Table<Slot, i128>,
        user_delegations: Table<Slot, LiquidBasedVoteDelegationData>,
        delegate_power: Table<Slot, i128>,
        delegate_votes: Table<Slot, Vec<u8>>,
    ) -> (r: Option<Self>)
        ensures
            r is Some <==> (delegates.wf() && proposals.wf() && user_votes.wf() && user_delegations.wf()
                && delegate_power.wf() && delegate_votes.wf() && views(proposal_ids@).no_duplicates()
                && forall|k: Seq<u8>| proposals@.contains_key(k) <==> views(proposal_ids@).contains(k)),
            r matches Some(c) ==> c.wf() && c.view() == (LiquidModel {
                admin: opt_bytes(admin),
                token: opt_bytes(token),
                delegates: delegates@.dom(),
                proposal_ids: views(proposal_ids@),
                proposals: proposals@,
                user_votes: user_votes@,
                user_delegations: user_delegations@.map_values(|d: LiquidBasedVoteDelegationData| d@),
                delegate_power: delegate_power@,
                delegate_votes: delegate_votes@.map_values(|c: Vec<u8>| c@),
            }),
    {
        if !delegates.is_well_formed() || !proposals.is_well_formed() || !user_votes.is_well_formed()
            || !user_delegations.is_well_formed() || !delegate_power.is_well_formed()
            || !delegate_votes.is_well_formed() {
            return None;
        }
        if !proposals.lists_keys_once(&proposal_ids) {
            return None;
        }
        Some(LiquidBasedVoteContract {
            admin,
            token,
            delegates,
            proposal_ids,
            proposals,
            user_votes,
            user_delegations,
            delegate_power,
            delegate_votes,
        })
    }

    /// The approved delegates.
    pub fn delegates(&self) -> (r: &DelegateSet)
        requires
            self.wf(),
        ensures
            r.wf(),
            r@.dom() == self.view().delegates,
    {
        &self.delegates
    }

    /// The proposal ids, in order of creation.
    pub fn proposal_ids(&self) -> (r: &Vec<Vec<u8>>)
        ensures
            views(r@) == self.view().proposal_ids,
    {
        &self.proposal_ids
    }

    /// The stored proposals, by id.
    pub fn proposals(&self) -> (r: &Table<Vec<u8>, LiquidBasedVoteProposalData>)
        requires
            self.wf(),
        ensures
            r.wf(),
            r@ == self.view().proposals,
    {
        &self.proposals
    }

    /// The direct votes and their weight, by (proposal id, user).
    pub fn user_votes(&self) -> (r: &Table<Slot, i128>)
        requires
            self.wf(),
        ensures
            r.wf(),
            r@ == self.view().user_votes,
    {
        &self.user_votes
    }

    /// The delegations, by (proposal id, user).
    pub fn user_delegations(&self) -> (r: &Table<Slot, LiquidBasedVoteDelegationData>)
        requires
            self.wf(),
        ensures
            r.wf(),
            r@.map_values(|d: LiquidBasedVoteDelegationData| d@) == self.view().user_delegations,
    {
        &self.user_delegations
    }

    /// The power gathered by each delegate, by (proposal id, delegate).
    pub fn delegate_power(&self) -> (r: &Table<Slot, i128>)
        requires
            self.wf(),
        ensures
            r.wf(),
            r@ == self.view().delegate_power,
    {
        &self.delegate_power
    }

    /// Each delegate's choice once it voted, by (proposal id, delegate).
    pub fn delegate_votes(&self) -> (r: &Table<Slot, Vec<u8>>)
        requires
            self.wf(),
        ensures
            r.wf(),
            r@.map_values(|c: Vec<u8>| c@) == self.view().delegate_votes,
    {
        &self.delegate_votes
    }

    /// The lifetime of a proposal: its remaining time plus a week, at least
    /// `PROPOSALS_TTL_EXTENSION`.
    pub fn calculate_proposal_ttl(ledger_time: u64, proposal_end_time: u64) -> (r: u32)
        requires
            ttl_fits(ledger_time, proposal_end_time),
        ensures
            r == spec_ttl(ledger_time, proposal_end_time, PROPOSALS_TTL_EXTENSION),
    {
        ttl_for(ledger_time, proposal_end_time, PROPOSALS_TTL_EXTENSION)
    }

    /// The lifetime of a user's vote or delegation: the proposal's remaining time plus a
    /// week, at least `USER_ACTION_TTL_EXTENSION`.
    pub fn calculate_user_action_ttl(ledger_time: u64, proposal_end_time: u64) -> (r: u32)
        requires
            ttl_fits(ledger_time, proposal_end_time),
        ensures
            r == spec_ttl(ledger_time, proposal_end_time, USER_ACTION_TTL_EXTENSION),
    {
        ttl_for(ledger_time, proposal_end_time, USER_ACTION_TTL_EXTENSION)
    }

    /// Sets the admin and the token, once.
    pub fn __constructor(&mut self, admin: Vec<u8>, token: Vec<u8>)
        -> (r: Result<(), LiquidBasedVoteContractErrors>)
        requires
            old(self).wf(),
        ensures
            final(self).wf(),
            r == old(self).view().constructor_result(),
            r is Ok ==> final(self).view() == (LiquidModel {
                admin: Some(admin@),
                token: Some(token@),
                ..old(self).view()
            }),
            r is Err ==> final(self).view() == old(self).view(),
    {
        if self.admin.is_some() {
            return Err(LiquidBasedVoteContractErrors::ContractAlreadyInitialized);
        }
        self.admin = Some(admin);
        self.token = Some(token);
        Ok(())
    }

    /// Replaces the approved delegates by those of `delegates`, a list of at most ten
    /// entries. The admin authorizes the call.
    pub fn set_delegates(&mut self, delegates: Vec<Vec<u8>>) -> (r: Result<(), LiquidBasedVoteContractErrors>)
        requires
            old(self).wf(),
        ensures
            final(self).wf(),
            r == old(self).view().set_delegates_result(views(delegates@)),
            r is Ok ==> final(self).view() == (LiquidModel {
                delegates: name_set(delegates@),
                ..old(self).view()
            }),
            r is Err ==> final(self).view() == old(self).view(),
    {
        if self.admin.is_none() {
            return Err(LiquidBasedVoteContractErrors::ContractNotInitialized);
        }
        if delegates.len() > MAX_DELEGATES_NUMBER as usize {
            return Err(LiquidBasedVoteContractErrors::DelegateLimitReached);
        }
        self.delegates = set_of(&delegates);
        Ok(())
    }

    /// Adds the addresses of `to_add` to the approved delegates, unless there would then be
    /// more than ten. The admin authorizes the call.
    pub fn add_delegates(&mut self, to_add: Vec<Vec<u8>>) -> (r: Result<(), LiquidBasedVoteContractErrors>)
        requires
            old(self).wf(),
        ensures
            final(self).wf(),
            r == old(self).view().add_delegates_result(views(to_add@)),
            r is Ok ==> final(self).view() == (LiquidModel {
                delegates: old(self).view().delegates + name_set(to_add@),
                ..old(self).view()
            }),
            r is Err ==> final(self).view() == old(self).view(),
    {
        if self.admin.is_none() {
            return Err(LiquidBasedVoteContractErrors::ContractNotInitialized);
        }
        let mut delegates_map = self.delegates.copy();
        add_all(&mut delegates_map, &to_add);
        if delegates_map.len() > MAX_DELEGATES_NUMBER as usize {
            return Err(LiquidBasedVoteContractErrors::DelegateLimitReached);
        }
        self.delegates = delegates_map;
        Ok(())
    }

    /// Removes the addresses of `to_remove` from the approved delegates. The admin authorizes
    /// the call.
    pub fn remove_delegates(&mut self, to_remove: Vec<Vec<u8>>) -> (r: Result<(), LiquidBasedVoteContractErrors>)
        requires
            old(self).wf(),
        ensures
            final(self).wf(),
            r is Err <==> old(self).view().admin is None,
            r is Err ==> r == Err::<(), _>(LiquidBasedVoteContractErrors::ContractNotInitialized)
                && final(self).view() == old(self).view(),
            r is Ok ==> final(self).view() == (LiquidModel {
                delegates: old(self).view().delegates - name_set(to_remove@),
                ..old(self).view()
            }),
    {
        if self.admin.is_none() {
            return Err(LiquidBasedVoteContractErrors::ContractNotInitialized);
        }
        remove_all(&mut self.delegates, &to_remove);
        Ok(())
    }

    /// Checks a proposal's delegation deadline and voting window.
    pub fn check_proposal_times(now: u64, delegation_deadline: u64, start_time: u64, end_time: u64)
        -> (r: Result<(), LiquidBasedVoteContractErrors>)
        ensures
            r == spec_check_times(now, delegation_deadline, start_time, end_time),
            r is Ok <==> (now <= delegation_deadline && delegation_deadline < start_time
                && start_time < end_time
                && MIN_PROPOSAL_DURATION <= end_time - start_time <= MAX_PROPOSAL_DURATION),
    {
        if delegation_deadline < now {
            return Err(LiquidBasedVoteContractErrors::DelegationDeadlineInPast);
        }
        if delegation_deadline >= start_time {
            return Err(LiquidBasedVoteContractErrors::DelegationDeadlineAfterStart);
        }
        if start_time < now {
            return Err(LiquidBasedVoteContractErrors::StartTimeInPast);
        }
        if start_time >= end_time {
            return Err(LiquidBasedVoteContractErrors::StartTimeAfterEnd);
        }
        if end_time - start_time > MAX_PROPOSAL_DURATION {
            return Err(LiquidBasedVoteContractErrors::DurationTooLong);
        }
        if end_time - start_time < MIN_PROPOSAL_DURATION {
            return Err(LiquidBasedVoteContractErrors::DurationTooShort);
        }
        Ok(())
    }

    /// Creates a proposal with no votes and appends its id to the list. The admin authorizes
    /// the call.
    pub fn create_proposal(
        &mut self,
        id: Vec<u8>,
        description: String,
        delegation_deadline: u64,
        start_time: u64,
        end_time: u64,
        now: u64,
    ) -> (r: Result<(), LiquidBasedVoteContractErrors>)
        requires
            old(self).wf(),
        ensures
            final(self).wf(),
            r == old(self).view().create_proposal_result(id@, delegation_deadline, start_time, end_time, now),
            r is Ok ==> final(self).view() == old(self).view().with_proposal(
                id@,
                description,
                delegation_deadline,
                start_time,
                end_time,
            ),
            r is Err ==> final(self).view() == old(self).view(),
    {
        if self.admin.is_none() {
            return Err(LiquidBasedVoteContractErrors::ContractNotInitialized);
        }
        Self::check_proposal_times(now, delegation_deadline, start_time, end_time)?;
        if self.proposals.contains_key(&id) {
            return Err(LiquidBasedVoteContractErrors::ProposalAlreadyExists);
        }
        let ghost old_ids = self.ids();
        let ghost old_dom = self.proposals@.dom();
        let proposal = LiquidBasedVoteProposalData {
            description,
            delegation_deadline,
            start_time,
            end_time,
            total_for: 0,
            total_against: 0,
            total_abstain: 0,
        };
        self.proposals.insert(id.clone(), proposal);
        self.proposal_ids.push(id);
        proof {
            assert(self.ids() =~= old_ids.push(id@));
            lemma_append_new_name(old_ids, old_dom, id@);
            assert(self.proposals@.dom() =~= old_dom.insert(id@));
        }
        Ok(())
    }

    /// The checks of a direct vote that come before the voter's balance is needed. On
    /// success, gives the address of the token whose balance the vote needs.
    pub fn check_vote(&self, user: &Vec<u8>, id: &Vec<u8>, now: u64)
        -> (r: Result<&Vec<u8>, LiquidBasedVoteContractErrors>)
        requires
            self.wf(),
        ensures
            match r {
                Ok(t) => self.view().vote_precheck(user@, id@, now) is Ok
                    && self.view().token == Some(t@),
                Err(e) => self.view().vote_precheck(user@, id@, now) == Err::<(), _>(e),
            },
    {
        let key = (id.clone(), user.clone());
        if self.user_votes.contains_key(&key) || self.user_delegations.contains_key(&key) {
            return Err(LiquidBasedVoteContractErrors::UserAlreadyVoted);
        }
        let proposal = match self.proposals.get(id) {
            Some(p) => p,
            None => return Err(LiquidBasedVoteContractErrors::ProposalNotFound),
        };
        if now < proposal.start_time || now > proposal.end_time {
            return Err(LiquidBasedVoteContractErrors::VotingNotActive);
        }
        match &self.token {
            Some(t) => Ok(t),
            None => Err(LiquidBasedVoteContractErrors::ContractNotInitialized),
        }
    }

    /// Records `user`'s direct vote on proposal `id`: its weight is the user's token
    /// `balance`, which must be positive; the user must not have voted or delegated on it
    /// before. The user authorizes the call.
    pub fn vote(&mut self, user: Vec<u8>, id: Vec<u8>, choice: &Vec<u8>, now: u64, balance: i128)
        -> (r: Result<(), LiquidBasedVoteContractErrors>)
        requires
            old(self).wf(),
        ensures
            final(self).wf(),
            r == old(self).view().vote_result(user@, id@, choice@, now, balance),
            final(self).view() == old(self).view().vote_next(user@, id@, choice@, now, balance),
    {
        match self.check_vote(&user, &id, now) {
            Ok(_) => {},
            Err(e) => return Err(e),
        }
        if balance <= 0 {
            return Err(LiquidBasedVoteContractErrors::UserCannotVote);
        }
        let c = match parse_choice(choice) {
            Some(c) => c,
            None => return Err(LiquidBasedVoteContractErrors::InvalidChoice),
        };
        let ghost old_view = self.view();
        let mut proposal = match self.proposals.remove(&id) {
            Some(p) => p,
            None => return Err(LiquidBasedVoteContractErrors::ProposalNotFound),
        };
        proposal.add_weight(c, balance);
        self.proposals.insert(id.clone(), proposal);
        self.user_votes.insert((id, user), balance);
        proof {
            assert(self.view().proposals =~= old_view.vote_next(user@, id@, choice@, now, balance).proposals);
        }
        Ok(())
    }

    /// The checks of a delegation that come before the holder's balance is needed. On
    /// success, gives the address of the token whose balance the delegation needs.
    pub fn check_delegate(&self, user: &Vec<u8>, id: &Vec<u8>, delegate_address: &Vec<u8>, now: u64)
        -> (r: Result<&Vec<u8>, LiquidBasedVoteContractErrors>)
        requires
            self.wf(),
        ensures
            match r {
                Ok(t) => self.view().delegate_precheck(user@, id@, delegate_address@, now) is Ok
                    && self.view().token == Some(t@),
                Err(e) => self.view().delegate_precheck(user@, id@, delegate_address@, now) == Err::<(), _>(e),
            },
    {
        let key = (id.clone(), user.clone());
        if self.user_votes.contains_key(&key) || self.user_delegations.contains_key(&key) {
            return Err(LiquidBasedVoteContractErrors::UserAlreadyVoted);
        }
        let proposal = match self.proposals.get(id) {
            Some(p) => p,
            None => return Err(LiquidBasedVoteContractErrors::ProposalNotFound),
        };
        if now >= proposal.delegation_deadline {
            return Err(LiquidBasedVoteContractErrors::DelegationDeadlineEnded);
        }
        if !self.delegates.contains_key(delegate_address) {
            return Err(LiquidBasedVoteContractErrors::DelegateNotFound);
        }
        match &self.token {
            Some(t) => Ok(t),
            None => Err(LiquidBasedVoteContractErrors::ContractNotInitialized),
        }
    }

    /// Delegates `user`'s token `balance`, which must be positive, to an approved delegate
    /// for proposal `id`, before the delegation deadline; the user must not have voted or
    /// delegated on it before. The user authorizes the call.
    pub fn delegate(&mut self, user: Vec<u8>, id: Vec<u8>, delegate_address: Vec<u8>, now: u64, balance: i128)
        -> (r: Result<(), LiquidBasedVoteContractErrors>)
        requires
            old(self).wf(),
        ensures
            final(self).wf(),
            r == old(self).view().delegate_result(user@, id@, delegate_address@, now, balance),
            final(self).view() == old(self).view().delegate_next(user@, id@, delegate_address@, now, balance),
    {
        match self.check_delegate(&user, &id, &delegate_address, now) {
            Ok(_) => {},
            Err(e) => return Err(e),
        }
        if balance <= 0 {
            return Err(LiquidBasedVoteContractErrors::UserCannotVote);
        }
        let ghost old_view = self.view();
        let power_key = (id.clone(), delegate_address.clone());
        let current_power: i128 = match self.delegate_power.get(&power_key) {
            Some(p) => *p,
            None => 0,
        };
        let new_power = saturating_add_i128(current_power, balance);
        self.delegate_power.insert(power_key, new_power);
        let delegation = LiquidBasedVoteDelegationData { delegate: delegate_address, amount: balance };
        self.user_delegations.insert((id, user), delegation);
        proof {
            assert(self.view().user_delegations =~= old_view.delegate_next(
                user@,
                id@,
                delegate_address@,
                now,
                balance,
            ).user_delegations);
        }
        Ok(())
    }

    /// Casts `delegate`'s vote on proposal `id` with all the power delegated to it there,
    /// during the voting window, once. The delegate authorizes the call.
    pub fn delegate_vote(&mut self, delegate: Vec<u8>, id: Vec<u8>, choice: &Vec<u8>, now: u64)
        -> (r: Result<(), LiquidBasedVoteContractErrors>)
        requires
            old(self).wf(),
        ensures
            final(self).wf(),
            r == old(self).view().delegate_vote_result(delegate@, id@, choice@, now),
            final(self).view() == old(self).view().delegate_vote_next(delegate@, id@, choice@, now),
    {
        if !self.delegates.contains_key(&delegate) {
            return Err(LiquidBasedVoteContractErrors::NotDelegate);
        }
        match self.proposals.get(&id) {
            Some(proposal) => {
                if now < proposal.start_time || now > proposal.end_time {
                    return Err(LiquidBasedVoteContractErrors::VotingNotActive);
                }
            },
            None => return Err(LiquidBasedVoteContractErrors::ProposalNotFound),
        }
        let key = (id.clone(), delegate.clone());
        if self.delegate_votes.contains_key(&key) {
            return Err(LiquidBasedVoteContractErrors::DelegateAlreadyVoted);
        }
        let power: i128 = match self.delegate_power.get(&key) {
            Some(p) => *p,
            None => 0,
        };
        let c = match parse_choice(choice) {
            Some(c) => c,
            None => return Err(LiquidBasedVoteContractErrors::InvalidChoice),
        };
        let ghost old_view = self.view();
        let mut proposal = match self.proposals.remove(&id) {
            Some(p) => p,
            None => return Err(LiquidBasedVoteContractErrors::ProposalNotFound),
        };
        proposal.add_weight(c, power);
        self.proposals.insert(id, proposal);
        self.delegate_votes.insert(key, choice.clone());
        proof {
            assert(self.view().proposals =~= old_view.delegate_vote_next(delegate@, id@, choice@, now).proposals);
            assert(self.view().delegate_votes =~= old_view.delegate_vote_next(
                delegate@,
                id@,
                choice@,
                now,
            ).delegate_votes);
        }
        Ok(())
    }

    /// Hands the admin role to `new_admin`. The current admin authorizes the call.
    pub fn transfer_admin(&mut self, new_admin: Vec<u8>) -> (r: Result<(), LiquidBasedVoteContractErrors>)
        requires
            old(self).wf(),
        ensures
            final(self).wf(),
            r is Err <==> old(self).view().admin is None,
            r is Err ==> r == Err::<(), _>(LiquidBasedVoteContractErrors::ContractNotInitialized)
                && final(self).view() == old(self).view(),
            r is Ok ==> final(self).view() == (LiquidModel { admin: Some(new_admin@), ..old(self).view() }),
    {
        if self.admin.is_none() {
            return Err(LiquidBasedVoteContractErrors::ContractNotInitialized);
        }
        self.admin = Some(new_admin);
        Ok(())
    }

    /// One summary per proposal, in order of creation; `status` tells whether `now` lies in
    /// the voting window.
    pub fn get_governance_details(&self, now: u64) -> (r: Vec<LiquidBasedVoteProposalSummary>)
        requires
            self.wf(),
        ensures
            r@.len() == self.view().proposal_ids.len(),
            forall|i: int| 0 <= i < r@.len() ==> {
                let id = #[trigger] self.view().proposal_ids[i];
                let p = self.view().proposals[id];
                &&& r@[i].id@ == id
                &&& r@[i].description == p.description
                &&& r@[i].status == (p.start_time <= now && now <= p.end_time)
            },
    {
        let mut summary: Vec<LiquidBasedVoteProposalSummary> = Vec::new();
        let n = self.proposal_ids.len();
        let mut i: usize = 0;
        while i < n
            invariant
                self.wf(),
                n == self.proposal_ids@.len(),
                i <= n,
                summary@.len() == i,
                forall|j: int| 0 <= j < i ==> {
                    let id = #[trigger] self.ids()[j];
                    let p = self.proposals@[id];
                    &&& summary@[j].id@ == id
                    &&& summary@[j].description == p.description
                    &&& summary@[j].status == (p.start_time <= now && now <= p.end_time)
                },
            decreases n - i,
        {
            let id = &self.proposal_ids[i];
            assert(self.ids()[i as int] == id@);
            match self.proposals.get(id) {
                Some(proposal) => {
                    let status = now >= proposal.start_time && now <= proposal.end_time;
                    summary.push(LiquidBasedVoteProposalSummary {
                        id: id.clone(),
                        description: proposal.description.clone(),
                        status,
                    });
                },
                None => {
                    assert(self.ids().contains(id@));
                    assert(false);
                },
            }
            i = i + 1;
        }
        summary
    }

    /// The stored proposal `id`.
    pub fn get_proposal_details(&self, id: &Vec<u8>)
        -> (r: Result<LiquidBasedVoteProposalData, LiquidBasedVoteContractErrors>)
        requires
            self.wf(),
        ensures
            match r {
                Ok(p) => self.view().proposals.contains_key(id@) && p == self.view().proposals[id@],
                Err(e) => !self.view().proposals.contains_key(id@)
                    && e == LiquidBasedVoteContractErrors::ProposalNotFound,
            },
    {
        match self.proposals.get(id) {
            Some(p) => Ok(p.copy()),
            None => Err(LiquidBasedVoteContractErrors::ProposalNotFound),
        }
    }

    /// For each proposal, in order of creation: its id, what `user` did on it, and the
    /// matching power (see `LiquidModel::user_entry`); `balance` is the user's token balance.
    pub fn get_user_details(&self, user: &Vec<u8>, balance: i128)
        -> (r: Result<Vec<(Vec<u8>, LiquidBasedVoteActionStatus, i128)>, LiquidBasedVoteContractErrors>)
        requires
            self.wf(),
        ensures
            r is Err <==> self.view().token is None,
            r is Err ==> r == Err::<Vec<(Vec<u8>, LiquidBasedVoteActionStatus, i128)>, _>(
                LiquidBasedVoteContractErrors::ContractNotInitialized,
            ),
            r matches Ok(v) ==> {
                &&& v@.len() == self.view().proposal_ids.len()
                &&& forall|i: int| 0 <= i < v@.len() ==> {
                    let id = #[trigger] self.view().proposal_ids[i];
                    &&& v@[i].0@ == id
                    &&& (v@[i].1, v@[i].2) == self.view().user_entry(user@, id, balance)
                }
            },
    {
        if self.token.is_none() {
            return Err(LiquidBasedVoteContractErrors::ContractNotInitialized);
        }
        let is_delegate = self.delegates.contains_key(user);
        let mut results: Vec<(Vec<u8>, LiquidBasedVoteActionStatus, i128)> = Vec::new();
        let n = self.proposal_ids.len();
        let mut i: usize = 0;
        while i < n
            invariant
                self.wf(),
                n == self.proposal_ids@.len(),
                i <= n,
                is_delegate == self.delegates@.contains_key(user@),
                results@.len() == i,
                forall|j: int| 0 <= j < i ==> {
                    let id = #[trigger] self.ids()[j];
                    &&& results@[j].0@ == id
                    &&& (results@[j].1, results@[j].2) == self.view().user_entry(user@, id, balance)
                },
            decreases n - i,
        {
            let id = &self.proposal_ids[i];
            assert(self.ids()[i as int] == id@);
            let key = (id.clone(), user.clone());
            let entry: (LiquidBasedVoteActionStatus, i128) = match self.user_votes.get(&key) {
                Some(voted_power) => (LiquidBasedVoteActionStatus::Voted, *voted_power),
                None => match self.user_delegations.get(&key) {
                    Some(delegation) => (LiquidBasedVoteActionStatus::Delegated, delegation.amount),
                    None => {
                        if is_delegate {
                            let delegated_power: i128 = match self.delegate_power.get(&key) {
                                Some(p) => *p,
                                None => 0,
                            };
                            if delegated_power > 0 {
                                (LiquidBasedVoteActionStatus::NoAction, delegated_power)
                            } else {
                                (LiquidBasedVoteActionStatus::NoAction, balance)
                            }
                        } else {
                            (LiquidBasedVoteActionStatus::NoAction, balance)
                        }
                    },
                },
            };
            results.push((id.clone(), entry.0, entry.1));
            i = i + 1;
        }
        Ok(results)
    }
}

/// Once a holder has voted directly on a proposal, it can neither vote again nor delegate
/// there, whatever the time, choice, delegate or balance.
pub proof fn lemma_vote_excludes_vote_and_delegation(
    m: LiquidModel,
    user: Seq<u8>,
    id: Seq<u8>,
    choice: Seq<u8>,
    now: u64,
    balance: i128,
    choice2: Seq<u8>,
    delegate: Seq<u8>,
    now2: u64,
    balance2: i128,
)
    requires
        m.vote_result(user, id, choice, now, balance) is Ok,
    ensures
        m.vote_next(user, id, choice, now, balance).vote_result(user, id, choice2, now2, balance2)
            == Err::<(), _>(LiquidBasedVoteContractErrors::UserAlreadyVoted),
        m.vote_next(user, id, choice, now, balance).delegate_result(user, id, delegate, now2, balance2)
            == Err::<(), _>(LiquidBasedVoteContractErrors::UserAlreadyVoted),
{
}

/// Once a holder has delegated on a proposal, it can neither vote directly nor delegate
/// again there, whatever the time, choice, delegate or balance.
pub proof fn lemma_delegation_excludes_vote_and_delegation(
    m: LiquidModel,
    user: Seq<u8>,
    id: Seq<u8>,
    delegate: Seq<u8>,
    now: u64,
    balance: i128,
    choice2: Seq<u8>,
    delegate2: Seq<u8>,
    now2: u64,
    balance2: i128,
)
    requires
        m.delegate_result(user, id, delegate, now, balance) is Ok,
    ensures
        m.delegate_next(user, id, delegate, now, balance).vote_result(user, id, choice2, now2, balance2)
            == Err::<(), _>(LiquidBasedVoteContractErrors::UserAlreadyVoted),
        m.delegate_next(user, id, delegate, now, balance).delegate_result(user, id, delegate2, now2, balance2)
            == Err::<(), _>(LiquidBasedVoteContractErrors::UserAlreadyVoted),
{
}

/// A delegate votes once on a proposal: while it stays a delegate and the window is open, a
/// second vote is refused.
pub proof fn lemma_delegate_votes_once(
    m: LiquidModel,
    delegate: Seq<u8>,
    id: Seq<u8>,
    choice: Seq<u8>,
    now: u64,
    choice2: Seq<u8>,
    now2: u64,
)
    requires
        m.delegate_vote_result(delegate, id, choice, now) is Ok,
        m.proposals[id].start_time <= now2 <= m.proposals[id].end_time,
    ensures
        m.delegate_vote_next(delegate, id, choice, now).delegate_vote_result(delegate, id, choice2, now2)
            == Err::<(), _>(LiquidBasedVoteContractErrors::DelegateAlreadyVoted),
{
}

/// A delegation adds exactly the holder's balance to the delegate's power on that proposal,
/// short of overflow, and touches no other delegate's power.
pub proof fn lemma_delegation_moves_balance(
    m: LiquidModel,
    user: Seq<u8>,
    id: Seq<u8>,
    delegate: Seq<u8>,
    now: u64,
    balance: i128,
    other: (Seq<u8>, Seq<u8>),
)
    requires
        m.delegate_result(user, id, delegate, now, balance) is Ok,
        m.power_of(id, delegate) + balance <= i128::MAX,
        other != (id, delegate),
    ensures
        m.delegate_next(user, id, delegate, now, balance).power_of(id, delegate)
            == m.power_of(id, delegate) + balance,
        m.delegate_next(user, id, delegate, now, balance).delegate_power.contains_key(other)
            == m.delegate_power.contains_key(other),
        m.delegate_power.contains_key(other) ==> m.delegate_next(user, id, delegate, now, balance).delegate_power[other]
            == m.delegate_power[other],
{
}

/// Direct and delegated votes add up: a direct vote adds the voter's balance to the chosen
/// tally, and a delegate's vote adds the power delegated to it, short of overflow.
pub proof fn lemma_votes_add_weight(
    m: LiquidModel,
    user: Seq<u8>,
    delegate: Seq<u8>,
    id: Seq<u8>,
    choice: Seq<u8>,
    now: u64,
    balance: i128,
)
    requires
        choice_of(choice) == Some(Choice::For),
        m.proposals.contains_key(id),
        m.proposals[id].total_for + balance <= i128::MAX,
        m.proposals[id].total_for + m.power_of(id, delegate) <= i128::MAX,
        m.proposals[id].total_for >= 0,
        m.power_of(id, delegate) >= 0,
    ensures
        m.vote_result(user, id, choice, now, balance) is Ok ==>
            m.vote_next(user, id, choice, now, balance).proposals[id].total_for
                == m.proposals[id].total_for + balance,
        m.delegate_vote_result(delegate, id, choice, now) is Ok ==>
            m.delegate_vote_next(delegate, id, choice, now).proposals[id].total_for
                == m.proposals[id].total_for + m.power_of(id, delegate),
{
}

/// The holders whose delegation on proposal `id` names `delegate`.
pub open spec fn delegators_of(m: LiquidModel, id: Seq<u8>, delegate: Seq<u8>) -> Set<Seq<u8>> {
    Set::new(|x: Seq<u8>| m.user_delegations.contains_key((id, x)) && m.user_delegations[(id, x)].0 == delegate)
}

/// The amount that each holder delegated on proposal `id`.
pub open spec fn delegated_amount(m: LiquidModel, id: Seq<u8>) -> spec_fn(Seq<u8>) -> int {
    |x: Seq<u8>| m.user_delegations[(id, x)].1 as int
}

/// The tokens delegated to `delegate` on proposal `id`: the sum of the amounts of the
/// delegations that name it.
pub open spec fn delegated_to(m: LiquidModel, id: Seq<u8>, delegate: Seq<u8>) -> int {
    sum_of(delegators_of(m, id, delegate), delegated_amount(m, id))
}

/// Every delegation moved a positive amount, and the power of every delegate on a proposal is
/// what is delegated to it there.
pub open spec fn powers_are_delegated(m: LiquidModel) -> bool {
    &&& m.user_delegations.dom().finite()
    &&& forall|k: (Seq<u8>, Seq<u8>)| #[trigger] m.user_delegations.contains_key(k) ==> m.user_delegations[k].1 > 0
    &&& forall|id: Seq<u8>, d: Seq<u8>| #[trigger] m.power_of(id, d) == delegated_to(m, id, d)
}

proof fn lemma_delegators_finite(m: LiquidModel, id: Seq<u8>, delegate: Seq<u8>)
    requires
        m.user_delegations.dom().finite(),
    ensures
        delegators_of(m, id, delegate).finite(),
{
    let f = |k: (Seq<u8>, Seq<u8>)| k.1;
    m.user_delegations.dom().lemma_map_finite(f);
    assert(delegators_of(m, id, delegate).subset_of(m.user_delegations.dom().map(f))) by {
        assert forall|x: Seq<u8>| #[trigger] delegators_of(m, id, delegate).contains(x)
            implies m.user_delegations.dom().map(f).contains(x) by {
            assert(m.user_delegations.dom().contains((id, x)));
            assert(f((id, x)) == x);
        }
    }
    vstd::set_lib::lemma_len_subset(delegators_of(m, id, delegate), m.user_delegations.dom().map(f));
}

/// Before anything is delegated, no delegate has power.
pub proof fn lemma_no_delegations_no_power(m: LiquidModel)
    requires
        m.user_delegations == Map::<(Seq<u8>, Seq<u8>), (Seq<u8>, i128)>::empty(),
        m.delegate_power == Map::<(Seq<u8>, Seq<u8>), i128>::empty(),
    ensures
        powers_are_delegated(m),
{
    assert forall|id: Seq<u8>, d: Seq<u8>| #[trigger] m.power_of(id, d) == delegated_to(m, id, d) by {
        assert(delegators_of(m, id, d) =~= Set::<Seq<u8>>::empty());
        lemma_sum_empty(delegated_amount(m, id));
    }
}

/// A delegation adds the holder's balance to the delegate's power, so every delegate's power
/// stays the sum of what is delegated to it, short of overflow.
pub proof fn lemma_delegate_keeps_powers(
    m: LiquidModel,
    user: Seq<u8>,
    id: Seq<u8>,
    delegate: Seq<u8>,
    now: u64,
    balance: i128,
)
    requires
        powers_are_delegated(m),
        m.power_of(id, delegate) + balance <= i128::MAX,
    ensures
        powers_are_delegated(m.delegate_next(user, id, delegate, now, balance)),
{
    let n = m.delegate_next(user, id, delegate, now, balance);
    if m.delegate_result(user, id, delegate, now, balance) is Ok {
        assert(!m.user_delegations.contains_key((id, user)));
        assert forall|id2: Seq<u8>, d2: Seq<u8>| #[trigger] n.power_of(id2, d2) == delegated_to(n, id2, d2) by {
            let s = delegators_of(m, id2, d2);
            lemma_delegators_finite(m, id2, d2);
            assert(m.power_of(id2, d2) == delegated_to(m, id2, d2));
            assert forall|x: Seq<u8>| s.contains(x) implies
                delegated_amount(n, id2)(x) == delegated_amount(m, id2)(x) by {
                assert(m.user_delegations.contains_key((id2, x)));
            }
            lemma_sum_congruent(s, delegated_amount(n, id2), delegated_amount(m, id2));
            if id2 == id && d2 == delegate {
                assert(delegators_of(n, id2, d2) =~= s.insert(user));
                assert(!s.contains(user));
                lemma_sum_insert(s, delegated_amount(n, id2), user);
                assert forall|x: Seq<u8>| s.contains(x) implies delegated_amount(m, id2)(x) >= 0 by {
                    assert(m.user_delegations.contains_key((id2, x)));
                }
                lemma_sum_nonneg(s, delegated_amount(m, id2));
            } else {
                assert(delegators_of(n, id2, d2) =~= s);
            }
        }
    }
}

/// Direct votes and delegates' votes leave every power and every delegation as they were.
pub proof fn lemma_votes_keep_powers(
    m: LiquidModel,
    voter: Seq<u8>,
    id: Seq<u8>,
    choice: Seq<u8>,
    now: u64,
    balance: i128,
)
    requires
        powers_are_delegated(m),
    ensures
        powers_are_delegated(m.vote_next(voter, id, choice, now, balance)),
        powers_are_delegated(m.delegate_vote_next(voter, id, choice, now)),
{
    let n1 = m.vote_next(voter, id, choice, now, balance);
    let n2 = m.delegate_vote_next(voter, id, choice, now);
    assert forall|id2: Seq<u8>, d2: Seq<u8>| #[trigger] n1.power_of(id2, d2) == delegated_to(n1, id2, d2) by {
        assert(m.power_of(id2, d2) == delegated_to(m, id2, d2));
    }
    assert forall|id2: Seq<u8>, d2: Seq<u8>| #[trigger] n2.power_of(id2, d2) == delegated_to(n2, id2, d2) by {
        assert(m.power_of(id2, d2) == delegated_to(m, id2, d2));
    }
}

/// The tally of `choice` on a proposal.
pub open spec fn tally_of(p: LiquidBasedVoteProposalData, choice: Choice) -> int {
    match choice {
        Choice::For => p.total_for as int,
        Choice::Against => p.total_against as int,
        Choice::Abstain => p.total_abstain as int,
    }
}

/// The three tallies of a proposal together.
pub open spec fn tallies_total(p: LiquidBasedVoteProposalData) -> int {
    p.total_for + p.total_against + p.total_abstain
}

/// The holders who voted directly on proposal `id`.
pub open spec fn direct_voters(m: LiquidModel, id: Seq<u8>) -> Set<Seq<u8>> {
    Set::new(|u: Seq<u8>| m.user_votes.contains_key((id, u)))
}

/// The weight of each direct vote on proposal `id`.
pub open spec fn direct_weight(m: LiquidModel, id: Seq<u8>) -> spec_fn(Seq<u8>) -> int {
    |u: Seq<u8>| m.user_votes[(id, u)] as int
}

/// The delegates who voted on proposal `id`.
pub open spec fn voted_delegates(m: LiquidModel, id: Seq<u8>) -> Set<Seq<u8>> {
    Set::new(|d: Seq<u8>| m.delegate_votes.contains_key((id, d)))
}

/// The power of each delegate on proposal `id`.
pub open spec fn delegate_weight(m: LiquidModel, id: Seq<u8>) -> spec_fn(Seq<u8>) -> int {
    |d: Seq<u8>| m.power_of(id, d) as int
}

/// Votes are cast on stored proposals only, and the three tallies of each proposal together
/// are the weights of its direct votes plus the power of the delegates who voted on it.
pub open spec fn tallies_are_votes(m: LiquidModel) -> bool {
    &&& m.user_votes.dom().finite()
    &&& m.delegate_votes.dom().finite()
    &&& forall|id: Seq<u8>, u: Seq<u8>| #[trigger] m.user_votes.contains_key((id, u)) ==> m.proposals.contains_key(id)
    &&& forall|id: Seq<u8>, d: Seq<u8>| #[trigger] m.delegate_votes.contains_key((id, d)) ==> m.proposals.contains_key(id)
    &&& forall|id: Seq<u8>| #[trigger] m.proposals.contains_key(id) ==> tallies_total(m.proposals[id])
        == sum_of(direct_voters(m, id), direct_weight(m, id)) + sum_of(voted_delegates(m, id), delegate_weight(m, id))
}

proof fn lemma_vote_sets_finite(m: LiquidModel, id: Seq<u8>)
    requires
        m.user_votes.dom().finite(),
        m.delegate_votes.dom().finite(),
    ensures
        direct_voters(m, id).finite(),
        voted_delegates(m, id).finite(),
{
    lemma_slice_finite::<Seq<u8>, Seq<u8>>(m.user_votes.dom(), id);
    assert(direct_voters(m, id) =~= Set::new(|b: Seq<u8>| m.user_votes.dom().contains((id, b))));
    lemma_slice_finite::<Seq<u8>, Seq<u8>>(m.delegate_votes.dom(), id);
    assert(voted_delegates(m, id) =~= Set::new(|b: Seq<u8>| m.delegate_votes.dom().contains((id, b))));
}

proof fn lemma_add_weight_total(p: LiquidBasedVoteProposalData, choice: Choice, weight: i128)
    requires
        i128::MIN <= tally_of(p, choice) + weight <= i128::MAX,
    ensures
        tallies_total(add_weight(p, choice, weight)) == tallies_total(p) + weight,
{
}

/// With no proposal and no vote, the tallies are the votes.
pub proof fn lemma_no_votes_tallies(m: LiquidModel)
    requires
        m.proposals == Map::<Seq<u8>, LiquidBasedVoteProposalData>::empty(),
        m.user_votes == Map::<(Seq<u8>, Seq<u8>), i128>::empty(),
        m.delegate_votes == Map::<(Seq<u8>, Seq<u8>), Seq<u8>>::empty(),
    ensures
        tallies_are_votes(m),
{
}

/// A new proposal starts with zero tallies and no vote on it, so the tallies stay the votes.
pub proof fn lemma_create_keeps_vote_tallies(
    m: LiquidModel,
    id: Seq<u8>,
    description: String,
    delegation_deadline: u64,
    start_time: u64,
    end_time: u64,
    now: u64,
)
    requires
        tallies_are_votes(m),
        m.create_proposal_result(id, delegation_deadline, start_time, end_time, now) is Ok,
    ensures
        tallies_are_votes(m.with_proposal(id, description, delegation_deadline, start_time, end_time)),
{
    let n = m.with_proposal(id, description, delegation_deadline, start_time, end_time);
    assert(direct_voters(m, id) =~= Set::<Seq<u8>>::empty()) by {
        assert forall|u: Seq<u8>| !direct_voters(m, id).contains(u) by {
            if m.user_votes.contains_key((id, u)) {
                assert(m.proposals.contains_key(id));
            }
        }
    }
    assert(voted_delegates(m, id) =~= Set::<Seq<u8>>::empty()) by {
        assert forall|d: Seq<u8>| !voted_delegates(m, id).contains(d) by {
            if m.delegate_votes.contains_key((id, d)) {
                assert(m.proposals.contains_key(id));
            }
        }
    }
    assert forall|id2: Seq<u8>| #[trigger] n.proposals.contains_key(id2) implies tallies_total(n.proposals[id2])
        == sum_of(direct_voters(n, id2), direct_weight(n, id2)) + sum_of(voted_delegates(n, id2), delegate_weight(n, id2)) by {
        assert(direct_voters(n, id2) == direct_voters(m, id2));
        assert(voted_delegates(n, id2) == voted_delegates(m, id2));
        assert(direct_weight(n, id2) == direct_weight(m, id2));
        assert(delegate_weight(n, id2) == delegate_weight(m, id2));
        if id2 == id {
            lemma_sum_empty(direct_weight(m, id));
            lemma_sum_empty(delegate_weight(m, id));
        }
    }
}

/// A direct vote adds the voter's balance to one tally and one voter of that weight, so the
/// tallies stay the votes, short of overflow.
pub proof fn lemma_vote_keeps_vote_tallies(
    m: LiquidModel,
    user: Seq<u8>,
    id: Seq<u8>,
    choice: Seq<u8>,
    now: u64,
    balance: i128,
)
    requires
        tallies_are_votes(m),
        choice_of(choice) is Some ==> i128::MIN <= tally_of(m.proposals[id], choice_of(choice).unwrap()) + balance
            <= i128::MAX,
    ensures
        tallies_are_votes(m.vote_next(user, id, choice, now, balance)),
{
    let n = m.vote_next(user, id, choice, now, balance);
    if m.vote_result(user, id, choice, now, balance) is Ok {
        assert(!m.user_votes.contains_key((id, user)));
        lemma_add_weight_total(m.proposals[id], choice_of(choice).unwrap(), balance);
        assert forall|id2: Seq<u8>| #[trigger] n.proposals.contains_key(id2) implies tallies_total(n.proposals[id2])
            == sum_of(direct_voters(n, id2), direct_weight(n, id2)) + sum_of(voted_delegates(n, id2), delegate_weight(n, id2)) by {
            let s = direct_voters(m, id2);
            lemma_vote_sets_finite(m, id2);
            assert(m.proposals.contains_key(id2));
            assert(voted_delegates(n, id2) == voted_delegates(m, id2));
            assert(delegate_weight(n, id2) == delegate_weight(m, id2));
            assert forall|u: Seq<u8>| s.contains(u) implies direct_weight(n, id2)(u) == direct_weight(m, id2)(u) by {
                assert(m.user_votes.contains_key((id2, u)));
            }
            lemma_sum_congruent(s, direct_weight(n, id2), direct_weight(m, id2));
            if id2 == id {
                assert(direct_voters(n, id) =~= s.insert(user));
                assert(!s.contains(user));
                lemma_sum_insert(s, direct_weight(n, id), user);
            } else {
                assert(direct_voters(n, id2) =~= s);
            }
        }
    }
}

/// A delegation to a delegate that has not yet voted on the proposal leaves the tallies the
/// votes: the power it adds is not counted until the delegate votes.
pub proof fn lemma_delegate_keeps_vote_tallies(
    m: LiquidModel,
    user: Seq<u8>,
    id: Seq<u8>,
    delegate: Seq<u8>,
    now: u64,
    balance: i128,
)
    requires
        tallies_are_votes(m),
        !m.delegate_votes.contains_key((id, delegate)),
    ensures
        tallies_are_votes(m.delegate_next(user, id, delegate, now, balance)),
{
    let n = m.delegate_next(user, id, delegate, now, balance);
    if m.delegate_result(user, id, delegate, now, balance) is Ok {
        assert forall|id2: Seq<u8>| #[trigger] n.proposals.contains_key(id2) implies tallies_total(n.proposals[id2])
            == sum_of(direct_voters(n, id2), direct_weight(n, id2)) + sum_of(voted_delegates(n, id2), delegate_weight(n, id2)) by {
            let s = voted_delegates(m, id2);
            lemma_vote_sets_finite(m, id2);
            assert(m.proposals.contains_key(id2));
            assert(direct_voters(n, id2) == direct_voters(m, id2));
            assert(direct_weight(n, id2) == direct_weight(m, id2));
            assert(voted_delegates(n, id2) == s);
            assert forall|d: Seq<u8>| s.contains(d) implies delegate_weight(n, id2)(d) == delegate_weight(m, id2)(d) by {
                assert(m.delegate_votes.contains_key((id2, d)));
            }
            lemma_sum_congruent(s, delegate_weight(n, id2), delegate_weight(m, id2));
        }
    }
}

/// A delegate's vote adds its power to one tally and one voted delegate of that power, so the
/// tallies stay the votes, short of overflow.
pub proof fn lemma_delegate_vote_keeps_vote_tallies(
    m: LiquidModel,
    delegate: Seq<u8>,
    id: Seq<u8>,
    choice: Seq<u8>,
    now: u64,
)
    requires
        tallies_are_votes(m),
        choice_of(choice) is Some ==> i128::MIN <= tally_of(m.proposals[id], choice_of(choice).unwrap())
            + m.power_of(id, delegate) <= i128::MAX,
    ensures
        tallies_are_votes(m.delegate_vote_next(delegate, id, choice, now)),
{
    let n = m.delegate_vote_next(delegate, id, choice, now);
    if m.delegate_vote_result(delegate, id, choice, now) is Ok {
        lemma_add_weight_total(m.proposals[id], choice_of(choice).unwrap(), m.power_of(id, delegate));
        assert forall|id2: Seq<u8>| #[trigger] n.proposals.contains_key(id2) implies tallies_total(n.proposals[id2])
            == sum_of(direct_voters(n, id2), direct_weight(n, id2)) + sum_of(voted_delegates(n, id2), delegate_weight(n, id2)) by {
            let s = voted_delegates(m, id2);
            lemma_vote_sets_finite(m, id2);
            assert(m.proposals.contains_key(id2));
            assert(direct_voters(n, id2) == direct_voters(m, id2));
            assert(direct_weight(n, id2) == direct_weight(m, id2));
            assert(delegate_weight(n, id2) == delegate_weight(m, id2));
            if id2 == id {
                assert(voted_delegates(n, id) =~= s.insert(delegate));
                assert(!s.contains(delegate));
                lemma_sum_insert(s, delegate_weight(m, id), delegate);
            } else {
                assert(voted_delegates(n, id2) =~= s);
            }
        }
    }
}

/// A delegate's vote takes up only its own (proposal, delegate) slot: every other delegate's
/// vote, and its own vote on every other proposal, is answered the same after it as before.
/// In particular voting on one proposal never keeps a delegate from voting on another.
pub proof fn lemma_delegate_vote_blocks_only_its_slot(
    m: LiquidModel,
    delegate: Seq<u8>,
    id: Seq<u8>,
    choice: Seq<u8>,
    now: u64,
    delegate2: Seq<u8>,
    id2: Seq<u8>,
    choice2: Seq<u8>,
    now2: u64,
)
    requires
        (id2, delegate2) != (id, delegate),
    ensures
        m.delegate_vote_next(delegate, id, choice, now).delegate_vote_result(delegate2, id2, choice2, now2)
            == m.delegate_vote_result(delegate2, id2, choice2, now2),
{
}

/// A holder's direct vote or delegation takes up only its own (proposal, holder) slot: for
/// every other holder, or every other proposal, a direct vote and a delegation are answered
/// the same after it as before. Acting on one proposal never keeps a holder from acting on
/// another.
pub proof fn lemma_action_blocks_only_its_slot(
    m: LiquidModel,
    user: Seq<u8>,
    id: Seq<u8>,
    choice: Seq<u8>,
    delegate: Seq<u8>,
    now: u64,
    balance: i128,
    user2: Seq<u8>,
    id2: Seq<u8>,
    choice2: Seq<u8>,
    delegate2: Seq<u8>,
    now2: u64,
    balance2: i128,
)
    requires
        (id2, user2) != (id, user),
    ensures
        m.vote_next(user, id, choice, now, balance).vote_result(user2, id2, choice2, now2, balance2)
            == m.vote_result(user2, id2, choice2, now2, balance2),
        m.vote_next(user, id, choice, now, balance).delegate_result(user2, id2, delegate2, now2, balance2)
            == m.delegate_result(user2, id2, delegate2, now2, balance2),
        m.delegate_next(user, id, delegate, now, balance).vote_result(user2, id2, choice2, now2, balance2)
            == m.vote_result(user2, id2, choice2, now2, balance2),
        m.delegate_next(user, id, delegate, now, balance).delegate_result(user2, id2, delegate2, now2, balance2)
            == m.delegate_result(user2, id2, delegate2, now2, balance2),
{
}

/// No more than ten delegates are ever approved: from a state with at most ten, a replacement
/// or an addition that is accepted leaves at most ten, and a removal leaves no more. An
/// addition is accepted whenever the contract is set up and the result stays within ten.
pub proof fn lemma_delegate_limit_kept(m: LiquidModel, list: Seq<Seq<u8>>)
    requires
        m.delegates.finite(),
        m.delegates.len() <= MAX_DELEGATES_NUMBER,
    ensures
        m.set_delegates_result(list) is Ok ==> list.to_set().len() <= MAX_DELEGATES_NUMBER,
        m.add_delegates_result(list) is Ok ==> (m.delegates + list.to_set()).len() <= MAX_DELEGATES_NUMBER,
        m.admin is Some && (m.delegates + list.to_set()).len() <= MAX_DELEGATES_NUMBER
            ==> m.add_delegates_result(list) is Ok,
        (m.delegates - list.to_set()).len() <= MAX_DELEGATES_NUMBER,
{
    list.lemma_cardinality_of_set();
    vstd::set_lib::lemma_len_difference(m.delegates, list.to_set());
}

/// A second constructor call is refused: the admin and the token are set once.
pub proof fn lemma_constructor_once(m: LiquidModel, admin: Seq<u8>, token: Seq<u8>)
    requires
        m.constructor_result() is Ok,
    ensures
        (LiquidModel { admin: Some(admin), token: Some(token), ..m }).constructor_result()
            == Err::<(), _>(LiquidBasedVoteContractErrors::ContractAlreadyInitialized),
{
}

} // verus!
