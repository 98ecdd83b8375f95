//! Representative voting: holders delegate their token balance to approved delegates before a
//! deadline, and may take a delegation back within a grace period; only delegates vote, with
//! the power delegated to them.
use vstd::prelude::*;
use crate::ballot::{Choice, choice_of, parse_choice, sat_add, sat_sub, saturating_add_i128, saturating_sub_i128};
use crate::bytes::{lemma_append_new_name, opt_bytes, views};
use crate::delegates::{DelegateSet, MAX_DELEGATES_NUMBER, add_all, name_set, remove_all, set_of};
use crate::sums::{lemma_slice_finite, lemma_sum_congruent, lemma_sum_empty, lemma_sum_insert, lemma_sum_nonneg, lemma_sum_remove, sum_of};
use crate::table::Table;
use crate::ttl::{spec_ttl, ttl_fits, ttl_for};

verus! {

pub const MAX_PROPOSAL_DURATION: u64 = 1_296_000;
pub const MIN_PROPOSAL_DURATION: u64 = 432000;
pub const DELEGATION_GRACE_PERIOD: u64 = 172_800;
pub const PROPOSALS_TTL_EXTENSION: u32 = 2_100_000;
pub const DELEGATES_TTL_EXTENSION: u32 = 2_100_000;
pub const DELEGATOR_TTL_EXTENSION: u32 = 1_600_000;

/// A proposal: the delegation deadline, the voting window and the three tallies.
pub struct RepresentativeVoteProposalData {
    pub description: String,
    pub delegation_deadline: u64,
    pub start_time: u64,
    pub end_time: u64,
    pub total_for: i128,
    pub total_against: i128,
    pub total_abstain: i128,
}

/// A holder's delegation on one proposal: to whom, how many tokens, and when.
pub struct RepresentativeVoteDelegationData {
    pub delegate: Vec<u8>,
    pub amount: i128,
    pub timestamp: u64,
}

impl View for RepresentativeVoteDelegationData {
    type V = (Seq<u8>, i128, u64);

    open spec fn view(&self) -> (Seq<u8>, i128, u64) {
        (self.delegate@, self.amount, self.timestamp)
    }
}

/// A delegate's standing on one proposal: the power delegated to it and its choice once it
/// voted.
pub struct RepresentativeVotePowerData {
    pub accumulated_power: i128,
    pub choice: Option<Vec<u8>>,
}

impl View for RepresentativeVotePowerData {
    type V = (i128, Option<Seq<u8>>);

    open spec fn view(&self) -> (i128, Option<Seq<u8>>) {
        (
            self.accumulated_power,
            match self.choice {
                Some(c) => Some(c@),
                None => None,
            },
        )
    }
}

/// A line of the governance overview: `status` tells whether voting is open.
pub struct RepresentativeVoteProposalSummary {
    pub id: Vec<u8>,
    pub description: String,
    pub status: bool,
}

#[derive(Clone, Copy, Debug, Eq, PartialEq, Structural)]
pub enum RepresentativeVoteContractErrors {
    ContractNotInitialized,
    ContractAlreadyInitialized,
    ProposalAlreadyExists,
    ProposalNotFound,
    DelegatorAlreadyDelegated,
    DelegatorCannotDelegate,
    VotingNotActive,
    InvalidChoice,
    StartTimeAfterEnd,
    StartTimeInPast,
    DurationTooLong,
    DurationTooShort,
    DelegateLimitReached,
    DelegateNotFound,
    DelegateAlreadyVoted,
    NotDelegate,
    DelegationDeadlineEnded,
    DelegationDeadlineInPast,
    DelegationDeadlineAfterStart,
    DelegationGracePeriodEnded,
}

/// A proposal id together with an address.
pub type Slot = (Vec<u8>, Vec<u8>);

/// The abstract state. Delegations are keyed by (proposal id, delegator) and hold the delegate,
/// the amount and the time of delegation; delegate standings are keyed by (proposal id,
/// delegate) and hold the power and the choice once voted.
#[verifier::ext_equal]
pub struct RepresentativeModel {
    pub admin: Option<Seq<u8>>,
    pub token: Option<Seq<u8>>,
    pub delegates: Set<Seq<u8>>,
    pub proposal_ids: Seq<Seq<u8>>,
    pub proposals: Map<Seq<u8>, RepresentativeVoteProposalData>,
    pub delegations: Map<(Seq<u8>, Seq<u8>), (Seq<u8>, i128, u64)>,
    pub powers: Map<(Seq<u8>, Seq<u8>), (i128, Option<Seq<u8>>)>,
}

/// The first rule that a proposal's times break, in the order in which they are checked.
pub open spec fn spec_check_times(now: u64, delegation_deadline: u64, start_time: u64, end_time: u64)
    -> Result<(), RepresentativeVoteContractErrors>
{
    if delegation_deadline < now {
        Err(RepresentativeVoteContractErrors::DelegationDeadlineInPast)
    } else if delegation_deadline >= start_time {
        Err(RepresentativeVoteContractErrors::DelegationDeadlineAfterStart)
    } else if start_time < now {
        Err(RepresentativeVoteContractErrors::StartTimeInPast)
    } else if start_time >= end_time {
        Err(RepresentativeVoteContractErrors::StartTimeAfterEnd)
    } else if end_time - start_time > MAX_PROPOSAL_DURATION {
        Err(RepresentativeVoteContractErrors::DurationTooLong)
    } else if end_time - start_time < MIN_PROPOSAL_DURATION {
        Err(RepresentativeVoteContractErrors::DurationTooShort)
    } else {
        Ok(())
    }
}

/// The proposal with `weight` more on the tally of `choice`.
pub open spec fn add_weight(p: RepresentativeVoteProposalData, choice: Choice, weight: i128)
    -> RepresentativeVoteProposalData
{
    match choice {
        Choice::For => RepresentativeVoteProposalData {
            total_for: sat_add(p.total_for as int, weight as int) as i128,
            ..p
        },
        Choice::Against => RepresentativeVoteProposalData {
            total_against: sat_add(p.total_against as int, weight as int) as i128,
            ..p
        },
        Choice::Abstain => RepresentativeVoteProposalData {
            total_abstain: sat_add(p.total_abstain as int, weight as int) as i128,
            ..p
        },
    }
}

/// A freshly created proposal: no votes yet.
pub open spec fn fresh_proposal(
    description: String,
    delegation_deadline: u64,
    start_time: u64,
    end_time: u64,
) -> RepresentativeVoteProposalData {
    RepresentativeVoteProposalData {
        description,
        delegation_deadline,
        start_time,
        end_time,
        total_for: 0,
        total_against: 0,
        total_abstain: 0,
    }
}

/// The last moment at which a delegation made at `timestamp` may be taken back: the grace
/// period after it, but no later than the delegation deadline.
pub open spec fn grace_end(timestamp: u64, delegation_deadline: u64) -> u64 {
    let grace_period_end: u64 = if timestamp + DELEGATION_GRACE_PERIOD > u64::MAX {
        u64::MAX
    } else {
        (timestamp + DELEGATION_GRACE_PERIOD) as u64
    };
    if grace_period_end < delegation_deadline {
        grace_period_end
    } else {
        delegation_deadline
    }
}

impl RepresentativeModel {
    /// What the constructor answers.
    pub open spec fn constructor_result(self) -> Result<(), RepresentativeVoteContractErrors> {
        if self.admin is Some {
            Err(RepresentativeVoteContractErrors::ContractAlreadyInitialized)
        } else {
            Ok(())
        }
    }

    /// What replacing the delegates answers: the list may not hold more than ten entries.
    pub open spec fn set_delegates_result(self, delegates: Seq<Seq<u8>>)
        -> Result<(), RepresentativeVoteContractErrors>
    {
        if self.admin is None {
            Err(RepresentativeVoteContractErrors::ContractNotInitialized)
        } else if delegates.len() > MAX_DELEGATES_NUMBER {
            Err(RepresentativeVoteContractErrors::DelegateLimitReached)
        } else {
            Ok(())
        }
    }

    /// What adding delegates answers: the set may not grow beyond ten.
    pub open spec fn add_delegates_result(self, to_add: Seq<Seq<u8>>)
        -> Result<(), RepresentativeVoteContractErrors>
    {
        if self.admin is None {
            Err(RepresentativeVoteContractErrors::ContractNotInitialized)
        } else if (self.delegates + to_add.to_set()).len() > MAX_DELEGATES_NUMBER {
            Err(RepresentativeVoteContractErrors::DelegateLimitReached)
        } else {
            Ok(())
        }
    }

    /// What creating a proposal answers.
    pub open spec fn create_proposal_result(
        self,
        id: Seq<u8>,
        delegation_deadline: u64,
        start_time: u64,
        end_time: u64,
        now: u64,
    ) -> Result<(), RepresentativeVoteContractErrors> {
        if self.admin is None {
            Err(RepresentativeVoteContractErrors::ContractNotInitialized)
        } else if spec_check_times(now, delegation_deadline, start_time, end_time) is Err {
            spec_check_times(now, delegation_deadline, start_time, end_time)
        } else if self.proposals.contains_key(id) {
            Err(RepresentativeVoteContractErrors::ProposalAlreadyExists)
        } else {
            Ok(())
        }
    }

    /// The state after a successful creation.
    pub open spec fn with_proposal(
        self,
        id: Seq<u8>,
        description: String,
        delegation_deadline: u64,
        start_time: u64,
        end_time: u64,
    ) -> RepresentativeModel {
        RepresentativeModel {
            proposal_ids: self.proposal_ids.push(id),
            proposals: self.proposals.insert(
                id,
                fresh_proposal(description, delegation_deadline, start_time, end_time),
            ),
            ..self
        }
    }

    /// The checks of a delegation made before the delegator's balance is asked for.
    pub open spec fn delegate_precheck(self, delegator: Seq<u8>, id: Seq<u8>, delegate: Seq<u8>, now: u64)
        -> Result<(), RepresentativeVoteContractErrors>
    {
        if !self.proposals.contains_key(id) {
            Err(RepresentativeVoteContractErrors::ProposalNotFound)
        } else if now >= self.proposals[id].delegation_deadline {
            Err(RepresentativeVoteContractErrors::DelegationDeadlineEnded)
        } else if self.delegations.contains_key((id, delegator)) {
            Err(RepresentativeVoteContractErrors::DelegatorAlreadyDelegated)
        } else if !self.delegates.contains(delegate) {
            Err(RepresentativeVoteContractErrors::DelegateNotFound)
        } else if self.token is None {
            Err(RepresentativeVoteContractErrors::ContractNotInitialized)
        } else {
            Ok(())
        }
    }

    /// What a delegation answers, `balance` being the delegator's token balance.
    pub open spec fn delegate_result(
        self,
        delegator: Seq<u8>,
        id: Seq<u8>,
        delegate: Seq<u8>,
        now: u64,
        balance: i128,
    ) -> Result<(), RepresentativeVoteContractErrors> {
        if self.delegate_precheck(delegator, id, delegate, now) is Err {
            self.delegate_precheck(delegator, id, delegate, now)
        } else if balance <= 0 {
            Err(RepresentativeVoteContractErrors::DelegatorCannotDelegate)
        } else {
            Ok(())
        }
    }

    /// The state after a delegation, whatever it answered: the delegate's power grows by the
    /// balance, and the delegation is recorded with its time.
    pub open spec fn delegate_next(
        self,
        delegator: Seq<u8>,
        id: Seq<u8>,
        delegate: Seq<u8>,
        now: u64,
        balance: i128,
    ) -> RepresentativeModel {
        if self.delegate_result(delegator, id, delegate, now, balance) is Ok {
            RepresentativeModel {
                powers: self.powers.insert(
                    (id, delegate),
                    if self.powers.contains_key((id, delegate)) {
                        (
                            sat_add(self.powers[(id, delegate)].0 as int, balance as int) as i128,
                            self.powers[(id, delegate)].1,
                        )
                    } else {
                        (balance, None)
                    },
                ),
                delegations: self.delegations.insert((id, delegator), (delegate, balance, now)),
                ..self
            }
        } else {
            self
        }
    }

    /// What taking a delegation back answers.
    pub open spec fn revoke_result(self, delegator: Seq<u8>, id: Seq<u8>, now: u64)
        -> Result<(), RepresentativeVoteContractErrors>
    {
        if !self.proposals.contains_key(id) {
            Err(RepresentativeVoteContractErrors::ProposalNotFound)
        } else if now >= self.proposals[id].delegation_deadline {
            Err(RepresentativeVoteContractErrors::DelegationDeadlineEnded)
        } else if !self.delegations.contains_key((id, delegator)) {
            Err(RepresentativeVoteContractErrors::DelegatorAlreadyDelegated)
        } else if now > grace_end(
            self.delegations[(id, delegator)].2,
            self.proposals[id].delegation_deadline,
        ) {
            Err(RepresentativeVoteContractErrors::DelegationGracePeriodEnded)
        } else {
            Ok(())
        }
    }

    /// The state after taking a delegation back, whatever it answered: the delegate loses the
    /// amount, and its standing is dropped once no power is left; the delegation is dropped.
    pub open spec fn revoke_next(self, delegator: Seq<u8>, id: Seq<u8>, now: u64) -> RepresentativeModel {
        if self.revoke_result(delegator, id, now) is Ok {
            let d = self.delegations[(id, delegator)];
            let slot = (id, d.0);
            RepresentativeModel {
                powers: if self.powers.contains_key(slot) {
                    if sat_sub(self.powers[slot].0 as int, d.1 as int) > 0 {
                        self.powers.insert(
                            slot,
                            (sat_sub(self.powers[slot].0 as int, d.1 as int) as i128, self.powers[slot].1),
                        )
                    } else {
                        self.powers.remove(slot)
                    }
                } else {
                    self.powers
                },
                delegations: self.delegations.remove((id, delegator)),
                ..self
            }
        } else {
            self
        }
    }

    /// The power and choice of `delegate` on proposal `id`: none and no choice by default.
    pub open spec fn standing(self, id: Seq<u8>, delegate: Seq<u8>) -> (i128, Option<Seq<u8>>) {
        if self.powers.contains_key((id, delegate)) {
            self.powers[(id, delegate)]
        } else {
            (0, None)
        }
    }

    /// What a delegate's vote answers.
    pub open spec fn vote_result(self, delegate: Seq<u8>, id: Seq<u8>, choice: Seq<u8>, now: u64)
        -> Result<(), RepresentativeVoteContractErrors>
    {
        if !self.delegates.contains(delegate) {
            Err(RepresentativeVoteContractErrors::NotDelegate)
        } else if !self.proposals.contains_key(id) {
            Err(RepresentativeVoteContractErrors::ProposalNotFound)
        } else if now < self.proposals[id].start_time || now > self.proposals[id].end_time {
            Err(RepresentativeVoteContractErrors::VotingNotActive)
        } else if self.standing(id, delegate).1 is Some {
            Err(RepresentativeVoteContractErrors::DelegateAlreadyVoted)
        } else if choice_of(choice) is None {
            Err(RepresentativeVoteContractErrors::InvalidChoice)
        } else {
            Ok(())
        }
    }

    /// The state after a delegate's vote, whatever it answered.
    pub open spec fn vote_next(self, delegate: Seq<u8>, id: Seq<u8>, choice: Seq<u8>, now: u64)
        -> RepresentativeModel
    {
        if self.vote_result(delegate, id, choice, now) is Ok {
            RepresentativeModel {
                proposals: self.proposals.insert(
                    id,
                    add_weight(self.proposals[id], choice_of(choice).unwrap(), self.standing(id, delegate).0),
                ),
                powers: self.powers.insert((id, delegate), (self.standing(id, delegate).0, Some(choice))),
                ..self
            }
        } else {
            self
        }
    }

    /// Whether `delegator` may still take back its delegation on proposal `id` at `now`, and
    /// how long it has left to do so.
    pub open spec fn grace_status(self, delegator: Seq<u8>, id: Seq<u8>, now: u64) -> (bool, u64) {
        if !self.proposals.contains_key(id) {
            (false, 0)
        } else if now >= self.proposals[id].delegation_deadline {
            (false, 0)
        } else if !self.delegations.contains_key((id, delegator)) {
            (false, 0)
        } else {
            let end = grace_end(self.delegations[(id, delegator)].2, self.proposals[id].delegation_deadline);
            if now <= end {
                (true, (end - now) as u64)
            } else {
                (false, 0)
            }
        }
    }

    /// What `delegator`'s line for proposal `id` reports: whether it delegated, the amount
    /// delegated or, for a delegate, the power delegated to it, and whether and for how long the
    /// delegation can still be taken back.
    pub open spec fn delegator_entry(self, delegator: Seq<u8>, id: Seq<u8>, now: u64) -> (bool, i128, bool, u64) {
        if self.delegations.contains_key((id, delegator)) {
            (
                true,
                self.delegations[(id, delegator)].1,
                self.grace_status(delegator, id, now).0,
                self.grace_status(delegator, id, now).1,
            )
        } else if self.delegates.contains(delegator) {
            (false, self.standing(id, delegator).0, false, 0)
        } else {
            (false, 0, false, 0)
        }
    }
}

impl RepresentativeVoteProposalData {
    /// A copy of the proposal.
    pub fn copy(&self) -> (r: RepresentativeVoteProposalData)
        ensures
            r == *self,
    {
        RepresentativeVoteProposalData {
            description: self.description.clone(),
            delegation_deadline: self.delegation_deadline,
            start_time: self.start_time,
            end_time: self.end_time,
            total_for: self.total_for,
            total_against: self.total_against,
            total_abstain: self.total_abstain,
        }
    }

    /// Adds `weight` to the tally of `choice`, saturating.
    fn add_weight(&mut self, choice: Choice, weight: i128)
        ensures
            *final(self) == add_weight(*old(self), choice, weight),
    {
        match choice {
            Choice::For => {
                self.total_for = saturating_add_i128(self.total_for, weight);
            },
            Choice::Against => {
                self.total_against = saturating_add_i128(self.total_against, weight);
            },
            Choice::Abstain => {
                self.total_abstain = saturating_add_i128(self.total_abstain, weight);
            },
        }
    }
}

impl RepresentativeVoteDelegationData {
    /// A copy of the delegation.
    pub fn copy(&self) -> (r: RepresentativeVoteDelegationData)
        ensures
            r@ == self@,
    {
        RepresentativeVoteDelegationData {
            delegate: self.delegate.clone(),
            amount: self.amount,
            timestamp: self.timestamp,
        }
    }
}

/// The stored state of a representative vote contract. Addresses and proposal ids are held by
/// their bytes.
pub struct RepresentativeVoteContract {
    admin: Option<Vec<u8>>,
    token: Option<Vec<u8>>,
    delegates: DelegateSet,
    proposal_ids: Vec<Vec<u8>>,
    proposals: Table<Vec<u8>, RepresentativeVoteProposalData>,
    delegations: Table<Slot, RepresentativeVoteDelegationData>,
    powers: Table<Slot, RepresentativeVotePowerData>,
}

impl RepresentativeVoteContract {
    pub closed spec fn ids(&self) -> Seq<Seq<u8>> {
        views(self.proposal_ids@)
    }

    /// The abstract state of the contract.
    pub closed spec fn view(&self) -> RepresentativeModel {
        RepresentativeModel {
            admin: match self.admin {
                Some(a) => Some(a@),
                None => None,
            },
            token: match self.token {
                Some(t) => Some(t@),
                None => None,
            },
            delegates: self.delegates@.dom(),
            proposal_ids: self.ids(),
            proposals: self.proposals@,
            delegations: self.delegations@.map_values(|d: RepresentativeVoteDelegationData| d@),
            powers: self.powers@.map_values(|p: RepresentativeVotePowerData| p@),
        }
    }

    /// The stored state is consistent: every table is well formed and the id list names each
    /// stored proposal exactly once.
    pub closed spec fn wf(&self) -> bool {
        &&& self.delegates.wf()
        &&& self.proposals.wf()
        &&& self.delegations.wf()
        &&& self.powers.wf()
        &&& self.ids().no_duplicates()
        &&& forall|k: Seq<u8>| self.proposals@.contains_key(k) <==> self.ids().contains(k)
    }

    /// Storage before the constructor has run: nothing is stored.
    pub fn new() -> (c: Self)
        ensures
            c.wf(),
            c.view() == (RepresentativeModel {
                admin: None,
                token: None,
                delegates: Set::empty(),
                proposal_ids: Seq::empty(),
                proposals: Map::empty(),
                delegations: Map::empty(),
                powers: Map::empty(),
            }),
    {
        let c = RepresentativeVoteContract {
            admin: None,
            token: None,
            delegates: Table::new(),
            proposal_ids: Vec::new(),
            proposals: Table::new(),
            delegations: Table::new(),
            powers: Table::new(),
        };
        assert(c.ids() =~= Seq::<Seq<u8>>::empty());
        assert(c.view().delegates =~= Set::empty());
        assert(c.view().delegations =~= Map::empty());
        assert(c.view().powers =~= Map::empty());
        c
    }

    /// The admin address, once set.
    pub fn admin(&self) -> (r: Option<&Vec<u8>>)
        ensures
            match r {
                Some(a) => self.view().admin == Some(a@),
                None => self.view().admin is None,
            },
    {
        match &self.admin {
            Some(a) => Some(a),
            None => None,
        }
    }

    /// The governance token's address, once set.
    pub fn token(&self) -> (r: Option<&Vec<u8>>)
        ensures
            match r {
                Some(t) => self.view().token == Some(t@),
                None => self.view().token is None,
            },
    {
        match &self.token {
            Some(t) => Some(t),
            None => None,
        }
    }

    /// Rebuilds the stored state from its parts. `None` where a table repeats a key or the id
    /// list does not name each stored proposal exactly once.
    pub fn from_parts(
        admin: Option<Vec<u8>>,
        token: Option<Vec<u8>>,
        delegates: DelegateSet,
        proposal_ids: Vec<Vec<u8>>,
        proposals: Table<Vec<u8>, RepresentativeVoteProposalData>,
        delegations: Table<Slot, RepresentativeVoteDelegationData>,
        powers: Table<Slot, RepresentativeVotePowerData>,
    ) -> (r: Option<Self>)
        ensures
            r is Some <==> (delegates.wf() && proposals.wf() && delegations.wf() && powers.wf()
                && views(proposal_ids@).no_duplicates()
                && forall|k: Seq<u8>| proposals@.contains_key(k) <==> views(proposal_ids@).contains(k)),
            r matches Some(c) ==> c.wf() && c.view() == (RepresentativeModel {
                admin: opt_bytes(admin),
                token: opt_bytes(token),
                delegates: delegates@.dom(),
                proposal_ids: views(proposal_ids@),
                proposals: proposals@,
                delegations: delegations@.map_values(|d: RepresentativeVoteDelegationData| d@),
                powers: powers@.map_values(|p: RepresentativeVotePowerData| p@),
            }),
    {
        if !delegates.is_well_formed() || !proposals.is_well_formed() || !delegations.is_well_formed()
            || !powers.is_well_formed() {
            return None;
        }
        if !proposals.lists_keys_once(&proposal_ids) {
            return None;
        }
        Some(RepresentativeVoteContract { admin, token, delegates, proposal_ids, proposals, delegations, powers })
    }

    /// The approved delegates.
    pub fn delegates(&self) -> (r: &DelegateSet)
        requires
            self.wf(),
        ensures
            r.wf(),
            r@.dom() == self.view().delegates,
    {
        &self.delegates
    }

    /// The proposal ids, in order of creation.
    pub fn proposal_ids(&self) -> (r: &Vec<Vec<u8>>)
        ensures
            views(r@) == self.view().proposal_ids,
    {
        &self.proposal_ids
    }

    /// The stored proposals, by id.
    pub fn proposals(&self) -> (r: &Table<Vec<u8>, RepresentativeVoteProposalData>)
        requires
            self.wf(),
        ensures
            r.wf(),
            r@ == self.view().proposals,
    {
        &self.proposals
    }

    /// The delegations, by (proposal id, delegator).
    pub fn delegations(&self) -> (r: &Table<Slot, RepresentativeVoteDelegationData>)
        requires
            self.wf(),
        ensures
            r.wf(),
            r@.map_values(|d: RepresentativeVoteDelegationData| d@) == self.view().delegations,
    {
        &self.delegations
    }

    /// The delegates' standings, by (proposal id, delegate).
    pub fn powers(&self) -> (r: &Table<Slot, RepresentativeVotePowerData>)
        requires
            self.wf(),
        ensures
            r.wf(),
            r@.map_values(|p: RepresentativeVotePowerData| p@) == self.view().powers,
    {
        &self.powers
    }

    /// The lifetime of a proposal: its remaining time plus a week, at least
    /// `PROPOSALS_TTL_EXTENSION`.
    pub fn calculate_proposal_ttl(ledger_time: u64, proposal_end_time: u64) -> (r: u32)
        requires
            ttl_fits(ledger_time, proposal_end_time),
        ensures
            r == spec_ttl(ledger_time, proposal_end_time, PROPOSALS_TTL_EXTENSION),
    {
        ttl_for(ledger_time, proposal_end_time, PROPOSALS_TTL_EXTENSION)
    }

    /// The lifetime of a delegation or a delegate's standing: the proposal's remaining time
    /// plus a week, at least `DELEGATOR_TTL_EXTENSION`.
    pub fn calculate_delegation_ttl(ledger_time: u64, proposal_end_time: u64) -> (r: u32)
        requires
            ttl_fits(ledger_time, proposal_end_time),
        ensures
            r == spec_ttl(ledger_time, proposal_end_time, DELEGATOR_TTL_EXTENSION),
    {
        ttl_for(ledger_time, proposal_end_time, DELEGATOR_TTL_EXTENSION)
    }

    /// Sets the admin and the token, once.
    pub fn __constructor(&mut self, admin: Vec<u8>, token: Vec<u8>)
        -> (r: Result<(), RepresentativeVoteContractErrors>)
        requires
            old(self).wf(),
        ensures
            final(self).wf(),
            r == old(self).view().constructor_result(),
            r is Ok ==> final(self).view() == (RepresentativeModel {
                admin: Some(admin@),
                token: Some(token@),
                ..old(self).view()
            }),
            r is Err ==> final(self).view() == old(self).view(),
    {
        if self.admin.is_some() {
            return Err(RepresentativeVoteContractErrors::ContractAlreadyInitialized);
        }
        self.admin = Some(admin);
        self.token = Some(token);
        Ok(())
    }

    /// Replaces the approved delegates by those of `delegates`, a list of at most ten
    /// entries. The admin authorizes the call.
    pub fn set_delegates(&mut self, delegates: Vec<Vec<u8>>) -> (r: Result<(), RepresentativeVoteContractErrors>)
        requires
            old(self).wf(),
        ensures
            final(self).wf(),
            r == old(self).view().set_delegates_result(views(delegates@)),
            r is Ok ==> final(self).view() == (RepresentativeModel {
                delegates: name_set(delegates@),
                ..old(self).view()
            }),
            r is Err ==> final(self).view() == old(self).view(),
    {
        if self.admin.is_none() {
            return Err(RepresentativeVoteContractErrors::ContractNotInitialized);
        }
        if delegates.len() > MAX_DELEGATES_NUMBER as usize {
            return Err(RepresentativeVoteContractErrors::DelegateLimitReached);
        }
        self.delegates = set_of(&delegates);
        Ok(())
    }

    /// Adds the addresses of `to_add` to the approved delegates, unless there would then be
    /// more than ten. The admin authorizes the call.
    pub fn add_delegates(&mut self, to_add: Vec<Vec<u8>>) -> (r: Result<(), RepresentativeVoteContractErrors>)
        requires
            old(self).wf(),
        ensures
            final(self).wf(),
            r == old(self).view().add_delegates_result(views(to_add@)),
            r is Ok ==> final(self).view() == (RepresentativeModel {
                delegates: old(self).view().delegates + name_set(to_add@),
                ..old(self).view()
            }),
            r is Err ==> final(self).view() == old(self).view(),
    {
        if self.admin.is_none() {
            return Err(RepresentativeVoteContractErrors::ContractNotInitialized);
        }
        let mut delegates_map = self.delegates.copy();
        add_all(&mut delegates_map, &to_add);
        if delegates_map.len() > MAX_DELEGATES_NUMBER as usize {
            return Err(RepresentativeVoteContractErrors::DelegateLimitReached);
        }
        self.delegates = delegates_map;
        Ok(())
    }

    /// Removes the addresses of `to_remove` from the approved delegates. The admin authorizes
    /// the call.
    pub fn remove_delegates(&mut self, to_remove: Vec<Vec<u8>>) -> (r: Result<(), RepresentativeVoteContractErrors>)
        requires
            old(self).wf(),
        ensures
            final(self).wf(),
            r is Err <==> old(self).view().admin is None,
            r is Err ==> r == Err::<(), _>(RepresentativeVoteContractErrors::ContractNotInitialized)
                && final(self).view() == old(self).view(),
            r is Ok ==> final(self).view() == (RepresentativeModel {
                delegates: old(self).view().delegates - name_set(to_remove@),
                ..old(self).view()
            }),
    {
        if self.admin.is_none() {
            return Err(RepresentativeVoteContractErrors::ContractNotInitialized);
        }
        remove_all(&mut self.delegates, &to_remove);
        Ok(())
    }

    /// Checks a proposal's delegation deadline and voting window.
    pub fn check_proposal_times(now: u64, delegation_deadline: u64, start_time: u64, end_time: u64)
        -> (r: Result<(), RepresentativeVoteContractErrors>)
        ensures
            r == spec_check_times(now, delegation_deadline, start_time, end_time),
            r is Ok <==> (now <= delegation_deadline && delegation_deadline < start_time
                && start_time < end_time
                && MIN_PROPOSAL_DURATION <= end_time - start_time <= MAX_PROPOSAL_DURATION),
    {
        if delegation_deadline < now {
            return Err(RepresentativeVoteContractErrors::DelegationDeadlineInPast);
        }
        if delegation_deadline >= start_time {
            return Err(RepresentativeVoteContractErrors::DelegationDeadlineAfterStart);
        }
        if start_time < now {
            return Err(RepresentativeVoteContractErrors::StartTimeInPast);
        }
        if start_time >= end_time {
            return Err(RepresentativeVoteContractErrors::StartTimeAfterEnd);
        }
        if end_time - start_time > MAX_PROPOSAL_DURATION {
            return Err(RepresentativeVoteContractErrors::DurationTooLong);
        }
        if end_time - start_time < MIN_PROPOSAL_DURATION {
            return Err(RepresentativeVoteContractErrors::DurationTooShort);
        }
        Ok(())
    }

    /// Creates a proposal with no votes and appends its id to the list. The admin authorizes
    /// the call.
    pub fn create_proposal(
        &mut self,
        id: Vec<u8>,
        description: String,
        delegation_deadline: u64,
        start_time: u64,
        end_time: u64,
        now: u64,
    ) -> (r: Result<(), RepresentativeVoteContractErrors>)
        requires
            old(self).wf(),
        ensures
            final(self).wf(),
            r == old(self).view().create_proposal_result(id@, delegation_deadline, start_time, end_time, now),
            r is Ok ==> final(self).view() == old(self).view().with_proposal(
                id@,
                description,
                delegation_deadline,
                start_time,
                end_time,
            ),
            r is Err ==> final(self).view() == old(self).view(),
    {
        if self.admin.is_none() {
            return Err(RepresentativeVoteContractErrors::ContractNotInitialized);
        }
        Self::check_proposal_times(now, delegation_deadline, start_time, end_time)?;
        if self.proposals.contains_key(&id) {
            return Err(RepresentativeVoteContractErrors::ProposalAlreadyExists);
        }
        let ghost old_ids = self.ids();
        let ghost old_dom = self.proposals@.dom();
        let proposal = RepresentativeVoteProposalData {
            description,
            delegation_deadline,
            start_time,
            end_time,
            total_for: 0,
            total_against: 0,
            total_abstain: 0,
        };
        self.proposals.insert(id.clone(), proposal);
        self.proposal_ids.push(id);
        proof {
            assert(self.ids() =~= old_ids.push(id@));
            lemma_append_new_name(old_ids, old_dom, id@);
            assert(self.proposals@.dom() =~= old_dom.insert(id@));
        }
        Ok(())
    }

    /// The checks of a delegation that come before the delegator's balance is needed. On
    /// success, gives the address of the token whose balance the delegation needs.
    pub fn check_delegate(&self, delegator: &Vec<u8>, id: &Vec<u8>, delegate_address: &Vec<u8>, now: u64)
        -> (r: Result<&Vec<u8>, RepresentativeVoteContractErrors>)
        requires
            self.wf(),
        ensures
            match r {
                Ok(t) => self.view().delegate_precheck(delegator@, id@, delegate_address@, now) is Ok
                    && self.view().token == Some(t@),
                Err(e) => self.view().delegate_precheck(delegator@, id@, delegate_address@, now)
                    == Err::<(), _>(e),
            },
    {
        let proposal = match self.proposals.get(id) {
            Some(p) => p,
            None => return Err(RepresentativeVoteContractErrors::ProposalNotFound),
        };
        if now >= proposal.delegation_deadline {
            return Err(RepresentativeVoteContractErrors::DelegationDeadlineEnded);
        }
        let key = (id.clone(), delegator.clone());
        if self.delegations.contains_key(&key) {
            return Err(RepresentativeVoteContractErrors::DelegatorAlreadyDelegated);
        }
        if !self.delegates.contains_key(delegate_address) {
            return Err(RepresentativeVoteContractErrors::DelegateNotFound);
        }
        match &self.token {
            Some(t) => Ok(t),
            None => Err(RepresentativeVoteContractErrors::ContractNotInitialized),
        }
    }

    /// Delegates `delegator`'s token `balance`, which must be positive, to an approved
    /// delegate for proposal `id`, before the delegation deadline, once. The delegator
    /// authorizes the call.
    pub fn delegate(
        &mut self,
        delegator: Vec<u8>,
        id: Vec<u8>,
        delegate_address: Vec<u8>,
        now: u64,
        balance: i128,
    ) -> (r: Result<(), RepresentativeVoteContractErrors>)
        requires
            old(self).wf(),
        ensures
            final(self).wf(),
            r == old(self).view().delegate_result(delegator@, id@, delegate_address@, now, balance),
            final(self).view() == old(self).view().delegate_next(delegator@, id@, delegate_address@, now, balance),
    {
        match self.check_delegate(&delegator, &id, &delegate_address, now) {
            Ok(_) => {},
            Err(e) => return Err(e),
        }
        if balance <= 0 {
            return Err(RepresentativeVoteContractErrors::DelegatorCannotDelegate);
        }
        let ghost old_view = self.view();
        let power_key = (id.clone(), delegate_address.clone());
        let new_power_data = match self.powers.remove(&power_key) {
            Some(data) => RepresentativeVotePowerData {
                accumulated_power: saturating_add_i128(data.accumulated_power, balance),
                choice: data.choice,
            },
            None => RepresentativeVotePowerData { accumulated_power: balance, choice: None },
        };
        self.powers.insert(power_key, new_power_data);
        let delegation = RepresentativeVoteDelegationData {
            delegate: delegate_address,
            amount: balance,
            timestamp: now,
        };
        self.delegations.insert((id, delegator), delegation);
        proof {
            let target = old_view.delegate_next(delegator@, id@, delegate_address@, now, balance);
            assert(self.view().powers =~= target.powers);
            assert(self.view().delegations =~= target.delegations);
        }
        Ok(())
    }

    /// Takes back `delegator`'s delegation on proposal `id`, before the delegation deadline
    /// and within the grace period after delegating: the delegate loses the amount. The
    /// delegator authorizes the call.
    pub fn revoke_delegation(&mut self, delegator: Vec<u8>, id: Vec<u8>, now: u64)
        -> (r: Result<(), RepresentativeVoteContractErrors>)
        requires
            old(self).wf(),
        ensures
            final(self).wf(),
            r == old(self).view().revoke_result(delegator@, id@, now),
            final(self).view() == old(self).view().revoke_next(delegator@, id@, now),
    {
        let deadline = match self.proposals.get(&id) {
            Some(proposal) => proposal.delegation_deadline,
            None => return Err(RepresentativeVoteContractErrors::ProposalNotFound),
        };
        if now >= deadline {
            return Err(RepresentativeVoteContractErrors::DelegationDeadlineEnded);
        }
        let key = (id.clone(), delegator.clone());
        let (delegate, amount, timestamp) = match self.delegations.get(&key) {
            Some(d) => (d.delegate.clone(), d.amount, d.timestamp),
            None => return Err(RepresentativeVoteContractErrors::DelegatorAlreadyDelegated),
        };
        let grace_period_end = timestamp.saturating_add(DELEGATION_GRACE_PERIOD);
        let effective_grace_end = if grace_period_end < deadline {
            grace_period_end
        } else {
            deadline
        };
        if now > effective_grace_end {
            return Err(RepresentativeVoteContractErrors::DelegationGracePeriodEnded);
        }
        let ghost old_view = self.view();
        let power_key = (id.clone(), delegate);
        match self.powers.remove(&power_key) {
            Some(data) => {
                let remaining = saturating_sub_i128(data.accumulated_power, amount);
                if remaining > 0 {
                    self.powers.insert(
                        power_key,
                        RepresentativeVotePowerData { accumulated_power: remaining, choice: data.choice },
                    );
                }
            },
            None => {},
        }
        self.delegations.remove(&key);
        proof {
            let target = old_view.revoke_next(delegator@, id@, now);
            assert(self.view().powers =~= target.powers);
            assert(self.view().delegations =~= target.delegations);
        }
        Ok(())
    }

    /// Casts `delegate`'s vote on proposal `id` with the power delegated to it there, during
    /// the voting window, once. The delegate authorizes the call.
    pub fn vote(&mut self, delegate: Vec<u8>, id: Vec<u8>, choice: &Vec<u8>, now: u64)
        -> (r: Result<(), RepresentativeVoteContractErrors>)
        requires
            old(self).wf(),
        ensures
            final(self).wf(),
            r == old(self).view().vote_result(delegate@, id@, choice@, now),
            final(self).view() == old(self).view().vote_next(delegate@, id@, choice@, now),
    {
        if !self.delegates.contains_key(&delegate) {
            return Err(RepresentativeVoteContractErrors::NotDelegate);
        }
        match self.proposals.get(&id) {
            Some(proposal) => {
                if now < proposal.start_time || now > proposal.end_time {
                    return Err(RepresentativeVoteContractErrors::VotingNotActive);
                }
            },
            None => return Err(RepresentativeVoteContractErrors::ProposalNotFound),
        }
        let key = (id.clone(), delegate.clone());
        let power: i128 = match self.powers.get(&key) {
            Some(data) => {
                if data.choice.is_some() {
                    return Err(RepresentativeVoteContractErrors::DelegateAlreadyVoted);
                }
                data.accumulated_power
            },
            None => 0,
        };
        let c = match parse_choice(choice) {
            Some(c) => c,
            None => return Err(RepresentativeVoteContractErrors::InvalidChoice),
        };
        let ghost old_view = self.view();
        let mut proposal = match self.proposals.remove(&id) {
            Some(p) => p,
            None => return Err(RepresentativeVoteContractErrors::ProposalNotFound),
        };
        proposal.add_weight(c, power);
        self.proposals.insert(id, proposal);
        self.powers.insert(key, RepresentativeVotePowerData { accumulated_power: power, choice: Some(choice.clone()) });
        proof {
            let target = old_view.vote_next(delegate@, id@, choice@, now);
            assert(self.view().proposals =~= target.proposals);
            assert(self.view().powers =~= target.powers);
        }
        Ok(())
    }

    /// Hands the admin role to `new_admin`. The current admin authorizes the call.
    pub fn transfer_admin(&mut self, new_admin: Vec<u8>) -> (r: Result<(), RepresentativeVoteContractErrors>)
        requires
            old(self).wf(),
        ensures
            final(self).wf(),
            r is Err <==> old(self).view().admin is None,
            r is Err ==> r == Err::<(), _>(RepresentativeVoteContractErrors::ContractNotInitialized)
                && final(self).view() == old(self).view(),
            r is Ok ==> final(self).view() == (RepresentativeModel { admin: Some(new_admin@), ..old(self).view() }),
    {
        if self.admin.is_none() {
            return Err(RepresentativeVoteContractErrors::ContractNotInitialized);
        }
        self.admin = Some(new_admin);
        Ok(())
    }

    /// One summary per proposal, in order of creation; `status` tells whether `now` lies in
    /// the voting window.
    pub fn get_governance_details(&self, now: u64) -> (r: Vec<RepresentativeVoteProposalSummary>)
        requires
            self.wf(),
        ensures
            r@.len() == self.view().proposal_ids.len(),
            forall|i: int| 0 <= i < r@.len() ==> {
                let id = #[trigger] self.view().proposal_ids[i];
                let p = self.view().proposals[id];
                &&& r@[i].id@ == id
                &&& r@[i].description == p.description
                &&& r@[i].status == (p.start_time <= now && now <= p.end_time)
            },
    {
        let mut summary: Vec<RepresentativeVoteProposalSummary> = Vec::new();
        let n = self.proposal_ids.len();
        let mut i: usize = 0;
        while i < n
            invariant
                self.wf(),
                n == self.proposal_ids@.len(),
                i <= n,
                summary@.len() == i,
                forall|j: int| 0 <= j < i ==> {
                    let id = #[trigger] self.ids()[j];
                    let p = self.proposals@[id];
                    &&& summary@[j].id@ == id
                    &&& summary@[j].description == p.description
                    &&& summary@[j].status == (p.start_time <= now && now <= p.end_time)
                },
            decreases n - i,
        {
            let id = &self.proposal_ids[i];
            assert(self.ids()[i as int] == id@);
            match self.proposals.get(id) {
                Some(proposal) => {
                    let status = now >= proposal.start_time && now <= proposal.end_time;
                    summary.push(RepresentativeVoteProposalSummary {
                        id: id.clone(),
                        description: proposal.description.clone(),
                        status,
                    });
                },
                None => {
                    assert(self.ids().contains(id@));
                    assert(false);
                },
            }
            i = i + 1;
        }
        summary
    }

    /// The stored proposal `id`.
    pub fn get_proposal_details(&self, id: &Vec<u8>)
        -> (r: Result<RepresentativeVoteProposalData, RepresentativeVoteContractErrors>)
        requires
            self.wf(),
        ensures
            match r {
                Ok(p) => self.view().proposals.contains_key(id@) && p == self.view().proposals[id@],
                Err(e) => !self.view().proposals.contains_key(id@)
                    && e == RepresentativeVoteContractErrors::ProposalNotFound,
            },
    {
        match self.proposals.get(id) {
            Some(p) => Ok(p.copy()),
            None => Err(RepresentativeVoteContractErrors::ProposalNotFound),
        }
    }

    /// Whether `delegator` may take back its delegation on proposal `id` at `now` and how long
    /// it has left, with the delegation and the proposal that were read to decide it.
    pub fn calculate_grace_period_status(&self, delegator: &Vec<u8>, id: &Vec<u8>, now: u64) -> (r: (
        (bool, u64),
        Option<RepresentativeVoteDelegationData>,
        Option<RepresentativeVoteProposalData>,
    ))
        requires
            self.wf(),
        ensures
            r.0 == self.view().grace_status(delegator@, id@, now),
            match r.2 {
                Some(p) => self.view().proposals.contains_key(id@) && p == self.view().proposals[id@],
                None => !self.view().proposals.contains_key(id@),
            },
            match r.1 {
                Some(d) => self.view().proposals.contains_key(id@)
                    && now < self.view().proposals[id@].delegation_deadline
                    && self.view().delegations.contains_key((id@, delegator@))
                    && d@ == self.view().delegations[(id@, delegator@)],
                None => !self.view().proposals.contains_key(id@)
                    || now >= self.view().proposals[id@].delegation_deadline
                    || !self.view().delegations.contains_key((id@, delegator@)),
            },
    {
        let proposal = match self.proposals.get(id) {
            Some(p) => p.copy(),
            None => return ((false, 0), None, None),
        };
        if now >= proposal.delegation_deadline {
            return ((false, 0), None, Some(proposal));
        }
        let key = (id.clone(), delegator.clone());
        let delegation = match self.delegations.get(&key) {
            Some(d) => d.copy(),
            None => return ((false, 0), None, Some(proposal)),
        };
        let grace_period_end = delegation.timestamp.saturating_add(DELEGATION_GRACE_PERIOD);
        let effective_grace_end = if grace_period_end < proposal.delegation_deadline {
            grace_period_end
        } else {
            proposal.delegation_deadline
        };
        let result = if now <= effective_grace_end {
            let remaining_time = effective_grace_end - now;
            (true, remaining_time)
        } else {
            (false, 0)
        };
        (result, Some(delegation), Some(proposal))
    }

    /// Whether `delegator` may take back its delegation on proposal `id` at `now`, and how long
    /// it has left.
    pub fn check_revocation_eligibility(&self, delegator: &Vec<u8>, id: &Vec<u8>, now: u64) -> (r: (bool, u64))
        requires
            self.wf(),
        ensures
            r == self.view().grace_status(delegator@, id@, now),
    {
        self.calculate_grace_period_status(delegator, id, now).0
    }

    /// For each proposal, in order of creation: its id, whether `delegator` delegated on it,
    /// the amount delegated (or, for a delegate, the power delegated to it), and whether and
    /// for how long the delegation can still be taken back at `now`.
    pub fn get_delegator_details(&self, delegator: &Vec<u8>, now: u64)
        -> (r: Result<Vec<(Vec<u8>, bool, i128, bool, u64)>, RepresentativeVoteContractErrors>)
        requires
            self.wf(),
        ensures
            r matches Ok(v) && v@.len() == self.view().proposal_ids.len()
                && forall|i: int| 0 <= i < v@.len() ==> {
                    let id = #[trigger] self.view().proposal_ids[i];
                    &&& v@[i].0@ == id
                    &&& (v@[i].1, v@[i].2, v@[i].3, v@[i].4) == self.view().delegator_entry(delegator@, id, now)
                },
    {
        let is_delegate = self.delegates.contains_key(delegator);
        let mut results: Vec<(Vec<u8>, bool, i128, bool, u64)> = Vec::new();
        let n = self.proposal_ids.len();
        let mut i: usize = 0;
        while i < n
            invariant
                self.wf(),
                n == self.proposal_ids@.len(),
                i <= n,
                is_delegate == self.delegates@.contains_key(delegator@),
                results@.len() == i,
                forall|j: int| 0 <= j < i ==> {
                    let id = #[trigger] self.ids()[j];
                    &&& results@[j].0@ == id
                    &&& (results@[j].1, results@[j].2, results@[j].3, results@[j].4)
                        == self.view().delegator_entry(delegator@, id, now)
                },
            decreases n - i,
        {
            let id = &self.proposal_ids[i];
            assert(self.ids()[i as int] == id@);
            let key = (id.clone(), delegator.clone());
            match self.delegations.get(&key) {
                Some(delegation) => {
                    let (can_revoke, remaining_time) = self.check_revocation_eligibility(delegator, id, now);
                    results.push((id.clone(), true, delegation.amount, can_revoke, remaining_time));
                },
                None => {
                    if is_delegate {
                        let power_key = (id.clone(), delegator.clone());
                        let power: i128 = match self.powers.get(&power_key) {
                            Some(data) => data.accumulated_power,
                            None => 0,
                        };
                        results.push((id.clone(), false, power, false, 0));
                    } else {
                        results.push((id.clone(), false, 0, false, 0));
                    }
                },
            }
            i = i + 1;
        }
        Ok(results)
    }

    /// The same lines as `get_delegator_details`.
    pub fn get_user_details(&self, user: &Vec<u8>, now: u64)
        -> (r: Result<Vec<(Vec<u8>, bool, i128, bool, u64)>, RepresentativeVoteContractErrors>)
        requires
            self.wf(),
        ensures
            r matches Ok(v) && v@.len() == self.view().proposal_ids.len()
                && forall|i: int| 0 <= i < v@.len() ==> {
                    let id = #[trigger] self.view().proposal_ids[i];
                    &&& v@[i].0@ == id
                    &&& (v@[i].1, v@[i].2, v@[i].3, v@[i].4) == self.view().delegator_entry(user@, id, now)
                },
    {
        self.get_delegator_details(user, now)
    }
}

/// Taking a delegation back within the grace period undoes it: the state is again what it was
/// before the delegation, provided the delegate's power before it was absent or positive and
/// the delegation did not overflow it.
pub proof fn lemma_revoke_undoes_delegation(
    m: RepresentativeModel,
    delegator: Seq<u8>,
    id: Seq<u8>,
    delegate: Seq<u8>,
    now: u64,
    balance: i128,
    later: u64,
)
    requires
        m.delegate_result(delegator, id, delegate, now, balance) is Ok,
        m.delegate_next(delegator, id, delegate, now, balance).revoke_result(delegator, id, later) is Ok,
        m.powers.contains_key((id, delegate)) ==> m.powers[(id, delegate)].0 > 0
            && m.powers[(id, delegate)].0 + balance <= i128::MAX,
    ensures
        m.delegate_next(delegator, id, delegate, now, balance).revoke_next(delegator, id, later) == m,
{
    let m1 = m.delegate_next(delegator, id, delegate, now, balance);
    let m2 = m1.revoke_next(delegator, id, later);
    assert(m1.delegations[(id, delegator)] == (delegate, balance, now));
    assert(m2.delegations =~= m.delegations);
    assert(m2.powers =~= m.powers);
}

/// A delegation can be taken back exactly when the reported status says so.
pub proof fn lemma_revoke_allowed_iff_status(m: RepresentativeModel, delegator: Seq<u8>, id: Seq<u8>, now: u64)
    ensures
        m.revoke_result(delegator, id, now) is Ok <==> m.grace_status(delegator, id, now).0,
{
}

/// The reported time left to take a delegation back never reaches past the delegation deadline
/// nor past the grace period after the delegation.
pub proof fn lemma_grace_time_bounded(m: RepresentativeModel, delegator: Seq<u8>, id: Seq<u8>, now: u64)
    ensures
        m.grace_status(delegator, id, now).0 ==> {
            &&& now + m.grace_status(delegator, id, now).1 <= m.proposals[id].delegation_deadline
            &&& now + m.grace_status(delegator, id, now).1
                <= m.delegations[(id, delegator)].2 + DELEGATION_GRACE_PERIOD
        },
        !m.grace_status(delegator, id, now).0 ==> m.grace_status(delegator, id, now).1 == 0,
{
}

/// A delegator delegates once per proposal: before the deadline, a second delegation is
/// refused while the first stands.
pub proof fn lemma_delegates_once(
    m: RepresentativeModel,
    delegator: Seq<u8>,
    id: Seq<u8>,
    delegate: Seq<u8>,
    now: u64,
    balance: i128,
    delegate2: Seq<u8>,
    now2: u64,
    balance2: i128,
)
    requires
        m.delegate_result(delegator, id, delegate, now, balance) is Ok,
        now2 < m.proposals[id].delegation_deadline,
    ensures
        m.delegate_next(delegator, id, delegate, now, balance).delegate_result(
            delegator,
            id,
            delegate2,
            now2,
            balance2,
        ) == Err::<(), _>(RepresentativeVoteContractErrors::DelegatorAlreadyDelegated),
{
}

/// Once a delegation is taken back, the delegator may delegate again on the proposal, to any
/// approved delegate, before the deadline, with a positive balance.
pub proof fn lemma_delegate_again_after_revoke(
    m: RepresentativeModel,
    delegator: Seq<u8>,
    id: Seq<u8>,
    now: u64,
    delegate2: Seq<u8>,
    now2: u64,
    balance2: i128,
)
    requires
        m.revoke_result(delegator, id, now) is Ok,
        now2 < m.proposals[id].delegation_deadline,
        m.delegates.contains(delegate2),
        m.token is Some,
        balance2 > 0,
    ensures
        m.revoke_next(delegator, id, now).delegate_result(delegator, id, delegate2, now2, balance2) is Ok,
{
}

/// A delegate votes once on a proposal: while it stays a delegate and the window is open, a
/// second vote is refused.
pub proof fn lemma_delegate_votes_once(
    m: RepresentativeModel,
    delegate: Seq<u8>,
    id: Seq<u8>,
    choice: Seq<u8>,
    now: u64,
    choice2: Seq<u8>,
    now2: u64,
)
    requires
        m.vote_result(delegate, id, choice, now) is Ok,
        m.proposals[id].start_time <= now2 <= m.proposals[id].end_time,
    ensures
        m.vote_next(delegate, id, choice, now).vote_result(delegate, id, choice2, now2)
            == Err::<(), _>(RepresentativeVoteContractErrors::DelegateAlreadyVoted),
{
}

/// A delegate's vote adds to the chosen tally exactly the power delegated to it, short of
/// overflow.
pub proof fn lemma_vote_adds_power(
    m: RepresentativeModel,
    delegate: Seq<u8>,
    id: Seq<u8>,
    choice: Seq<u8>,
    now: u64,
)
    requires
        m.vote_result(delegate, id, choice, now) is Ok,
        choice_of(choice) == Some(Choice::For),
        m.proposals[id].total_for >= 0,
        m.standing(id, delegate).0 >= 0,
        m.proposals[id].total_for + m.standing(id, delegate).0 <= i128::MAX,
    ensures
        m.vote_next(delegate, id, choice, now).proposals[id].total_for
            == m.proposals[id].total_for + m.standing(id, delegate).0,
{
}

/// The delegators whose delegation on proposal `id` names `delegate`.
pub open spec fn delegators_of(m: RepresentativeModel, id: Seq<u8>, delegate: Seq<u8>) -> Set<Seq<u8>> {
    Set::new(|x: Seq<u8>| m.delegations.contains_key((id, x)) && m.delegations[(id, x)].0 == delegate)
}

/// The amount that each delegator delegated on proposal `id`.
pub open spec fn delegated_amount(m: RepresentativeModel, id: Seq<u8>) -> spec_fn(Seq<u8>) -> int {
    |x: Seq<u8>| m.delegations[(id, x)].1 as int
}

/// The tokens delegated to `delegate` on proposal `id`: the sum of the amounts of the
/// delegations that name it.
pub open spec fn delegated_to(m: RepresentativeModel, id: Seq<u8>, delegate: Seq<u8>) -> int {
    sum_of(delegators_of(m, id, delegate), delegated_amount(m, id))
}

/// Every delegation moved a positive amount, and every delegate's power on a proposal is what
/// is delegated to it there.
pub open spec fn powers_are_delegated(m: RepresentativeModel) -> bool {
    &&& m.delegations.dom().finite()
    &&& forall|k: (Seq<u8>, Seq<u8>)| #[trigger] m.delegations.contains_key(k) ==> m.delegations[k].1 > 0
    &&& forall|id: Seq<u8>, d: Seq<u8>| #[trigger] m.standing(id, d).0 == delegated_to(m, id, d)
}

proof fn lemma_delegators_finite(m: RepresentativeModel, id: Seq<u8>, delegate: Seq<u8>)
    requires
        m.delegations.dom().finite(),
    ensures
        delegators_of(m, id, delegate).finite(),
{
    let f = |k: (Seq<u8>, Seq<u8>)| k.1;
    m.delegations.dom().lemma_map_finite(f);
    assert(delegators_of(m, id, delegate).subset_of(m.delegations.dom().map(f))) by {
        assert forall|x: Seq<u8>| #[trigger] delegators_of(m, id, delegate).contains(x)
            implies m.delegations.dom().map(f).contains(x) by {
            assert(m.delegations.dom().contains((id, x)));
            assert(f((id, x)) == x);
        }
    }
    vstd::set_lib::lemma_len_subset(delegators_of(m, id, delegate), m.delegations.dom().map(f));
}

proof fn lemma_delegated_nonneg(m: RepresentativeModel, id: Seq<u8>, delegate: Seq<u8>)
    requires
        m.delegations.dom().finite(),
        forall|k: (Seq<u8>, Seq<u8>)| #[trigger] m.delegations.contains_key(k) ==> m.delegations[k].1 > 0,
    ensures
        delegated_to(m, id, delegate) >= 0,
{
    lemma_delegators_finite(m, id, delegate);
    assert forall|x: Seq<u8>| delegators_of(m, id, delegate).contains(x) implies delegated_amount(m, id)(x) >= 0 by {
        assert(m.delegations.contains_key((id, x)));
    }
    lemma_sum_nonneg(delegators_of(m, id, delegate), delegated_amount(m, id));
}

/// Before anything is delegated, no delegate has power.
pub proof fn lemma_no_delegations_no_power(m: RepresentativeModel)
    requires
        m.delegations == Map::<(Seq<u8>, Seq<u8>), (Seq<u8>, i128, u64)>::empty(),
        m.powers == Map::<(Seq<u8>, Seq<u8>), (i128, Option<Seq<u8>>)>::empty(),
    ensures
        powers_are_delegated(m),
{
    assert forall|id: Seq<u8>, d: Seq<u8>| #[trigger] m.standing(id, d).0 == delegated_to(m, id, d) by {
        assert(delegators_of(m, id, d) =~= Set::<Seq<u8>>::empty());
        lemma_sum_empty(delegated_amount(m, id));
    }
}

/// A delegation adds the delegator's balance to the delegate's power, so every delegate's power
/// stays the sum of what is delegated to it, short of overflow.
pub proof fn lemma_delegate_keeps_powers(
    m: RepresentativeModel,
    delegator: Seq<u8>,
    id: Seq<u8>,
    delegate: Seq<u8>,
    now: u64,
    balance: i128,
)
    requires
        powers_are_delegated(m),
        m.standing(id, delegate).0 + balance <= i128::MAX,
    ensures
        powers_are_delegated(m.delegate_next(delegator, id, delegate, now, balance)),
{
    let n = m.delegate_next(delegator, id, delegate, now, balance);
    if m.delegate_result(delegator, id, delegate, now, balance) is Ok {
        assert(!m.delegations.contains_key((id, delegator)));
        assert forall|id2: Seq<u8>, d2: Seq<u8>| #[trigger] n.standing(id2, d2).0 == delegated_to(n, id2, d2) by {
            let s = delegators_of(m, id2, d2);
            lemma_delegators_finite(m, id2, d2);
            assert(m.standing(id2, d2).0 == delegated_to(m, id2, d2));
            assert forall|x: Seq<u8>| s.contains(x) implies
                delegated_amount(n, id2)(x) == delegated_amount(m, id2)(x) by {
                assert(m.delegations.contains_key((id2, x)));
            }
            lemma_sum_congruent(s, delegated_amount(n, id2), delegated_amount(m, id2));
            if id2 == id && d2 == delegate {
                assert(delegators_of(n, id2, d2) =~= s.insert(delegator));
                assert(!s.contains(delegator));
                lemma_sum_insert(s, delegated_amount(n, id2), delegator);
                lemma_delegated_nonneg(m, id2, d2);
            } else {
                assert(delegators_of(n, id2, d2) =~= s);
            }
        }
    }
}

/// Taking a delegation back takes its amount off the delegate's power, so every delegate's
/// power stays the sum of what is delegated to it.
pub proof fn lemma_revoke_keeps_powers(m: RepresentativeModel, delegator: Seq<u8>, id: Seq<u8>, now: u64)
    requires
        powers_are_delegated(m),
    ensures
        powers_are_delegated(m.revoke_next(delegator, id, now)),
{
    let n = m.revoke_next(delegator, id, now);
    if m.revoke_result(delegator, id, now) is Ok {
        let d = m.delegations[(id, delegator)];
        assert(m.delegations.contains_key((id, delegator)));
        assert forall|id2: Seq<u8>, d2: Seq<u8>| #[trigger] n.standing(id2, d2).0 == delegated_to(n, id2, d2) by {
            let s = delegators_of(m, id2, d2);
            lemma_delegators_finite(m, id2, d2);
            assert(m.standing(id2, d2).0 == delegated_to(m, id2, d2));
            if id2 == id && d2 == d.0 {
                assert(s.contains(delegator));
                let rest = s.remove(delegator);
                assert(delegators_of(n, id2, d2) =~= rest);
                lemma_sum_remove(s, delegated_amount(m, id2), delegator);
                assert forall|x: Seq<u8>| rest.contains(x) implies
                    delegated_amount(n, id2)(x) == delegated_amount(m, id2)(x) by {
                    assert(m.delegations.contains_key((id2, x)));
                }
                lemma_sum_congruent(rest, delegated_amount(n, id2), delegated_amount(m, id2));
                assert forall|x: Seq<u8>| rest.contains(x) implies delegated_amount(m, id2)(x) >= 0 by {
                    assert(m.delegations.contains_key((id2, x)));
                }
                lemma_sum_nonneg(rest, delegated_amount(m, id2));
                assert(m.delegations[(id, delegator)].1 > 0);
            } else {
                assert(delegators_of(n, id2, d2) =~= s);
                assert forall|x: Seq<u8>| s.contains(x) implies
                    delegated_amount(n, id2)(x) == delegated_amount(m, id2)(x) by {
                    assert(m.delegations.contains_key((id2, x)));
                }
                lemma_sum_congruent(s, delegated_amount(n, id2), delegated_amount(m, id2));
            }
        }
    }
}

/// A delegate's vote leaves every power as it was, and so the sum of what is delegated.
pub proof fn lemma_vote_keeps_powers(
    m: RepresentativeModel,
    delegate: Seq<u8>,
    id: Seq<u8>,
    choice: Seq<u8>,
    now: u64,
)
    requires
        powers_are_delegated(m),
    ensures
        powers_are_delegated(m.vote_next(delegate, id, choice, now)),
{
    let n = m.vote_next(delegate, id, choice, now);
    assert forall|id2: Seq<u8>, d2: Seq<u8>| #[trigger] n.standing(id2, d2).0 == delegated_to(n, id2, d2) by {
        assert(m.standing(id2, d2).0 == delegated_to(m, id2, d2));
    }
}

/// The tally of `choice` on a proposal.
pub open spec fn tally_of(p: RepresentativeVoteProposalData, choice: Choice) -> int {
    match choice {
        Choice::For => p.total_for as int,
        Choice::Against => p.total_against as int,
        Choice::Abstain => p.total_abstain as int,
    }
}

/// The three tallies of a proposal together.
pub open spec fn tallies_total(p: RepresentativeVoteProposalData) -> int {
    p.total_for + p.total_against + p.total_abstain
}

/// The delegates who voted on proposal `id`.
pub open spec fn voted_delegates(m: RepresentativeModel, id: Seq<u8>) -> Set<Seq<u8>> {
    Set::new(|d: Seq<u8>| m.powers.contains_key((id, d)) && m.powers[(id, d)].1 is Some)
}

/// The power of each delegate on proposal `id`.
pub open spec fn delegate_weight(m: RepresentativeModel, id: Seq<u8>) -> spec_fn(Seq<u8>) -> int {
    |d: Seq<u8>| m.standing(id, d).0 as int
}

/// Standings are kept for stored proposals only, and the three tallies of each proposal
/// together are the power of the delegates who voted on it.
pub open spec fn tallies_are_votes(m: RepresentativeModel) -> bool {
    &&& m.powers.dom().finite()
    &&& forall|id: Seq<u8>, d: Seq<u8>| #[trigger] m.powers.contains_key((id, d)) ==> m.proposals.contains_key(id)
    &&& forall|id: Seq<u8>| #[trigger] m.proposals.contains_key(id) ==> tallies_total(m.proposals[id])
        == sum_of(voted_delegates(m, id), delegate_weight(m, id))
}

proof fn lemma_voted_finite(m: RepresentativeModel, id: Seq<u8>)
    requires
        m.powers.dom().finite(),
    ensures
        voted_delegates(m, id).finite(),
{
    let slice = Set::new(|b: Seq<u8>| m.powers.dom().contains((id, b)));
    lemma_slice_finite::<Seq<u8>, Seq<u8>>(m.powers.dom(), id);
    assert(voted_delegates(m, id).subset_of(slice));
    vstd::set_lib::lemma_len_subset(voted_delegates(m, id), slice);
}

proof fn lemma_add_weight_total(p: RepresentativeVoteProposalData, choice: Choice, weight: i128)
    requires
        i128::MIN <= tally_of(p, choice) + weight <= i128::MAX,
    ensures
        tallies_total(add_weight(p, choice, weight)) == tallies_total(p) + weight,
{
}

/// With no proposal and no standing, the tallies are the votes.
pub proof fn lemma_no_votes_tallies(m: RepresentativeModel)
    requires
        m.proposals == Map::<Seq<u8>, RepresentativeVoteProposalData>::empty(),
        m.powers == Map::<(Seq<u8>, Seq<u8>), (i128, Option<Seq<u8>>)>::empty(),
    ensures
        tallies_are_votes(m),
{
}

/// A new proposal starts with zero tallies and no delegate having voted on it, so the tallies
/// stay the votes.
pub proof fn lemma_create_keeps_vote_tallies(
    m: RepresentativeModel,
    id: Seq<u8>,
    description: String,
    delegation_deadline: u64,
    start_time: u64,
    end_time: u64,
    now: u64,
)
    requires
        tallies_are_votes(m),
        m.create_proposal_result(id, delegation_deadline, start_time, end_time, now) is Ok,
    ensures
        tallies_are_votes(m.with_proposal(id, description, delegation_deadline, start_time, end_time)),
{
    let n = m.with_proposal(id, description, delegation_deadline, start_time, end_time);
    assert(voted_delegates(m, id) =~= Set::<Seq<u8>>::empty()) by {
        assert forall|d: Seq<u8>| !voted_delegates(m, id).contains(d) by {
            if m.powers.contains_key((id, d)) {
                assert(m.proposals.contains_key(id));
            }
        }
    }
    assert forall|id2: Seq<u8>| #[trigger] n.proposals.contains_key(id2) implies tallies_total(n.proposals[id2])
        == sum_of(voted_delegates(n, id2), delegate_weight(n, id2)) by {
        assert(voted_delegates(n, id2) == voted_delegates(m, id2));
        assert(delegate_weight(n, id2) == delegate_weight(m, id2));
        if id2 == id {
            lemma_sum_empty(delegate_weight(m, id));
        }
    }
}

/// A delegation to a delegate that has not yet voted on the proposal leaves the tallies the
/// votes: the power it adds is not counted until the delegate votes.
pub proof fn lemma_delegate_keeps_vote_tallies(
    m: RepresentativeModel,
    delegator: Seq<u8>,
    id: Seq<u8>,
    delegate: Seq<u8>,
    now: u64,
    balance: i128,
)
    requires
        tallies_are_votes(m),
        m.standing(id, delegate).1 is None,
    ensures
        tallies_are_votes(m.delegate_next(delegator, id, delegate, now, balance)),
{
    let n = m.delegate_next(delegator, id, delegate, now, balance);
    if m.delegate_result(delegator, id, delegate, now, balance) is Ok {
        assert forall|id2: Seq<u8>| #[trigger] n.proposals.contains_key(id2) implies tallies_total(n.proposals[id2])
            == sum_of(voted_delegates(n, id2), delegate_weight(n, id2)) by {
            let s = voted_delegates(m, id2);
            lemma_voted_finite(m, id2);
            assert(m.proposals.contains_key(id2));
            assert(voted_delegates(n, id2) =~= s);
            assert forall|d: Seq<u8>| s.contains(d) implies delegate_weight(n, id2)(d) == delegate_weight(m, id2)(d) by {
                assert(m.powers.contains_key((id2, d)));
            }
            lemma_sum_congruent(s, delegate_weight(n, id2), delegate_weight(m, id2));
        }
    }
}

/// Taking back a delegation made to a delegate that has not yet voted on the proposal leaves
/// the tallies the votes.
pub proof fn lemma_revoke_keeps_vote_tallies(m: RepresentativeModel, delegator: Seq<u8>, id: Seq<u8>, now: u64)
    requires
        tallies_are_votes(m),
        m.standing(id, m.delegations[(id, delegator)].0).1 is None,
    ensures
        tallies_are_votes(m.revoke_next(delegator, id, now)),
{
    let n = m.revoke_next(delegator, id, now);
    if m.revoke_result(delegator, id, now) is Ok {
        assert forall|id2: Seq<u8>| #[trigger] n.proposals.contains_key(id2) implies tallies_total(n.proposals[id2])
            == sum_of(voted_delegates(n, id2), delegate_weight(n, id2)) by {
            let s = voted_delegates(m, id2);
            lemma_voted_finite(m, id2);
            assert(m.proposals.contains_key(id2));
            assert(voted_delegates(n, id2) =~= s);
            assert forall|d: Seq<u8>| s.contains(d) implies delegate_weight(n, id2)(d) == delegate_weight(m, id2)(d) by {
                assert(m.powers.contains_key((id2, d)));
            }
            lemma_sum_congruent(s, delegate_weight(n, id2), delegate_weight(m, id2));
        }
    }
}

/// A delegate's vote adds its power to one tally and one voted delegate of that power, so the
/// tallies stay the votes, short of overflow.
pub proof fn lemma_vote_keeps_vote_tallies(
    m: RepresentativeModel,
    delegate: Seq<u8>,
    id: Seq<u8>,
    choice: Seq<u8>,
    now: u64,
)
    requires
        tallies_are_votes(m),
        choice_of(choice) is Some ==> i128::MIN <= tally_of(m.proposals[id], choice_of(choice).unwrap())
            + m.standing(id, delegate).0 <= i128::MAX,
    ensures
        tallies_are_votes(m.vote_next(delegate, id, choice, now)),
{
    let n = m.vote_next(delegate, id, choice, now);
    if m.vote_result(delegate, id, choice, now) is Ok {
        lemma_add_weight_total(m.proposals[id], choice_of(choice).unwrap(), m.standing(id, delegate).0);
        assert forall|id2: Seq<u8>| #[trigger] n.proposals.contains_key(id2) implies tallies_total(n.proposals[id2])
            == sum_of(voted_delegates(n, id2), delegate_weight(n, id2)) by {
            let s = voted_delegates(m, id2);
            lemma_voted_finite(m, id2);
            assert(m.proposals.contains_key(id2));
            assert forall|d: Seq<u8>| s.contains(d) implies delegate_weight(n, id2)(d) == delegate_weight(m, id2)(d) by {
                assert(m.powers.contains_key((id2, d)));
            }
            lemma_sum_congruent(s, delegate_weight(n, id2), delegate_weight(m, id2));
            if id2 == id {
                assert(voted_delegates(n, id) =~= s.insert(delegate));
                assert(!s.contains(delegate));
                lemma_sum_insert(s, delegate_weight(n, id), delegate);
            } else {
                assert(voted_delegates(n, id2) =~= s);
            }
        }
    }
}

/// A delegate's vote takes up only its own (proposal, delegate) slot: every other delegate's
/// vote, and its own vote on every other proposal, is answered the same after it as before.
/// In particular voting on one proposal never keeps a delegate from voting on another.
pub proof fn lemma_vote_blocks_only_its_slot(
    m: RepresentativeModel,
    delegate: Seq<u8>,
    id: Seq<u8>,
    choice: Seq<u8>,
    now: u64,
    delegate2: Seq<u8>,
    id2: Seq<u8>,
    choice2: Seq<u8>,
    now2: u64,
)
    requires
        (id2, delegate2) != (id, delegate),
    ensures
        m.vote_next(delegate, id, choice, now).vote_result(delegate2, id2, choice2, now2)
            == m.vote_result(delegate2, id2, choice2, now2),
{
}

/// A delegation takes up only its own (proposal, delegator) slot: for every other delegator,
/// or every other proposal, a delegation is answered the same after it as before. Delegating
/// on one proposal never keeps a holder from delegating on another.
pub proof fn lemma_delegation_blocks_only_its_slot(
    m: RepresentativeModel,
    delegator: Seq<u8>,
    id: Seq<u8>,
    delegate: Seq<u8>,
    now: u64,
    balance: i128,
    delegator2: Seq<u8>,
    id2: Seq<u8>,
    delegate2: Seq<u8>,
    now2: u64,
    balance2: i128,
)
    requires
        (id2, delegator2) != (id, delegator),
    ensures
        m.delegate_next(delegator, id, delegate, now, balance).delegate_result(delegator2, id2, delegate2, now2, balance2)
            == m.delegate_result(delegator2, id2, delegate2, now2, balance2),
{
}

/// No more than ten delegates are ever approved: from a state with at most ten, a replacement
/// or an addition that is accepted leaves at most ten, and a removal leaves no more. An
/// addition is accepted whenever the contract is set up and the result stays within ten.
pub proof fn lemma_delegate_limit_kept(m: RepresentativeModel, list: Seq<Seq<u8>>)
    requires
        m.delegates.finite(),
        m.delegates.len() <= MAX_DELEGATES_NUMBER,
    ensures
        m.set_delegates_result(list) is Ok ==> list.to_set().len() <= MAX_DELEGATES_NUMBER,
        m.add_delegates_result(list) is Ok ==> (m.delegates + list.to_set()).len() <= MAX_DELEGATES_NUMBER,
        m.admin is Some && (m.delegates + list.to_set()).len() <= MAX_DELEGATES_NUMBER
            ==> m.add_delegates_result(list) is Ok,
        (m.delegates - list.to_set()).len() <= MAX_DELEGATES_NUMBER,
{
    list.lemma_cardinality_of_set();
    vstd::set_lib::lemma_len_difference(m.delegates, list.to_set());
}

/// A second constructor call is refused: the admin and the token are set once.
pub proof fn lemma_constructor_once(m: RepresentativeModel, admin: Seq<u8>, token: Seq<u8>)
    requires
        m.constructor_result() is Ok,
    ensures
        (RepresentativeModel { admin: Some(admin), token: Some(token), ..m }).constructor_result()
            == Err::<(), _>(RepresentativeVoteContractErrors::ContractAlreadyInitialized),
{
}

} // verus!
