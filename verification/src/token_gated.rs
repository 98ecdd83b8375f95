//! One holder, one vote: every holder of the governance token casts a vote of weight one.
use vstd::prelude::*;
use crate::ballot::{Choice, choice_of, parse_choice, sat_add, saturating_add_i128};
use crate::bytes::{opt_bytes, views};
use crate::table::Table;
use crate::ttl::{ttl_for, spec_ttl, ttl_fits};

verus! {

pub const MAX_PROPOSAL_DURATION: u64 = 1_296_000;
pub const MIN_PROPOSAL_DURATION: u64 = 432000;
pub const PROPOSALS_TTL_EXTENSION: u32 = 2_100_000;
pub const VOTE_TTL_EXTENSION: u32 = 1_600_000;

/// A proposal and its three tallies.
pub struct TokenGatedProposalData {
    pub description: String,
    pub start_time: u64,
    pub end_time: u64,
    pub total_for: i128,
    pub total_against: i128,
    pub total_abstain: i128,
}

/// A line of the governance overview.
pub struct TokenGatedProposalSummary {
    pub id: Vec<u8>,
    pub description: String,
    pub status: TokenGatedProposalStatus,
}

/// Where the ledger time stands relative to a proposal's voting window.
#[derive(Clone, Copy, PartialEq, Eq, Structural, Debug)]
pub enum TokenGatedProposalStatus {
    Pending,
    Active,
    Ended,
}

#[derive(Clone, Copy, PartialEq, Eq, Structural, Debug)]
pub enum TokenGatedContractErrors {
    ContractNotInitialized,
    ContractAlreadyInitialized,
    ProposalAlreadyExists,
    ProposalNotFound,
    UserAlreadyVoted,
    UserCannotVote,
    VotingNotActive,
    InvalidChoice,
    StartTimeAfterEnd,
    StartTimeInPast,
    DurationTooLong,
    DurationTooShort,
}

/// The stored state of a token-gated vote contract. Addresses and proposal ids are held by
/// their bytes.
pub struct TokenGatedContract {
    admin: Option<Vec<u8>>,
    token: Option<Vec<u8>>,
    proposal_ids: Vec<Vec<u8>>,
    proposals: Table<Vec<u8>, TokenGatedProposalData>,
    votes: Table<(Vec<u8>, Vec<u8>), bool>,
}

/// The abstract state: the admin and token addresses, the proposal ids in order of creation,
/// the proposals by id, and the recorded votes by (user, proposal id).
#[verifier::ext_equal]
pub struct TokenGatedModel {
    pub admin: Option<Seq<u8>>,
    pub token: Option<Seq<u8>>,
    pub proposal_ids: Seq<Seq<u8>>,
    pub proposals: Map<Seq<u8>, TokenGatedProposalData>,
    pub votes: Map<(Seq<u8>, Seq<u8>), bool>,
}

/// The first rule that a proposal's times break, in the order in which they are checked.
pub open spec fn spec_validate_proposal_times(ledger_time: u64, start_time: u64, end_time: u64)
    -> Result<(), TokenGatedContractErrors>
{
    if start_time >= end_time {
        Err(TokenGatedContractErrors::StartTimeAfterEnd)
    } else if start_time < ledger_time {
        Err(TokenGatedContractErrors::StartTimeInPast)
    } else if end_time - start_time > MAX_PROPOSAL_DURATION {
        Err(TokenGatedContractErrors::DurationTooLong)
    } else if end_time - start_time < MIN_PROPOSAL_DURATION {
        Err(TokenGatedContractErrors::DurationTooShort)
    } else {
        Ok(())
    }
}

/// The status of a proposal at `ledger_time`: pending before the start, active from the start
/// to the end inclusive, ended after.
pub open spec fn status_at(ledger_time: u64, start_time: u64, end_time: u64)
    -> TokenGatedProposalStatus
{
    if ledger_time < start_time {
        TokenGatedProposalStatus::Pending
    } else if ledger_time <= end_time {
        TokenGatedProposalStatus::Active
    } else {
        TokenGatedProposalStatus::Ended
    }
}

/// The proposal with one more vote, of weight one, for `choice`.
pub open spec fn add_vote(p: TokenGatedProposalData, choice: Choice) -> TokenGatedProposalData {
    match choice {
        Choice::For => TokenGatedProposalData { total_for: sat_add(p.total_for as int, 1) as i128, ..p },
        Choice::Against => TokenGatedProposalData {
            total_against: sat_add(p.total_against as int, 1) as i128,
            ..p
        },
        Choice::Abstain => TokenGatedProposalData {
            total_abstain: sat_add(p.total_abstain as int, 1) as i128,
            ..p
        },
    }
}

/// A freshly created proposal: no votes yet.
pub open spec fn fresh_proposal(description: String, start_time: u64, end_time: u64)
    -> TokenGatedProposalData
{
    TokenGatedProposalData {
        description,
        start_time,
        end_time,
        total_for: 0,
        total_against: 0,
        total_abstain: 0,
    }
}

impl TokenGatedModel {
    /// What the constructor answers.
    pub open spec fn constructor_result(self) -> Result<(), TokenGatedContractErrors> {
        if self.admin is Some {
            Err(TokenGatedContractErrors::ContractAlreadyInitialized)
        } else {
            Ok(())
        }
    }

    /// What creating a proposal answers.
    pub open spec fn create_proposal_result(self, id: Seq<u8>, start_time: u64, end_time: u64, now: u64)
        -> Result<(), TokenGatedContractErrors>
    {
        if self.admin is None {
            Err(TokenGatedContractErrors::ContractNotInitialized)
        } else if spec_validate_proposal_times(now, start_time, end_time) is Err {
            spec_validate_proposal_times(now, start_time, end_time)
        } else if self.proposals.contains_key(id) {
            Err(TokenGatedContractErrors::ProposalAlreadyExists)
        } else {
            Ok(())
        }
    }

    /// The state after a successful creation.
    pub open spec fn with_proposal(self, id: Seq<u8>, description: String, start_time: u64, end_time: u64)
        -> TokenGatedModel
    {
        TokenGatedModel {
            proposal_ids: self.proposal_ids.push(id),
            proposals: self.proposals.insert(id, fresh_proposal(description, start_time, end_time)),
            ..self
        }
    }

    /// The checks of a vote made before the voter's balance is asked for.
    pub open spec fn vote_precheck(self, user: Seq<u8>, id: Seq<u8>, now: u64)
        -> Result<(), TokenGatedContractErrors>
    {
        if !self.proposals.contains_key(id) {
            Err(TokenGatedContractErrors::ProposalNotFound)
        } else if now < self.proposals[id].start_time || now > self.proposals[id].end_time {
            Err(TokenGatedContractErrors::VotingNotActive)
        } else if self.votes.contains_key((user, id)) {
            Err(TokenGatedContractErrors::UserAlreadyVoted)
        } else if self.token is None {
            Err(TokenGatedContractErrors::ContractNotInitialized)
        } else {
            Ok(())
        }
    }

    /// What a vote answers, `balance` being the voter's token balance.
    pub open spec fn vote_result(self, user: Seq<u8>, id: Seq<u8>, choice: Seq<u8>, now: u64, balance: i128)
        -> Result<(), TokenGatedContractErrors>
    {
        if self.vote_precheck(user, id, now) is Err {
            self.vote_precheck(user, id, now)
        } else if balance <= 0 {
            Err(TokenGatedContractErrors::UserCannotVote)
        } else if choice_of(choice) is None {
            Err(TokenGatedContractErrors::InvalidChoice)
        } else {
            Ok(())
        }
    }

    /// The state after a successful vote.
    pub open spec fn with_vote(self, user: Seq<u8>, id: Seq<u8>, choice: Choice) -> TokenGatedModel {
        TokenGatedModel {
            proposals: self.proposals.insert(id, add_vote(self.proposals[id], choice)),
            votes: self.votes.insert((user, id), true),
            ..self
        }
    }

    /// The state after a vote, whatever it answered.
    pub open spec fn vote_next(self, user: Seq<u8>, id: Seq<u8>, choice: Seq<u8>, now: u64, balance: i128)
        -> TokenGatedModel
    {
        if self.vote_result(user, id, choice, now, balance) is Ok {
            self.with_vote(user, id, choice_of(choice).unwrap())
        } else {
            self
        }
    }

    /// Whether `user` has voted on proposal `id`.
    pub open spec fn has_voted(self, user: Seq<u8>, id: Seq<u8>) -> bool {
        self.votes.contains_key((user, id))
    }
}

impl TokenGatedProposalData {
    /// A copy of the proposal.
    pub fn copy(&self) -> (r: TokenGatedProposalData)
        ensures
            r == *self,
    {
        TokenGatedProposalData {
            description: self.description.clone(),
            start_time: self.start_time,
            end_time: self.end_time,
            total_for: self.total_for,
            total_against: self.total_against,
            total_abstain: self.total_abstain,
        }
    }
}

impl TokenGatedContract {
    pub closed spec fn ids(&self) -> Seq<Seq<u8>> {
        self.proposal_ids@.map_values(|v: Vec<u8>| v@)
    }

    /// The abstract state of the contract.
    pub closed spec fn view(&self) -> TokenGatedModel {
        TokenGatedModel {
            admin: match self.admin {
                Some(a) => Some(a@),
                None => None,
            },
            token: match self.token {
                Some(t) => Some(t@),
                None => None,
            },
            proposal_ids: self.ids(),
            proposals: self.proposals@,
            votes: self.votes@,
        }
    }

    /// The stored state is consistent: the id list names each stored proposal exactly once.
    pub closed spec fn wf(&self) -> bool {
        &&& self.proposals.wf()
        &&& self.votes.wf()
        &&& self.ids().no_duplicates()
        &&& forall|k: Seq<u8>| self.proposals@.contains_key(k) <==> self.ids().contains(k)
    }

    /// Storage before the constructor has run: nothing is stored.
    pub fn new() -> (c: Self)
        ensures
            c.wf(),
            c.view() == (TokenGatedModel {
                admin: None,
                token: None,
                proposal_ids: Seq::empty(),
                proposals: Map::empty(),
                votes: Map::empty(),
            }),
    {
        let c = TokenGatedContract {
            admin: None,
            token: None,
            proposal_ids: Vec::new(),
            proposals: Table::new(),
            votes: Table::new(),
        };
        assert(c.ids() =~= Seq::<Seq<u8>>::empty());
        c
    }

    /// The admin address, once set.
    pub fn admin(&self) -> (r: Option<&Vec<u8>>)
        ensures
            match r {
                Some(a) => self.view().admin == Some(a@),
                None => self.view().admin is None,
            },
    {
        match &self.admin {
            Some(a) => Some(a),
            None => None,
        }
    }

    /// The governance token's address, once set.
    pub fn token(&self) -> (r: Option<&Vec<u8>>)
        ensures
            match r {
                Some(t) => self.view().token == Some(t@),
                None => self.view().token is None,
            },
    {
        match &self.token {
            Some(t) => Some(t),
            None => None,
        }
    }

    /// Rebuilds the stored state from its parts. `None` where a table repeats a key or the id
    /// list does not name each stored proposal exactly once.
    pub fn from_parts(
        admin: Option<Vec<u8>>,
        token: Option<Vec<u8>>,
        proposal_ids: Vec<Vec<u8>>,
        proposals: Table<Vec<u8>, TokenGatedProposalData>,
        votes: Table<(Vec<u8>, Vec<u8>), bool>,
    ) -> (r: Option<Self>)
        ensures
            r is Some <==> (proposals.wf() && votes.wf() && views(proposal_ids@).no_duplicates()
                && forall|k: Seq<u8>| proposals@.contains_key(k) <==> views(proposal_ids@).contains(k)),
            r matches Some(c) ==> c.wf() && c.view() == (TokenGatedModel {
                admin: opt_bytes(admin),
                token: opt_bytes(token),
                proposal_ids: views(proposal_ids@),
                proposals: proposals@,
                votes: votes@,
            }),
    {
        if !proposals.is_well_formed() || !votes.is_well_formed() {
            return None;
        }
        if !proposals.lists_keys_once(&proposal_ids) {
            return None;
        }
        let c = TokenGatedContract { admin, token, proposal_ids, proposals, votes };
        assert(c.ids() =~= views(c.proposal_ids@));
        Some(c)
    }

    /// The proposal ids, in order of creation.
    pub fn proposal_ids(&self) -> (r: &Vec<Vec<u8>>)
        ensures
            views(r@) == self.view().proposal_ids,
    {
        assert(self.ids() =~= views(self.proposal_ids@));
        &self.proposal_ids
    }

    /// The stored proposals, by id.
    pub fn proposals(&self) -> (r: &Table<Vec<u8>, TokenGatedProposalData>)
        requires
            self.wf(),
        ensures
            r.wf(),
            r@ == self.view().proposals,
    {
        &self.proposals
    }

    /// The recorded votes, by (user, proposal id).
    pub fn votes(&self) -> (r: &Table<(Vec<u8>, Vec<u8>), bool>)
        requires
            self.wf(),
        ensures
            r.wf(),
            r@ == self.view().votes,
    {
        &self.votes
    }

    /// The lifetime of a proposal's entries: its remaining time plus a week, at least
    /// `PROPOSALS_TTL_EXTENSION`.
    pub fn calculate_proposal_ttl(ledger_time: u64, proposal_end_time: u64) -> (r: u32)
        requires
            ttl_fits(ledger_time, proposal_end_time),
        ensures
            r == spec_ttl(ledger_time, proposal_end_time, PROPOSALS_TTL_EXTENSION),
    {
        ttl_for(ledger_time, proposal_end_time, PROPOSALS_TTL_EXTENSION)
    }

    /// The status of a proposal at `ledger_time`.
    pub fn compute_proposal_status(ledger_time: u64, proposal: &TokenGatedProposalData)
        -> (r: TokenGatedProposalStatus)
        ensures
            r == status_at(ledger_time, proposal.start_time, proposal.end_time),
    {
        if ledger_time < proposal.start_time {
            TokenGatedProposalStatus::Pending
        } else if ledger_time <= proposal.end_time {
            TokenGatedProposalStatus::Active
        } else {
            TokenGatedProposalStatus::Ended
        }
    }

    /// Checks a proposal's voting window against the ledger time and the duration limits.
    pub fn validate_proposal_times(ledger_time: u64, start_time: u64, end_time: u64)
        -> (r: Result<(), TokenGatedContractErrors>)
        ensures
            r == spec_validate_proposal_times(ledger_time, start_time, end_time),
            r is Ok <==> (start_time < end_time && ledger_time <= start_time
                && MIN_PROPOSAL_DURATION <= end_time - start_time <= MAX_PROPOSAL_DURATION),
    {
        if start_time >= end_time {
            return Err(TokenGatedContractErrors::StartTimeAfterEnd);
        }
        if start_time < ledger_time {
            return Err(TokenGatedContractErrors::StartTimeInPast);
        }
        let duration = end_time - start_time;
        if duration > MAX_PROPOSAL_DURATION {
            return Err(TokenGatedContractErrors::DurationTooLong);
        }
        if duration < MIN_PROPOSAL_DURATION {
            return Err(TokenGatedContractErrors::DurationTooShort);
        }
        Ok(())
    }

    /// Sets the admin and the token, once.
    pub fn __constructor(&mut self, admin: Vec<u8>, token: Vec<u8>)
        -> (r: Result<(), TokenGatedContractErrors>)
        requires
            old(self).wf(),
        ensures
            final(self).wf(),
            r == old(self).view().constructor_result(),
            r is Ok ==> final(self).view() == (TokenGatedModel {
                admin: Some(admin@),
                token: Some(token@),
                ..old(self).view()
            }),
            r is Err ==> final(self).view() == old(self).view(),
    {
        if self.admin.is_some() {
            return Err(TokenGatedContractErrors::ContractAlreadyInitialized);
        }
        self.admin = Some(admin);
        self.token = Some(token);
        Ok(())
    }

    /// Creates a proposal with no votes and appends its id to the list. The admin authorizes
    /// the call.
    pub fn create_proposal(
        &mut self,
        id: Vec<u8>,
        description: String,
        start_time: u64,
        end_time: u64,
        now: u64,
    ) -> (r: Result<(), TokenGatedContractErrors>)
        requires
            old(self).wf(),
        ensures
            final(self).wf(),
            r == old(self).view().create_proposal_result(id@, start_time, end_time, now),
            r is Ok ==> final(self).view() == old(self).view().with_proposal(
                id@,
                description,
                start_time,
                end_time,
            ),
            r is Err ==> final(self).view() == old(self).view(),
    {
        if self.admin.is_none() {
            return Err(TokenGatedContractErrors::ContractNotInitialized);
        }
        Self::validate_proposal_times(now, start_time, end_time)?;
        if self.proposals.contains_key(&id) {
            return Err(TokenGatedContractErrors::ProposalAlreadyExists);
        }
        let ghost old_ids = self.ids();
        let proposal = TokenGatedProposalData {
            description,
            start_time,
            end_time,
            total_for: 0,
            total_against: 0,
            total_abstain: 0,
        };
        self.proposals.insert(id.clone(), proposal);
        self.proposal_ids.push(id);
        proof {
            assert(self.ids() =~= old_ids.push(id@));
            assert(!old_ids.contains(id@));
            assert(self.ids().no_duplicates()) by {
                assert forall|a: int, b: int|
                    0 <= a < self.ids().len() && 0 <= b < self.ids().len() && a != b implies
                    self.ids()[a] != self.ids()[b] by {
                    if a == old_ids.len() {
                        assert(old_ids[b] != id@);
                    } else if b == old_ids.len() {
                        assert(old_ids[a] != id@);
                    }
                }
            }
            assert forall|k: Seq<u8>| self.proposals@.contains_key(k) <==> self.ids().contains(k) by {
                if k != id@ && old_ids.contains(k) {
                    let j = old_ids.index_of(k);
                    assert(self.ids()[j] == k);
                }
                if self.ids().contains(k) && k != id@ {
                    let j = self.ids().index_of(k);
                    assert(j < old_ids.len());
                    assert(old_ids[j] == k);
                }
                if k == id@ {
                    assert(self.ids()[old_ids.len() as int] == k);
                }
            }
        }
        Ok(())
    }

    /// The checks of a vote that come before the voter's balance is needed. On success,
    /// gives the address of the token whose balance the vote needs.
    pub fn check_vote(&self, user: &Vec<u8>, id: &Vec<u8>, now: u64)
        -> (r: Result<&Vec<u8>, TokenGatedContractErrors>)
        requires
            self.wf(),
        ensures
            match r {
                Ok(t) => self.view().vote_precheck(user@, id@, now) is Ok
                    && self.view().token == Some(t@),
                Err(e) => self.view().vote_precheck(user@, id@, now) == Err::<(), _>(e),
            },
    {
        let proposal = match self.proposals.get(id) {
            Some(p) => p,
            None => return Err(TokenGatedContractErrors::ProposalNotFound),
        };
        if now < proposal.start_time || now > proposal.end_time {
            return Err(TokenGatedContractErrors::VotingNotActive);
        }
        let key = (user.clone(), id.clone());
        if self.votes.contains_key(&key) {
            return Err(TokenGatedContractErrors::UserAlreadyVoted);
        }
        match &self.token {
            Some(t) => Ok(t),
            None => Err(TokenGatedContractErrors::ContractNotInitialized),
        }
    }

    /// Records `user`'s vote on proposal `id`: a vote of weight one for `choice`, for a holder
    /// whose token `balance` is positive, during the voting window, once per proposal.
    /// The user authorizes the call.
    pub fn vote(&mut self, user: Vec<u8>, id: Vec<u8>, choice: &Vec<u8>, now: u64, balance: i128)
        -> (r: Result<(), TokenGatedContractErrors>)
        requires
            old(self).wf(),
        ensures
            final(self).wf(),
            r == old(self).view().vote_result(user@, id@, choice@, now, balance),
            final(self).view() == old(self).view().vote_next(user@, id@, choice@, now, balance),
    {
        match self.check_vote(&user, &id, now) {
            Ok(_) => {},
            Err(e) => return Err(e),
        }
        if balance <= 0 {
            return Err(TokenGatedContractErrors::UserCannotVote);
        }
        let c = match parse_choice(choice) {
            Some(c) => c,
            None => return Err(TokenGatedContractErrors::InvalidChoice),
        };
        let ghost old_ids = self.ids();
        let mut proposal = match self.proposals.remove(&id) {
            Some(p) => p,
            None => return Err(TokenGatedContractErrors::ProposalNotFound),
        };
        match c {
            Choice::For => {
                proposal.total_for = saturating_add_i128(proposal.total_for, 1);
            },
            Choice::Against => {
                proposal.total_against = saturating_add_i128(proposal.total_against, 1);
            },
            Choice::Abstain => {
                proposal.total_abstain = saturating_add_i128(proposal.total_abstain, 1);
            },
        }
        self.proposals.insert(id.clone(), proposal);
        self.votes.insert((user, id), true);
        proof {
            assert(self.ids() == old_ids);
        }
        Ok(())
    }

    /// Hands the admin role to `new_admin`. The current admin authorizes the call.
    pub fn transfer_admin(&mut self, new_admin: Vec<u8>) -> (r: Result<(), TokenGatedContractErrors>)
        requires
            old(self).wf(),
        ensures
            final(self).wf(),
            r is Err <==> old(self).view().admin is None,
            r is Err ==> r == Err::<(), _>(TokenGatedContractErrors::ContractNotInitialized)
                && final(self).view() == old(self).view(),
            r is Ok ==> final(self).view() == (TokenGatedModel { admin: Some(new_admin@), ..old(self).view() }),
    {
        if self.admin.is_none() {
            return Err(TokenGatedContractErrors::ContractNotInitialized);
        }
        self.admin = Some(new_admin);
        Ok(())
    }

    /// One summary per proposal, in order of creation, with its status at `now`.
    pub fn get_governance_details(&self, now: u64) -> (r: Vec<TokenGatedProposalSummary>)
        requires
            self.wf(),
        ensures
            r@.len() == self.view().proposal_ids.len(),
            forall|i: int| 0 <= i < r@.len() ==> {
                let id = #[trigger] self.view().proposal_ids[i];
                let p = self.view().proposals[id];
                &&& r@[i].id@ == id
                &&& r@[i].description == p.description
                &&& r@[i].status == status_at(now, p.start_time, p.end_time)
            },
    {
        let mut summary: Vec<TokenGatedProposalSummary> = Vec::new();
        let n = self.proposal_ids.len();
        let mut i: usize = 0;
        while i < n
            invariant
                self.wf(),
                n == self.proposal_ids@.len(),
                i <= n,
                summary@.len() == i,
                forall|j: int| 0 <= j < i ==> {
                    let id = #[trigger] self.ids()[j];
                    let p = self.proposals@[id];
                    &&& summary@[j].id@ == id
                    &&& summary@[j].description == p.description
                    &&& summary@[j].status == status_at(now, p.start_time, p.end_time)
                },
            decreases n - i,
        {
            let id = &self.proposal_ids[i];
            assert(self.ids()[i as int] == id@);
            match self.proposals.get(id) {
                Some(proposal) => {
                    let status = Self::compute_proposal_status(now, proposal);
                    summary.push(TokenGatedProposalSummary {
                        id: id.clone(),
                        description: proposal.description.clone(),
                        status,
                    });
                },
                None => {
                    assert(self.ids().contains(id@));
                    assert(false);
                },
            }
            i = i + 1;
        }
        summary
    }

    /// The stored proposal `id`.
    pub fn get_proposal_details(&self, id: &Vec<u8>) -> (r: Result<TokenGatedProposalData, TokenGatedContractErrors>)
        requires
            self.wf(),
        ensures
            match r {
                Ok(p) => self.view().proposals.contains_key(id@) && p == self.view().proposals[id@],
                Err(e) => !self.view().proposals.contains_key(id@)
                    && e == TokenGatedContractErrors::ProposalNotFound,
            },
    {
        match self.proposals.get(id) {
            Some(p) => Ok(p.copy()),
            None => Err(TokenGatedContractErrors::ProposalNotFound),
        }
    }

    /// For each proposal, in order of creation: its id, whether `user` voted on it, and the
    /// user's voting power, one for a holder (`balance` above zero) and zero otherwise.
    pub fn get_user_details(&self, user: &Vec<u8>, balance: i128)
        -> (r: Result<Vec<(Vec<u8>, bool, i128)>, TokenGatedContractErrors>)
        requires
            self.wf(),
        ensures
            r is Err <==> self.view().token is None,
            r is Err ==> r == Err::<Vec<(Vec<u8>, bool, i128)>, _>(
                TokenGatedContractErrors::ContractNotInitialized,
            ),
            r matches Ok(v) ==> {
                &&& v@.len() == self.view().proposal_ids.len()
                &&& forall|i: int| 0 <= i < v@.len() ==> {
                    let id = #[trigger] self.view().proposal_ids[i];
                    &&& v@[i].0@ == id
                    &&& v@[i].1 == self.view().has_voted(user@, id)
                    &&& v@[i].2 == (if balance > 0 { 1i128 } else { 0i128 })
                }
            },
    {
        if self.token.is_none() {
            return Err(TokenGatedContractErrors::ContractNotInitialized);
        }
        let voting_power: i128 = if balance > 0 {
            1
        } else {
            0
        };
        let mut results: Vec<(Vec<u8>, bool, i128)> = Vec::new();
        let n = self.proposal_ids.len();
        let mut i: usize = 0;
        while i < n
            invariant
                self.wf(),
                n == self.proposal_ids@.len(),
                i <= n,
                voting_power == (if balance > 0 { 1i128 } else { 0i128 }),
                results@.len() == i,
                forall|j: int| 0 <= j < i ==> {
                    let id = #[trigger] self.ids()[j];
                    &&& results@[j].0@ == id
                    &&& results@[j].1 == self.votes@.contains_key((user@, id))
                    &&& results@[j].2 == voting_power
                },
            decreases n - i,
        {
            let id = &self.proposal_ids[i];
            assert(self.ids()[i as int] == id@);
            let key = (user.clone(), id.clone());
            let voted = self.votes.contains_key(&key);
            results.push((id.clone(), voted, voting_power));
            i = i + 1;
        }
        Ok(results)
    }
}

/// A user's second vote on a proposal is refused as a repeated vote whenever the voting window
/// is still open, whatever the choice and the balance: one holder, one vote.
pub proof fn lemma_one_vote_per_holder(
    m: TokenGatedModel,
    user: Seq<u8>,
    id: Seq<u8>,
    choice: Seq<u8>,
    now: u64,
    balance: i128,
    second_choice: Seq<u8>,
    second_now: u64,
    second_balance: i128,
)
    requires
        m.vote_result(user, id, choice, now, balance) is Ok,
        m.proposals[id].start_time <= second_now <= m.proposals[id].end_time,
    ensures
        m.vote_next(user, id, choice, now, balance).vote_result(
            user,
            id,
            second_choice,
            second_now,
            second_balance,
        ) == Err::<(), _>(TokenGatedContractErrors::UserAlreadyVoted),
{
}

/// A successful vote adds exactly one to the tally of the chosen option and leaves the other
/// two tallies, and every other proposal, as they were: each holder weighs one.
pub proof fn lemma_vote_weighs_one(
    m: TokenGatedModel,
    user: Seq<u8>,
    id: Seq<u8>,
    choice: Seq<u8>,
    now: u64,
    balance: i128,
)
    requires
        m.vote_result(user, id, choice, now, balance) is Ok,
        m.proposals[id].total_for < i128::MAX,
        m.proposals[id].total_against < i128::MAX,
        m.proposals[id].total_abstain < i128::MAX,
    ensures
        ({
            let p = m.proposals[id];
            let q = m.vote_next(user, id, choice, now, balance).proposals[id];
            &&& q.total_for + q.total_against + q.total_abstain
                == p.total_for + p.total_against + p.total_abstain + 1
            &&& choice_of(choice) == Some(Choice::For) ==> q.total_for == p.total_for + 1
            &&& choice_of(choice) == Some(Choice::Against) ==> q.total_against == p.total_against + 1
            &&& choice_of(choice) == Some(Choice::Abstain) ==> q.total_abstain == p.total_abstain + 1
        }),
        forall|other: Seq<u8>| other != id ==> m.vote_next(user, id, choice, now, balance).proposals[other]
            == #[trigger] m.proposals[other],
{
}

/// A proposal that has just been created is found by its id and carries what was given and no
/// votes; the overview lists it last.
pub proof fn lemma_created_proposal_is_readable(
    m: TokenGatedModel,
    id: Seq<u8>,
    description: String,
    start_time: u64,
    end_time: u64,
    now: u64,
)
    requires
        m.create_proposal_result(id, start_time, end_time, now) is Ok,
    ensures
        m.with_proposal(id, description, start_time, end_time).proposals.contains_key(id),
        m.with_proposal(id, description, start_time, end_time).proposals[id]
            == fresh_proposal(description, start_time, end_time),
        m.with_proposal(id, description, start_time, end_time).proposal_ids.last() == id,
{
}

/// The votes recorded on proposal `id`, as (user, id) pairs.
pub open spec fn ballots_on(m: TokenGatedModel, id: Seq<u8>) -> Set<(Seq<u8>, Seq<u8>)> {
    m.votes.dom().filter(|k: (Seq<u8>, Seq<u8>)| k.1 == id)
}

proof fn lemma_ballots_on_bounded(m: TokenGatedModel, id: Seq<u8>)
    requires
        m.votes.dom().finite(),
    ensures
        ballots_on(m, id).finite(),
        ballots_on(m, id).len() <= m.votes.dom().len(),
{
    let f = |k: (Seq<u8>, Seq<u8>)| k.1 == id;
    m.votes.dom().lemma_len_filter(f);
    assert(ballots_on(m, id) =~= m.votes.dom().filter(f));
}

/// The tallies count the voters: finitely many votes are recorded, each on a stored proposal,
/// and the three tallies of a proposal are non-negative and add up to the number of users who
/// voted on it.
pub open spec fn tallies_count_voters(m: TokenGatedModel) -> bool {
    &&& m.votes.dom().finite()
    &&& forall|k: (Seq<u8>, Seq<u8>)| #[trigger] m.votes.contains_key(k) ==> m.proposals.contains_key(k.1)
    &&& forall|id: Seq<u8>| #[trigger] m.proposals.contains_key(id) ==> {
        let p = m.proposals[id];
        &&& p.total_for >= 0
        &&& p.total_against >= 0
        &&& p.total_abstain >= 0
        &&& p.total_for + p.total_against + p.total_abstain == ballots_on(m, id).len()
    }
}

/// Storage without proposals or votes counts its voters.
pub proof fn lemma_empty_counts_voters(m: TokenGatedModel)
    requires
        m.proposals == Map::<Seq<u8>, TokenGatedProposalData>::empty(),
        m.votes == Map::<(Seq<u8>, Seq<u8>), bool>::empty(),
    ensures
        tallies_count_voters(m),
{
}

/// Creating a proposal keeps the tallies counting the voters.
pub proof fn lemma_create_keeps_count(
    m: TokenGatedModel,
    id: Seq<u8>,
    description: String,
    start_time: u64,
    end_time: u64,
    now: u64,
)
    requires
        tallies_count_voters(m),
        m.create_proposal_result(id, start_time, end_time, now) is Ok,
    ensures
        tallies_count_voters(m.with_proposal(id, description, start_time, end_time)),
{
    let m2 = m.with_proposal(id, description, start_time, end_time);
    assert(ballots_on(m2, id) =~= Set::empty());
    assert forall|q: Seq<u8>| #[trigger] m2.proposals.contains_key(q) && q != id implies
        ballots_on(m2, q) == ballots_on(m, q) by {
        assert(ballots_on(m2, q) =~= ballots_on(m, q));
    }
}

/// Every successful vote adds one voter and one to a tally, so the tallies keep counting the
/// voters: each holder who voted weighs exactly one. Short of the machine limit on the number
/// of recorded votes.
pub proof fn lemma_vote_keeps_count(
    m: TokenGatedModel,
    user: Seq<u8>,
    id: Seq<u8>,
    choice: Seq<u8>,
    now: u64,
    balance: i128,
)
    requires
        tallies_count_voters(m),
        m.votes.dom().len() + 1 < i128::MAX,
    ensures
        tallies_count_voters(m.vote_next(user, id, choice, now, balance)),
{
    let m2 = m.vote_next(user, id, choice, now, balance);
    if m.vote_result(user, id, choice, now, balance) is Ok {
        let k = (user, id);
        lemma_ballots_on_bounded(m, id);
        assert(ballots_on(m2, id) =~= ballots_on(m, id).insert(k));
        assert(!ballots_on(m, id).contains(k));
        assert forall|q: Seq<u8>| #[trigger] m2.proposals.contains_key(q) && q != id implies
            ballots_on(m2, q) == ballots_on(m, q) by {
            assert(ballots_on(m2, q) =~= ballots_on(m, q));
        }
        assert forall|q: Seq<u8>| #[trigger] m2.proposals.contains_key(q) implies {
            let p = m2.proposals[q];
            &&& p.total_for >= 0
            &&& p.total_against >= 0
            &&& p.total_abstain >= 0
            &&& p.total_for + p.total_against + p.total_abstain == ballots_on(m2, q).len()
        } by {
            if q == id {
                assert(m.proposals.contains_key(id));
                let p = m.proposals[id];
                assert(p.total_for + p.total_against + p.total_abstain <= m.votes.dom().len());
            }
        }
    }
}

/// A vote takes up only its own (user, proposal) slot: for every other user, or every other
/// proposal, what a vote answers is the same after it as before. In particular a holder's vote
/// on one proposal never keeps it from voting on another.
pub proof fn lemma_vote_blocks_only_its_slot(
    m: TokenGatedModel,
    user: Seq<u8>,
    id: Seq<u8>,
    choice: Seq<u8>,
    now: u64,
    balance: i128,
    user2: Seq<u8>,
    id2: Seq<u8>,
    choice2: Seq<u8>,
    now2: u64,
    balance2: i128,
)
    requires
        (user2, id2) != (user, id),
    ensures
        m.vote_next(user, id, choice, now, balance).vote_result(user2, id2, choice2, now2, balance2)
            == m.vote_result(user2, id2, choice2, now2, balance2),
{
}

/// A second constructor call is refused: the admin and the token are set once.
pub proof fn lemma_constructor_once(m: TokenGatedModel, admin: Seq<u8>, token: Seq<u8>)
    requires
        m.constructor_result() is Ok,
    ensures
        (TokenGatedModel { admin: Some(admin), token: Some(token), ..m }).constructor_result()
            == Err::<(), _>(TokenGatedContractErrors::ContractAlreadyInitialized),
{
}

} // verus!
