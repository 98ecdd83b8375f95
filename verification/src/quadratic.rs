//! Quadratic voting: a ballot spreads votes over options, `v` votes on an option cost `v * v`
//! tokens and weigh `1000 * floor(sqrt(v))`.
use vstd::prelude::*;
use crate::ballot::{sat_add, saturating_add_i128};
use crate::bytes::{
    bytes_less, bytes_lt, contains_bytes, copy_list, lemma_bytes_lt_irreflexive, lemma_bytes_lt_total,
    lemma_bytes_lt_transitive, opt_bytes, views,
};
use crate::sums::{lemma_sum_congruent, lemma_sum_empty, lemma_sum_insert, lemma_sum_nonneg, sum_of};
use crate::table::{Table, keys_distinct, lemma_map_of_pairs_step, map_of_pairs};
use crate::ttl::{spec_ttl, ttl_fits, ttl_for};

verus! {

pub const MAX_PROPOSAL_DURATION: u64 = 1_296_000;
pub const MIN_PROPOSAL_DURATION: u64 = 432000;
pub const PROPOSALS_TTL_EXTENSION: u32 = 2_100_000;

/// A proposal: its voting window, its options, how many options one ballot may name, and the
/// weight gathered by each option.
pub struct QuadraticVoteProposalData {
    pub description: String,
    pub start_time: u64,
    pub end_time: u64,
    pub options: Vec<Vec<u8>>,
    pub max_options_per_vote: u32,
    pub total_votes: Table<Vec<u8>, i128>,
}

/// A proposal as plain values.
#[verifier::ext_equal]
pub struct QuadraticProposalView {
    pub description: String,
    pub start_time: u64,
    pub end_time: u64,
    pub options: Seq<Seq<u8>>,
    pub max_options_per_vote: u32,
    pub total_votes: Map<Seq<u8>, i128>,
}

impl View for QuadraticVoteProposalData {
    type V = QuadraticProposalView;

    open spec fn view(&self) -> QuadraticProposalView {
        QuadraticProposalView {
            description: self.description,
            start_time: self.start_time,
            end_time: self.end_time,
            options: views(self.options@),
            max_options_per_vote: self.max_options_per_vote,
            total_votes: self.total_votes@,
        }
    }
}

/// A line of the governance overview: `status` tells whether voting is open.
pub struct QuadraticVoteProposalSummary {
    pub id: Vec<u8>,
    pub description: String,
    pub status: bool,
}

#[derive(Clone, Copy, PartialEq, Eq, Structural, Debug)]
pub enum QuadraticVoteContractErrors {
    ContractNotInitialized,
    ContractAlreadyInitialized,
    ProposalAlreadyExists,
    ProposalNotFound,
    UserAlreadyVoted,
    UserCannotVote,
    VotingNotActive,
    InvalidOption,
    StartTimeAfterEnd,
    StartTimeInPast,
    DurationTooLong,
    DurationTooShort,
    TooManyOptions,
    InvalidVoteCount,
    InsufficientBalance,
    NoVotesSubmitted,
}

/// A ballot: votes per option. Its entries may be listed in any order; a vote checks them in
/// the byte order of their options, as a map of symbols walks its keys.
pub type Ballot = Table<Vec<u8>, u32>;

/// The abstract state: admin and token addresses, proposal ids in order of creation, the
/// proposals by id, and each recorded ballot by (user, proposal id).
#[verifier::ext_equal]
pub struct QuadraticModel {
    pub admin: Option<Seq<u8>>,
    pub token: Option<Seq<u8>>,
    pub proposal_ids: Seq<Seq<u8>>,
    pub proposals: Map<Seq<u8>, QuadraticProposalView>,
    pub votes: Map<(Seq<u8>, Seq<u8>), Seq<(Seq<u8>, u32)>>,
}

/// The weight of `v` votes on one option.
pub open spec fn influence(v: u32) -> int {
    1000 * floor_sqrt(v as int)
}

/// A ballot entry that names an unknown option or gives zero votes.
pub open spec fn bad_entry(options: Seq<Seq<u8>>, e: (Seq<u8>, u32)) -> bool {
    !options.contains(e.0) || e.1 == 0
}

/// What a bad entry is refused with: an unknown option before a zero count.
pub open spec fn entry_error(options: Seq<Seq<u8>>, e: (Seq<u8>, u32)) -> QuadraticVoteContractErrors {
    if !options.contains(e.0) {
        QuadraticVoteContractErrors::InvalidOption
    } else {
        QuadraticVoteContractErrors::InvalidVoteCount
    }
}

/// Entry `i` of the ballot is bad, and no bad entry names an option that comes before its own
/// in byte order.
pub open spec fn least_bad(options: Seq<Seq<u8>>, ballot: Seq<(Seq<u8>, u32)>, i: int) -> bool {
    &&& 0 <= i < ballot.len()
    &&& bad_entry(options, ballot[i])
    &&& forall|j: int| 0 <= j < ballot.len() && bad_entry(options, ballot[j])
        ==> !bytes_lt(#[trigger] ballot[j].0, ballot[i].0)
}

/// A ballot's entries are checked in the order of their options, as a map of symbols walks its
/// keys: the bad entry whose option comes first decides the error, whatever order the ballot
/// lists its entries in.
pub open spec fn ballot_error(options: Seq<Seq<u8>>, ballot: Seq<(Seq<u8>, u32)>)
    -> Option<QuadraticVoteContractErrors>
{
    if exists|i: int| #[trigger] least_bad(options, ballot, i) {
        Some(entry_error(options, ballot[choose|i: int| #[trigger] least_bad(options, ballot, i)]))
    } else {
        None
    }
}

/// The tokens a ballot costs: the sum of the squares of its vote counts.
pub open spec fn ballot_cost(ballot: Seq<(Seq<u8>, u32)>) -> int
    decreases ballot.len(),
{
    if ballot.len() == 0 {
        0
    } else {
        ballot_cost(ballot.drop_last()) + ballot.last().1 * ballot.last().1
    }
}

/// Each option of a new proposal starts at zero.
pub open spec fn zero_tallies(options: Seq<Seq<u8>>) -> Map<Seq<u8>, i128> {
    Map::new(|k: Seq<u8>| options.contains(k), |k: Seq<u8>| 0i128)
}

/// The tallies after a ballot: each option that it names gains the ballot's weight on it.
pub open spec fn tallied(total: Map<Seq<u8>, i128>, ballot: Map<Seq<u8>, u32>) -> Map<Seq<u8>, i128> {
    Map::new(
        |k: Seq<u8>| total.contains_key(k) || ballot.contains_key(k),
        |k: Seq<u8>|
            if ballot.contains_key(k) {
                sat_add(
                    if total.contains_key(k) { total[k] as int } else { 0 },
                    influence(ballot[k]),
                ) as i128
            } else {
                total[k]
            },
    )
}

/// The first rule that a proposal's times break, in the order in which they are checked.
pub open spec fn spec_validate_proposal_times(ledger_time: u64, start_time: u64, end_time: u64)
    -> Result<(), QuadraticVoteContractErrors>
{
    if start_time >= end_time {
        Err(QuadraticVoteContractErrors::StartTimeAfterEnd)
    } else if start_time < ledger_time {
        Err(QuadraticVoteContractErrors::StartTimeInPast)
    } else if end_time - start_time > MAX_PROPOSAL_DURATION {
        Err(QuadraticVoteContractErrors::DurationTooLong)
    } else if end_time - start_time < MIN_PROPOSAL_DURATION {
        Err(QuadraticVoteContractErrors::DurationTooShort)
    } else {
        Ok(())
    }
}

impl QuadraticModel {
    /// What the constructor answers.
    pub open spec fn constructor_result(self) -> Result<(), QuadraticVoteContractErrors> {
        if self.admin is Some {
            Err(QuadraticVoteContractErrors::ContractAlreadyInitialized)
        } else {
            Ok(())
        }
    }

    /// What creating a proposal answers.
    pub open spec fn create_proposal_result(
        self,
        id: Seq<u8>,
        start_time: u64,
        end_time: u64,
        options: Seq<Seq<u8>>,
        max_options_per_vote: u32,
        now: u64,
    ) -> Result<(), QuadraticVoteContractErrors> {
        if self.admin is None {
            Err(QuadraticVoteContractErrors::ContractNotInitialized)
        } else if spec_validate_proposal_times(now, start_time, end_time) is Err {
            spec_validate_proposal_times(now, start_time, end_time)
        } else if options.len() == 0 || max_options_per_vote == 0 || max_options_per_vote > options.len() {
            Err(QuadraticVoteContractErrors::InvalidOption)
        } else if self.proposals.contains_key(id) {
            Err(QuadraticVoteContractErrors::ProposalAlreadyExists)
        } else {
            Ok(())
        }
    }

    /// The state after a successful creation.
    pub open spec fn with_proposal(
        self,
        id: Seq<u8>,
        description: String,
        start_time: u64,
        end_time: u64,
        options: Seq<Seq<u8>>,
        max_options_per_vote: u32,
    ) -> QuadraticModel {
        QuadraticModel {
            proposal_ids: self.proposal_ids.push(id),
            proposals: self.proposals.insert(
                id,
                QuadraticProposalView {
                    description,
                    start_time,
                    end_time,
                    options,
                    max_options_per_vote,
                    total_votes: zero_tallies(options),
                },
            ),
            ..self
        }
    }

    /// The checks of a vote made before the voter's balance is asked for.
    pub open spec fn vote_precheck(self, user: Seq<u8>, id: Seq<u8>, now: u64)
        -> Result<(), QuadraticVoteContractErrors>
    {
        if !self.proposals.contains_key(id) {
            Err(QuadraticVoteContractErrors::ProposalNotFound)
        } else if now < self.proposals[id].start_time || now > self.proposals[id].end_time {
            Err(QuadraticVoteContractErrors::VotingNotActive)
        } else if self.votes.contains_key((user, id)) {
            Err(QuadraticVoteContractErrors::UserAlreadyVoted)
        } else if self.token is None {
            Err(QuadraticVoteContractErrors::ContractNotInitialized)
        } else {
            Ok(())
        }
    }

    /// What a vote answers, `balance` being the voter's token balance.
    pub open spec fn vote_result(
        self,
        user: Seq<u8>,
        id: Seq<u8>,
        ballot: Seq<(Seq<u8>, u32)>,
        now: u64,
        balance: i128,
    ) -> Result<(), QuadraticVoteContractErrors> {
        if self.vote_precheck(user, id, now) is Err {
            self.vote_precheck(user, id, now)
        } else if balance <= 0 {
            Err(QuadraticVoteContractErrors::UserCannotVote)
        } else if ballot.len() == 0 {
            Err(QuadraticVoteContractErrors::NoVotesSubmitted)
        } else if ballot.len() > self.proposals[id].max_options_per_vote {
            Err(QuadraticVoteContractErrors::TooManyOptions)
        } else if ballot_error(self.proposals[id].options, ballot) is Some {
            Err(ballot_error(self.proposals[id].options, ballot).unwrap())
        } else if ballot_cost(ballot) > balance {
            Err(QuadraticVoteContractErrors::InsufficientBalance)
        } else {
            Ok(())
        }
    }

    /// The state after a successful vote.
    pub open spec fn with_vote(self, user: Seq<u8>, id: Seq<u8>, ballot: Seq<(Seq<u8>, u32)>)
        -> QuadraticModel
    {
        QuadraticModel {
            proposals: self.proposals.insert(
                id,
                QuadraticProposalView {
                    total_votes: tallied(self.proposals[id].total_votes, map_of_pairs(ballot)),
                    ..self.proposals[id]
                },
            ),
            votes: self.votes.insert((user, id), ballot),
            ..self
        }
    }

    /// The state after a vote, whatever it answered.
    pub open spec fn vote_next(
        self,
        user: Seq<u8>,
        id: Seq<u8>,
        ballot: Seq<(Seq<u8>, u32)>,
        now: u64,
        balance: i128,
    ) -> QuadraticModel {
        if self.vote_result(user, id, ballot, now, balance) is Ok {
            self.with_vote(user, id, ballot)
        } else {
            self
        }
    }
}

/// `r` is the integer square root of `n`.
pub open spec fn is_floor_sqrt(n: int, r: int) -> bool {
    0 <= r && r * r <= n && n < (r + 1) * (r + 1)
}

/// The integer square root of `n`.
pub open spec fn floor_sqrt(n: int) -> int {
    choose|r: int| is_floor_sqrt(n, r)
}

/// A number has at most one integer square root.
pub proof fn lemma_floor_sqrt_unique(n: int, r1: int, r2: int)
    requires
        is_floor_sqrt(n, r1),
        is_floor_sqrt(n, r2),
    ensures
        r1 == r2,
{
    if r1 < r2 {
        assert((r1 + 1) * (r1 + 1) <= r2 * r2) by (nonlinear_arith)
            requires
                0 <= r1 < r2,
        ;
    } else if r2 < r1 {
        assert((r2 + 1) * (r2 + 1) <= r1 * r1) by (nonlinear_arith)
            requires
                0 <= r2 < r1,
        ;
    }
}

proof fn lemma_div_square(n: int, m: int)
    requires
        m >= 1,
        n >= 0,
    ensures
        (m <= n / m) <==> (m * m <= n),
{
    assert((m <= n / m) ==> (m * m <= n)) by (nonlinear_arith)
        requires
            m >= 1,
            n >= 0,
    ;
    assert((m * m <= n) ==> (m <= n / m)) by (nonlinear_arith)
        requires
            m >= 1,
            n >= 0,
    ;
}

/// The stored state of a quadratic vote contract. Addresses, proposal ids and options are
/// held by their bytes.
pub struct QuadraticVoteContract {
    admin: Option<Vec<u8>>,
    token: Option<Vec<u8>>,
    proposal_ids: Vec<Vec<u8>>,
    proposals: Table<Vec<u8>, QuadraticVoteProposalData>,
    votes: Table<(Vec<u8>, Vec<u8>), Ballot>,
}

/// The bound on the square of a 32-bit vote count.
pub open spec fn square_bound() -> int {
    0xffff_fffe_0000_0001
}

proof fn lemma_square_bound(v: u32)
    ensures
        0 <= v * v <= square_bound(),
{
    assert(0 <= v * v <= square_bound()) by (nonlinear_arith)
        requires
            v <= 0xffff_ffffu32,
    ;
}

proof fn lemma_cost_nonneg(s: Seq<(Seq<u8>, u32)>)
    ensures
        ballot_cost(s) >= 0,
    decreases s.len(),
{
    if s.len() > 0 {
        lemma_cost_nonneg(s.drop_last());
        lemma_square_bound(s.last().1);
    }
}

proof fn lemma_cost_prefix(s: Seq<(Seq<u8>, u32)>, j: int)
    requires
        0 <= j <= s.len(),
    ensures
        0 <= ballot_cost(s.take(j)) <= ballot_cost(s),
    decreases s.len(),
{
    lemma_cost_nonneg(s.take(j));
    if j == s.len() {
        assert(s.take(j) =~= s);
    } else {
        assert(s.drop_last().take(j) =~= s.take(j));
        lemma_cost_prefix(s.drop_last(), j);
        lemma_square_bound(s.last().1);
    }
}

proof fn lemma_prefix_step(s: Seq<(Seq<u8>, u32)>, i: int)
    requires
        0 <= i < s.len(),
    ensures
        s.take(i + 1).drop_last() == s.take(i),
        s.take(i + 1).last() == s[i],
{
    assert(s.take(i + 1).drop_last() =~= s.take(i));
}

proof fn lemma_tallied_empty(total: Map<Seq<u8>, i128>)
    ensures
        tallied(total, Map::empty()) == total,
{
    assert(tallied(total, Map::empty()) =~= total);
}

proof fn lemma_tallied_step(total: Map<Seq<u8>, i128>, m: Map<Seq<u8>, u32>, k: Seq<u8>, v: u32)
    requires
        !m.contains_key(k),
    ensures
        tallied(total, m).contains_key(k) == total.contains_key(k),
        total.contains_key(k) ==> tallied(total, m)[k] == total[k],
        tallied(total, m.insert(k, v)) == tallied(total, m).insert(
            k,
            sat_add(if total.contains_key(k) { total[k] as int } else { 0 }, influence(v)) as i128,
        ),
{
    assert(tallied(total, m.insert(k, v)) =~= tallied(total, m).insert(
        k,
        sat_add(if total.contains_key(k) { total[k] as int } else { 0 }, influence(v)) as i128,
    ));
}

proof fn lemma_zero_tallies_step(options: Seq<Seq<u8>>, i: int)
    requires
        0 <= i < options.len(),
    ensures
        zero_tallies(options.take(i + 1)) == zero_tallies(options.take(i)).insert(options[i], 0i128),
{
    let a = options.take(i + 1);
    let b = options.take(i);
    assert forall|k: Seq<u8>| a.contains(k) <==> (b.contains(k) || k == options[i]) by {
        if a.contains(k) && k != options[i] {
            let j = choose|j: int| 0 <= j < a.len() && a[j] == k;
            assert(j < i);
            assert(b[j] == k);
        }
        if b.contains(k) {
            let j = choose|j: int| 0 <= j < b.len() && b[j] == k;
            assert(a[j] == k);
        }
        if k == options[i] {
            assert(a[i] == k);
        }
    }
    assert(zero_tallies(a) =~= zero_tallies(b).insert(options[i], 0i128));
}

/// Whether a ballot costs no more than an `i128` holds.
fn cost_fits(ballot: &Ballot) -> (r: bool)
    requires
        ballot.wf(),
    ensures
        r == (ballot_cost(ballot.pairs()) <= i128::MAX),
{
    let ghost pairs = ballot.pairs();
    proof {
        ballot.lemma_pairs();
    }
    let n = ballot.len();
    let mut acc: i128 = 0;
    let mut i: usize = 0;
    while i < n
        invariant
            ballot.wf(),
            pairs == ballot.pairs(),
            n == pairs.len(),
            n == ballot.keys().len(),
            i <= n,
            acc == ballot_cost(pairs.take(i as int)),
            forall|j: int| 0 <= j < pairs.len() ==> (#[trigger] pairs[j]).0 == ballot.keys()[j]
                && ballot@[pairs[j].0] == pairs[j].1,
        decreases n - i,
    {
        let v = *ballot.value_at(i);
        proof {
            lemma_prefix_step(pairs, i as int);
            assert(pairs[i as int].1 == v);
            lemma_square_bound(v);
            lemma_cost_nonneg(pairs.take(i as int));
        }
        let square = (v as i128) * (v as i128);
        if acc > i128::MAX - square {
            proof {
                lemma_cost_prefix(pairs, i + 1);
            }
            return false;
        }
        acc = acc + square;
        i = i + 1;
    }
    assert(pairs.take(n as int) =~= pairs);
    true
}

/// Whether every proposal's tally table is well formed.
fn tallies_well_formed(proposals: &Table<Vec<u8>, QuadraticVoteProposalData>) -> (r: bool)
    requires
        proposals.wf(),
    ensures
        r == forall|k: Seq<u8>| #[trigger] proposals@.contains_key(k) ==> proposals@[k].total_votes.wf(),
{
    proof {
        proposals.lemma_keys();
    }
    let n = proposals.len();
    let mut i: usize = 0;
    while i < n
        invariant
            proposals.wf(),
            n == proposals.keys().len(),
            forall|k: Seq<u8>| proposals@.contains_key(k) <==> proposals.keys().contains(k),
            i <= n,
            forall|j: int| 0 <= j < i ==> (#[trigger] proposals@[proposals.keys()[j]]).total_votes.wf(),
        decreases n - i,
    {
        let key = proposals.key_at(i);
        if !proposals.value_at(i).total_votes.is_well_formed() {
            assert(proposals@.contains_key(key@));
            return false;
        }
        i = i + 1;
    }
    assert forall|k: Seq<u8>| #[trigger] proposals@.contains_key(k) implies proposals@[k].total_votes.wf() by {
        let j = proposals.keys().index_of(k);
        assert(proposals@[proposals.keys()[j]].total_votes.wf());
    }
    true
}

/// Whether every recorded ballot is well formed and costs no more than an `i128` holds.
fn ballots_within_bounds(votes: &Table<(Vec<u8>, Vec<u8>), Ballot>) -> (r: bool)
    requires
        votes.wf(),
    ensures
        r == forall|k: (Seq<u8>, Seq<u8>)| #[trigger] votes@.contains_key(k)
            ==> votes@[k].wf() && ballot_cost(votes@[k].pairs()) <= i128::MAX,
{
    proof {
        votes.lemma_keys();
    }
    let n = votes.len();
    let mut i: usize = 0;
    while i < n
        invariant
            votes.wf(),
            n == votes.keys().len(),
            forall|k: (Seq<u8>, Seq<u8>)| votes@.contains_key(k) <==> votes.keys().contains(k),
            i <= n,
            forall|j: int| 0 <= j < i ==> (#[trigger] votes@[votes.keys()[j]]).wf()
                && ballot_cost(votes@[votes.keys()[j]].pairs()) <= i128::MAX,
        decreases n - i,
    {
        let key = votes.key_at(i);
        let ballot = votes.value_at(i);
        if !ballot.is_well_formed() {
            assert(votes@.contains_key(key@));
            return false;
        }
        if !cost_fits(ballot) {
            assert(votes@.contains_key(key@));
            return false;
        }
        i = i + 1;
    }
    assert forall|k: (Seq<u8>, Seq<u8>)| #[trigger] votes@.contains_key(k) implies votes@[k].wf()
        && ballot_cost(votes@[k].pairs()) <= i128::MAX by {
        let j = votes.keys().index_of(k);
        assert(votes@[votes.keys()[j]].wf());
    }
    true
}

impl QuadraticVoteContract {
    pub closed spec fn ids(&self) -> Seq<Seq<u8>> {
        views(self.proposal_ids@)
    }

    /// The abstract state of the contract.
    pub closed spec fn view(&self) -> QuadraticModel {
        QuadraticModel {
            admin: match self.admin {
                Some(a) => Some(a@),
                None => None,
            },
            token: match self.token {
                Some(t) => Some(t@),
                None => None,
            },
            proposal_ids: self.ids(),
            proposals: self.proposals@.map_values(|p: QuadraticVoteProposalData| p@),
            votes: self.votes@.map_values(|b: Ballot| b.pairs()),
        }
    }

    /// The stored state is consistent: the id list names each stored proposal exactly once,
    /// every table is well formed, and no recorded ballot costs more than an `i128` holds.
    pub closed spec fn wf(&self) -> bool {
        &&& self.proposals.wf()
        &&& self.votes.wf()
        &&& self.ids().no_duplicates()
        &&& forall|k: Seq<u8>| self.proposals@.contains_key(k) <==> self.ids().contains(k)
        &&& forall|k: Seq<u8>| #[trigger] self.proposals@.contains_key(k)
            ==> self.proposals@[k].total_votes.wf()
        &&& forall|k: (Seq<u8>, Seq<u8>)| #[trigger] self.votes@.contains_key(k)
            ==> self.votes@[k].wf() && ballot_cost(self.votes@[k].pairs()) <= i128::MAX
    }

    /// Storage before the constructor has run: nothing is stored.
    pub fn new() -> (c: Self)
        ensures
            c.wf(),
            c.view() == (QuadraticModel {
                admin: None,
                token: None,
                proposal_ids: Seq::empty(),
                proposals: Map::empty(),
                votes: Map::empty(),
            }),
    {
        let c = QuadraticVoteContract {
            admin: None,
            token: None,
            proposal_ids: Vec::new(),
            proposals: Table::new(),
            votes: Table::new(),
        };
        assert(c.ids() =~= Seq::<Seq<u8>>::empty());
        assert(c.view().proposals =~= Map::empty());
        assert(c.view().votes =~= Map::empty());
        c
    }

    /// The admin address, once set.
    pub fn admin(&self) -> (r: Option<&Vec<u8>>)
        ensures
            match r {
                Some(a) => self.view().admin == Some(a@),
                None => self.view().admin is None,
            },
    {
        match &self.admin {
            Some(a) => Some(a),
            None => None,
        }
    }

    /// The governance token's address, once set.
    pub fn token(&self) -> (r: Option<&Vec<u8>>)
        ensures
            match r {
                Some(t) => self.view().token == Some(t@),
                None => self.view().token is None,
            },
    {
        match &self.token {
            Some(t) => Some(t),
            None => None,
        }
    }

    /// Rebuilds the stored state from its parts. `None` where a table repeats a key, the id list
    /// does not name each stored proposal exactly once, or a recorded ballot costs more than an
    /// `i128` holds.
    pub fn from_parts(
        admin: Option<Vec<u8>>,
        token: Option<Vec<u8>>,
        proposal_ids: Vec<Vec<u8>>,
        proposals: Table<Vec<u8>, QuadraticVoteProposalData>,
        votes: Table<(Vec<u8>, Vec<u8>), Ballot>,
    ) -> (r: Option<Self>)
        ensures
            r is Some <==> (proposals.wf() && votes.wf() && views(proposal_ids@).no_duplicates()
                && (forall|k: Seq<u8>| proposals@.contains_key(k) <==> views(proposal_ids@).contains(k))
                && (forall|k: Seq<u8>| #[trigger] proposals@.contains_key(k)
                    ==> proposals@[k].total_votes.wf())
                && (forall|k: (Seq<u8>, Seq<u8>)| #[trigger] votes@.contains_key(k)
                    ==> votes@[k].wf() && ballot_cost(votes@[k].pairs()) <= i128::MAX)),
            r matches Some(c) ==> c.wf() && c.view() == (QuadraticModel {
                admin: opt_bytes(admin),
                token: opt_bytes(token),
                proposal_ids: views(proposal_ids@),
                proposals: proposals@.map_values(|p: QuadraticVoteProposalData| p@),
                votes: votes@.map_values(|b: Ballot| b.pairs()),
            }),
    {
        if !proposals.is_well_formed() || !votes.is_well_formed() {
            return None;
        }
        if !proposals.lists_keys_once(&proposal_ids) {
            return None;
        }
        if !tallies_well_formed(&proposals) || !ballots_within_bounds(&votes) {
            return None;
        }
        Some(QuadraticVoteContract { admin, token, proposal_ids, proposals, votes })
    }

    /// The proposal ids, in order of creation.
    pub fn proposal_ids(&self) -> (r: &Vec<Vec<u8>>)
        ensures
            views(r@) == self.view().proposal_ids,
    {
        &self.proposal_ids
    }

    /// The stored proposals, by id.
    pub fn proposals(&self) -> (r: &Table<Vec<u8>, QuadraticVoteProposalData>)
        requires
            self.wf(),
        ensures
            r.wf(),
            r@.map_values(|p: QuadraticVoteProposalData| p@) == self.view().proposals,
            forall|k: Seq<u8>| #[trigger] r@.contains_key(k) ==> r@[k].total_votes.wf(),
    {
        &self.proposals
    }

    /// The recorded ballots, by (user, proposal id).
    pub fn votes(&self) -> (r: &Table<(Vec<u8>, Vec<u8>), Ballot>)
        requires
            self.wf(),
        ensures
            r.wf(),
            r@.map_values(|b: Ballot| b.pairs()) == self.view().votes,
            forall|k: (Seq<u8>, Seq<u8>)| #[trigger] r@.contains_key(k) ==> r@[k].wf(),
    {
        &self.votes
    }

    /// The lifetime of a proposal's entries: its remaining time plus a week, at least
    /// `PROPOSALS_TTL_EXTENSION`.
    pub fn calculate_proposal_ttl(ledger_time: u64, proposal_end_time: u64) -> (r: u32)
        requires
            ttl_fits(ledger_time, proposal_end_time),
        ensures
            r == spec_ttl(ledger_time, proposal_end_time, PROPOSALS_TTL_EXTENSION),
    {
        ttl_for(ledger_time, proposal_end_time, PROPOSALS_TTL_EXTENSION)
    }

    /// Checks a proposal's voting window against the ledger time and the duration limits.
    pub fn validate_proposal_times(ledger_time: u64, start_time: u64, end_time: u64)
        -> (r: Result<(), QuadraticVoteContractErrors>)
        ensures
            r == spec_validate_proposal_times(ledger_time, start_time, end_time),
            r is Ok <==> (start_time < end_time && ledger_time <= start_time
                && MIN_PROPOSAL_DURATION <= end_time - start_time <= MAX_PROPOSAL_DURATION),
    {
        if start_time >= end_time {
            return Err(QuadraticVoteContractErrors::StartTimeAfterEnd);
        }
        if start_time < ledger_time {
            return Err(QuadraticVoteContractErrors::StartTimeInPast);
        }
        let duration = end_time - start_time;
        if duration > MAX_PROPOSAL_DURATION {
            return Err(QuadraticVoteContractErrors::DurationTooLong);
        }
        if duration < MIN_PROPOSAL_DURATION {
            return Err(QuadraticVoteContractErrors::DurationTooShort);
        }
        Ok(())
    }

    /// The weight of `votes` votes on one option: a thousand times the integer square root.
    pub fn quadratic_influence(votes: u32) -> (r: i128)
        ensures
            r == influence(votes),
            0 <= r <= 65535000,
    {
        if votes == 0 {
            assert(is_floor_sqrt(0, 0));
            proof {
                lemma_floor_sqrt_unique(0, 0, floor_sqrt(0));
            }
            return 0;
        }
        let root = Self::integer_sqrt(votes as u64);
        assert(root < 65536) by (nonlinear_arith)
            requires
                root as int * root as int <= votes as int,
                votes <= 0xffff_ffffu32,
        ;
        let sqrt_approx = root as i128;
        sqrt_approx * 1000
    }

    /// The integer square root of `n`, by binary search.
    pub fn integer_sqrt(n: u64) -> (r: u64)
        ensures
            is_floor_sqrt(n as int, r as int),
            r == floor_sqrt(n as int),
    {
        if n < 2 {
            assert(is_floor_sqrt(n as int, n as int)) by (nonlinear_arith)
                requires
                    n < 2,
            ;
            proof {
                lemma_floor_sqrt_unique(n as int, n as int, floor_sqrt(n as int));
            }
            return n;
        }
        let mut left: u64 = 1;
        let mut right: u64 = n;
        assert((n as int + 1) * (n as int + 1) > n) by (nonlinear_arith)
            requires
                n >= 2,
        ;
        while left <= right
            invariant
                1 <= left,
                left <= right + 1,
                right <= n,
                (left - 1) * (left - 1) <= n,
                (right + 1) * (right + 1) > n,
            decreases right + 1 - left,
        {
            let mid = left + (right - left) / 2;
            proof {
                lemma_div_square(n as int, mid as int);
            }
            if mid <= n / mid {
                assert(mid < u64::MAX) by (nonlinear_arith)
                    requires
                        mid as int * mid as int <= n,
                        n <= u64::MAX,
                        mid >= 1,
                ;
                left = mid + 1;
            } else {
                right = mid - 1;
            }
        }
        assert(is_floor_sqrt(n as int, right as int));
        proof {
            lemma_floor_sqrt_unique(n as int, right as int, floor_sqrt(n as int));
        }
        right
    }

    /// Sets the admin and the token, once.
    pub fn __constructor(&mut self, admin: Vec<u8>, token: Vec<u8>)
        -> (r: Result<(), QuadraticVoteContractErrors>)
        requires
            old(self).wf(),
        ensures
            final(self).wf(),
            r == old(self).view().constructor_result(),
            r is Ok ==> final(self).view() == (QuadraticModel {
                admin: Some(admin@),
                token: Some(token@),
                ..old(self).view()
            }),
            r is Err ==> final(self).view() == old(self).view(),
    {
        if self.admin.is_some() {
            return Err(QuadraticVoteContractErrors::ContractAlreadyInitialized);
        }
        self.admin = Some(admin);
        self.token = Some(token);
        Ok(())
    }

    /// Creates a proposal whose options all start at zero and appends its id to the list.
    /// The admin authorizes the call.
    pub fn create_proposal(
        &mut self,
        id: Vec<u8>,
        description: String,
        start_time: u64,
        end_time: u64,
        options: Vec<Vec<u8>>,
        max_options_per_vote: u32,
        now: u64,
    ) -> (r: Result<(), QuadraticVoteContractErrors>)
        requires
            old(self).wf(),
        ensures
            final(self).wf(),
            r == old(self).view().create_proposal_result(
                id@,
                start_time,
                end_time,
                views(options@),
                max_options_per_vote,
                now,
            ),
            r is Ok ==> final(self).view() == old(self).view().with_proposal(
                id@,
                description,
                start_time,
                end_time,
                views(options@),
                max_options_per_vote,
            ),
            r is Err ==> final(self).view() == old(self).view(),
    {
        if self.admin.is_none() {
            return Err(QuadraticVoteContractErrors::ContractNotInitialized);
        }
        Self::validate_proposal_times(now, start_time, end_time)?;
        if options.len() == 0 || max_options_per_vote == 0 || max_options_per_vote as usize > options.len() {
            return Err(QuadraticVoteContractErrors::InvalidOption);
        }
        if self.proposals.contains_key(&id) {
            return Err(QuadraticVoteContractErrors::ProposalAlreadyExists);
        }
        let ghost opts = views(options@);
        let mut total_votes: Table<Vec<u8>, i128> = Table::new();
        let n = options.len();
        let mut i: usize = 0;
        assert(zero_tallies(opts.take(0)) =~= Map::<Seq<u8>, i128>::empty());
        while i < n
            invariant
                n == options@.len(),
                opts == views(options@),
                i <= n,
                total_votes.wf(),
                total_votes@ == zero_tallies(opts.take(i as int)),
            decreases n - i,
        {
            proof {
                lemma_zero_tallies_step(opts, i as int);
            }
            total_votes.insert(options[i].clone(), 0);
            i = i + 1;
        }
        assert(opts.take(n as int) =~= opts);
        let ghost old_ids = self.ids();
        let ghost old_props = self.proposals@;
        let proposal = QuadraticVoteProposalData {
            description,
            start_time,
            end_time,
            options,
            max_options_per_vote,
            total_votes,
        };
        self.proposals.insert(id.clone(), proposal);
        self.proposal_ids.push(id);
        proof {
            assert(self.ids() =~= old_ids.push(id@));
            assert(!old_ids.contains(id@));
            assert(self.ids().no_duplicates()) by {
                assert forall|a: int, b: int|
                    0 <= a < self.ids().len() && 0 <= b < self.ids().len() && a != b implies
                    self.ids()[a] != self.ids()[b] by {
                    if a == old_ids.len() {
                        assert(old_ids[b] != id@);
                    } else if b == old_ids.len() {
                        assert(old_ids[a] != id@);
                    }
                }
            }
            assert forall|k: Seq<u8>| self.proposals@.contains_key(k) <==> self.ids().contains(k) by {
                if k != id@ && old_ids.contains(k) {
                    let j = old_ids.index_of(k);
                    assert(self.ids()[j] == k);
                }
                if self.ids().contains(k) && k != id@ {
                    let j = self.ids().index_of(k);
                    assert(j < old_ids.len());
                    assert(old_ids[j] == k);
                }
                if k == id@ {
                    assert(self.ids()[old_ids.len() as int] == k);
                }
            }
            assert(self.view().proposals =~= old(self).view().with_proposal(
                id@,
                description,
                start_time,
                end_time,
                opts,
                max_options_per_vote,
            ).proposals);
        }
        Ok(())
    }

    /// The checks of a vote that come before the voter's balance is needed. On success,
    /// gives the address of the token whose balance the vote needs.
    pub fn check_vote(&self, user: &Vec<u8>, id: &Vec<u8>, now: u64)
        -> (r: Result<&Vec<u8>, QuadraticVoteContractErrors>)
        requires
            self.wf(),
        ensures
            match r {
                Ok(t) => self.view().vote_precheck(user@, id@, now) is Ok
                    && self.view().token == Some(t@),
                Err(e) => self.view().vote_precheck(user@, id@, now) == Err::<(), _>(e),
            },
    {
        let proposal = match self.proposals.get(id) {
            Some(p) => p,
            None => return Err(QuadraticVoteContractErrors::ProposalNotFound),
        };
        if now < proposal.start_time || now > proposal.end_time {
            return Err(QuadraticVoteContractErrors::VotingNotActive);
        }
        let key = (user.clone(), id.clone());
        if self.votes.contains_key(&key) {
            return Err(QuadraticVoteContractErrors::UserAlreadyVoted);
        }
        match &self.token {
            Some(t) => Ok(t),
            None => Err(QuadraticVoteContractErrors::ContractNotInitialized),
        }
    }

    /// Records `user`'s ballot on proposal `id`: during the voting window, once per proposal,
    /// for a holder whose token `balance` covers the sum of the squared vote counts. Each
    /// named option gains `1000 * floor(sqrt(v))`. The user authorizes the call.
    #[verifier::loop_isolation(false)]
    pub fn vote(&mut self, user: Vec<u8>, id: Vec<u8>, votes: Ballot, now: u64, balance: i128)
        -> (r: Result<(), QuadraticVoteContractErrors>)
        requires
            old(self).wf(),
            votes.wf(),
        ensures
            final(self).wf(),
            r == old(self).view().vote_result(user@, id@, votes.pairs(), now, balance),
            final(self).view() == old(self).view().vote_next(user@, id@, votes.pairs(), now, balance),
    {
        match self.check_vote(&user, &id, now) {
            Ok(_) => {},
            Err(e) => return Err(e),
        }
        if balance <= 0 {
            return Err(QuadraticVoteContractErrors::UserCannotVote);
        }
        let ghost pairs = votes.pairs();
        proof {
            votes.lemma_pairs();
            votes.lemma_map_of_pairs();
        }
        let n = votes.len();
        if n == 0 {
            return Err(QuadraticVoteContractErrors::NoVotesSubmitted);
        }
        let proposal = match self.proposals.get(&id) {
            Some(p) => p,
            None => return Err(QuadraticVoteContractErrors::ProposalNotFound),
        };
        if n > proposal.max_options_per_vote as usize {
            return Err(QuadraticVoteContractErrors::TooManyOptions);
        }
        let ghost opts = views(proposal.options@);
        let mut total_cost: i128 = 0;
        // The bad entry whose option comes first in byte order, among those seen so far.
        let mut first_bad: Option<usize> = None;
        let mut i: usize = 0;
        while i < n
            invariant
                votes.wf(),
                pairs == votes.pairs(),
                n == pairs.len(),
                n == votes.keys().len(),
                n <= 0xffff_ffff,
                opts == views(proposal.options@),
                i <= n,
                match first_bad {
                    Some(b) => b < i && bad_entry(opts, pairs[b as int]) && forall|j: int|
                        0 <= j < i && bad_entry(opts, pairs[j]) ==> !bytes_lt(#[trigger] pairs[j].0, pairs[b as int].0),
                    None => forall|j: int| 0 <= j < i ==> !bad_entry(opts, #[trigger] pairs[j]),
                },
                total_cost == ballot_cost(pairs.take(i as int)),
                0 <= total_cost <= i * square_bound(),
                forall|j: int| 0 <= j < pairs.len() ==> (#[trigger] pairs[j]).0 == votes.keys()[j]
                    && votes@[pairs[j].0] == pairs[j].1,
            decreases n - i,
        {
            let option = votes.key_at(i);
            let v = *votes.value_at(i);
            proof {
                lemma_prefix_step(pairs, i as int);
                assert(pairs[i as int] == (option@, v));
            }
            let bad = !contains_bytes(&proposal.options, option) || v == 0;
            if bad {
                match first_bad {
                    Some(b) => {
                        if bytes_less(option, votes.key_at(b)) {
                            proof {
                                assert(pairs[b as int].0 == votes.keys()[b as int]);
                                lemma_bytes_lt_irreflexive(option@);
                                assert forall|j: int| 0 <= j < i + 1 && bad_entry(opts, pairs[j]) implies
                                    !bytes_lt(#[trigger] pairs[j].0, pairs[i as int].0) by {
                                    if j < i && bytes_lt(pairs[j].0, pairs[i as int].0) {
                                        lemma_bytes_lt_transitive(pairs[j].0, pairs[i as int].0, pairs[b as int].0);
                                    }
                                }
                            }
                            first_bad = Some(i);
                        } else {
                            assert(pairs[b as int].0 == votes.keys()[b as int]);
                        }
                    },
                    None => {
                        proof {
                            lemma_bytes_lt_irreflexive(option@);
                        }
                        first_bad = Some(i);
                    },
                }
            }
            proof {
                lemma_square_bound(v);
            }
            total_cost = total_cost + (v as i128) * (v as i128);
            i = i + 1;
        }
        assert(pairs.take(n as int) =~= pairs);
        match first_bad {
            Some(b) => {
                let option = votes.key_at(b);
                proof {
                    assert(pairs[b as int].0 == option@);
                    assert(least_bad(opts, pairs, b as int));
                    let c = choose|c: int| #[trigger] least_bad(opts, pairs, c);
                    assert(least_bad(opts, pairs, c));
                    if pairs[c].0 != pairs[b as int].0 {
                        lemma_bytes_lt_total(pairs[c].0, pairs[b as int].0);
                    }
                }
                if !contains_bytes(&proposal.options, option) {
                    return Err(QuadraticVoteContractErrors::InvalidOption);
                } else {
                    return Err(QuadraticVoteContractErrors::InvalidVoteCount);
                }
            },
            None => {
                assert(!exists|c: int| #[trigger] least_bad(opts, pairs, c));
            },
        }
        if total_cost > balance {
            return Err(QuadraticVoteContractErrors::InsufficientBalance);
        }
        let ghost old_ids = self.ids();
        let ghost old_view = self.view();
        let mut proposal = match self.proposals.remove(&id) {
            Some(p) => p,
            None => return Err(QuadraticVoteContractErrors::ProposalNotFound),
        };
        let ghost old_total = proposal.total_votes@;
        let ghost old_proposal = proposal@;
        assert(proposal.total_votes.wf());
        proof {
            lemma_tallied_empty(old_total);
            assert(map_of_pairs(pairs.take(0)) =~= Map::<Seq<u8>, u32>::empty());
        }
        let mut i: usize = 0;
        while i < n
            invariant
                votes.wf(),
                pairs == votes.pairs(),
                keys_distinct(pairs),
                n == pairs.len(),
                n == votes.keys().len(),
                i <= n,
                proposal.total_votes.wf(),
                proposal.total_votes@ == tallied(old_total, map_of_pairs(pairs.take(i as int))),
                proposal@ == (QuadraticProposalView { total_votes: proposal.total_votes@, ..old_proposal }),
                forall|j: int| 0 <= j < pairs.len() ==> (#[trigger] pairs[j]).0 == votes.keys()[j]
                    && votes@[pairs[j].0] == pairs[j].1,
            decreases n - i,
        {
            let option = votes.key_at(i);
            let v = *votes.value_at(i);
            proof {
                lemma_map_of_pairs_step(pairs, i as int);
                assert(pairs[i as int] == (option@, v));
                lemma_tallied_step(old_total, map_of_pairs(pairs.take(i as int)), option@, v);
            }
            let current_votes: i128 = match proposal.total_votes.get(option) {
                Some(c) => *c,
                None => 0,
            };
            let influence = Self::quadratic_influence(v);
            proposal.total_votes.insert(option.clone(), saturating_add_i128(current_votes, influence));
            i = i + 1;
        }
        assert(pairs.take(n as int) =~= pairs);
        self.proposals.insert(id.clone(), proposal);
        self.votes.insert((user, id), votes);
        proof {
            assert(self.ids() == old_ids);
            assert(self.view().proposals =~= old_view.with_vote(user@, id@, pairs).proposals);
            assert(self.view().votes =~= old_view.with_vote(user@, id@, pairs).votes);
        }
        Ok(())
    }

    /// Hands the admin role to `new_admin`. The current admin authorizes the call.
    pub fn transfer_admin(&mut self, new_admin: Vec<u8>) -> (r: Result<(), QuadraticVoteContractErrors>)
        requires
            old(self).wf(),
        ensures
            final(self).wf(),
            r is Err <==> old(self).view().admin is None,
            r is Err ==> r == Err::<(), _>(QuadraticVoteContractErrors::ContractNotInitialized)
                && final(self).view() == old(self).view(),
            r is Ok ==> final(self).view() == (QuadraticModel { admin: Some(new_admin@), ..old(self).view() }),
    {
        if self.admin.is_none() {
            return Err(QuadraticVoteContractErrors::ContractNotInitialized);
        }
        self.admin = Some(new_admin);
        Ok(())
    }

    /// One summary per proposal, in order of creation; `status` tells whether `now` lies in
    /// the voting window.
    pub fn get_governance_details(&self, now: u64) -> (r: Vec<QuadraticVoteProposalSummary>)
        requires
            self.wf(),
        ensures
            r@.len() == self.view().proposal_ids.len(),
            forall|i: int| 0 <= i < r@.len() ==> {
                let id = #[trigger] self.view().proposal_ids[i];
                let p = self.view().proposals[id];
                &&& r@[i].id@ == id
                &&& r@[i].description == p.description
                &&& r@[i].status == (p.start_time <= now && now <= p.end_time)
            },
    {
        let mut summary: Vec<QuadraticVoteProposalSummary> = Vec::new();
        let n = self.proposal_ids.len();
        let mut i: usize = 0;
        while i < n
            invariant
                self.wf(),
                n == self.proposal_ids@.len(),
                i <= n,
                summary@.len() == i,
                forall|j: int| 0 <= j < i ==> {
                    let id = #[trigger] self.ids()[j];
                    let p = self.proposals@[id];
                    &&& summary@[j].id@ == id
                    &&& summary@[j].description == p.description
                    &&& summary@[j].status == (p.start_time <= now && now <= p.end_time)
                },
            decreases n - i,
        {
            let id = &self.proposal_ids[i];
            assert(self.ids()[i as int] == id@);
            match self.proposals.get(id) {
                Some(proposal) => {
                    let status = now >= proposal.start_time && now <= proposal.end_time;
                    summary.push(QuadraticVoteProposalSummary {
                        id: id.clone(),
                        description: proposal.description.clone(),
                        status,
                    });
                },
                None => {
                    assert(self.ids().contains(id@));
                    assert(false);
                },
            }
            i = i + 1;
        }
        proof {
            assert forall|j: int| 0 <= j < n implies
                self.view().proposals[#[trigger] self.ids()[j]] == self.proposals@[self.ids()[j]]@ by {
                assert(self.ids().contains(self.ids()[j]));
            }
        }
        summary
    }

    /// The stored proposal `id`.
    pub fn get_proposal_details(&self, id: &Vec<u8>)
        -> (r: Result<QuadraticVoteProposalData, QuadraticVoteContractErrors>)
        requires
            self.wf(),
        ensures
            match r {
                Ok(p) => self.view().proposals.contains_key(id@) && p@ == self.view().proposals[id@]
                    && p.total_votes.wf(),
                Err(e) => !self.view().proposals.contains_key(id@)
                    && e == QuadraticVoteContractErrors::ProposalNotFound,
            },
    {
        match self.proposals.get(id) {
            Some(p) => {
                let copy = QuadraticVoteProposalData {
                    description: p.description.clone(),
                    start_time: p.start_time,
                    end_time: p.end_time,
                    options: copy_list(&p.options),
                    max_options_per_vote: p.max_options_per_vote,
                    total_votes: p.total_votes.copy(),
                };
                assert(copy@ =~= p@);
                Ok(copy)
            },
            None => Err(QuadraticVoteContractErrors::ProposalNotFound),
        }
    }

    /// What `votes` votes on one option cost, `votes * votes`, and what they weigh.
    pub fn get_vote_cost_and_influence(votes: u32) -> (r: (u32, i128))
        requires
            votes * votes <= u32::MAX,
        ensures
            r.0 == votes * votes,
            r.1 == influence(votes),
    {
        let cost = votes * votes;
        let influence = Self::quadratic_influence(votes);
        (cost, influence)
    }

    /// The tokens that a recorded ballot cost.
    fn recorded_cost(ballot: &Ballot) -> (r: i128)
        requires
            ballot.wf(),
            ballot_cost(ballot.pairs()) <= i128::MAX,
        ensures
            r == ballot_cost(ballot.pairs()),
    {
        let ghost pairs = ballot.pairs();
        proof {
            ballot.lemma_pairs();
        }
        let n = ballot.len();
        let mut acc: i128 = 0;
        let mut i: usize = 0;
        while i < n
            invariant
                ballot.wf(),
                pairs == ballot.pairs(),
                n == pairs.len(),
                n == ballot.keys().len(),
                ballot_cost(pairs) <= i128::MAX,
                i <= n,
                acc == ballot_cost(pairs.take(i as int)),
                forall|j: int| 0 <= j < pairs.len() ==> (#[trigger] pairs[j]).0 == ballot.keys()[j]
                    && ballot@[pairs[j].0] == pairs[j].1,
            decreases n - i,
        {
            let v = *ballot.value_at(i);
            proof {
                lemma_prefix_step(pairs, i as int);
                assert(pairs[i as int].1 == v);
                lemma_cost_prefix(pairs, i + 1);
                lemma_square_bound(v);
            }
            acc = acc + (v as i128) * (v as i128);
            i = i + 1;
        }
        assert(pairs.take(n as int) =~= pairs);
        acc
    }

    /// For each proposal, in order of creation: its id, whether `user` voted on it, and what
    /// the user's ballot cost, or the user's `balance` where the user has not voted.
    pub fn get_user_details(&self, user: &Vec<u8>, balance: i128)
        -> (r: Result<Vec<(Vec<u8>, bool, i128)>, QuadraticVoteContractErrors>)
        requires
            self.wf(),
        ensures
            r is Err <==> self.view().token is None,
            r is Err ==> r == Err::<Vec<(Vec<u8>, bool, i128)>, _>(
                QuadraticVoteContractErrors::ContractNotInitialized,
            ),
            r matches Ok(v) ==> {
                &&& v@.len() == self.view().proposal_ids.len()
                &&& forall|i: int| 0 <= i < v@.len() ==> {
                    let id = #[trigger] self.view().proposal_ids[i];
                    &&& v@[i].0@ == id
                    &&& v@[i].1 == self.view().votes.contains_key((user@, id))
                    &&& v@[i].2 == (if self.view().votes.contains_key((user@, id)) {
                        ballot_cost(self.view().votes[(user@, id)]) as i128
                    } else {
                        balance
                    })
                }
            },
    {
        if self.token.is_none() {
            return Err(QuadraticVoteContractErrors::ContractNotInitialized);
        }
        let mut results: Vec<(Vec<u8>, bool, i128)> = Vec::new();
        let n = self.proposal_ids.len();
        let mut i: usize = 0;
        while i < n
            invariant
                self.wf(),
                n == self.proposal_ids@.len(),
                i <= n,
                results@.len() == i,
                forall|j: int| 0 <= j < i ==> {
                    let id = #[trigger] self.ids()[j];
                    &&& results@[j].0@ == id
                    &&& results@[j].1 == self.votes@.contains_key((user@, id))
                    &&& results@[j].2 == (if self.votes@.contains_key((user@, id)) {
                        ballot_cost(self.votes@[(user@, id)].pairs()) as i128
                    } else {
                        balance
                    })
                },
            decreases n - i,
        {
            let id = &self.proposal_ids[i];
            assert(self.ids()[i as int] == id@);
            let key = (user.clone(), id.clone());
            match self.votes.get(&key) {
                Some(ballot) => {
                    let total_cost = Self::recorded_cost(ballot);
                    results.push((id.clone(), true, total_cost));
                },
                None => {
                    results.push((id.clone(), false, balance));
                },
            }
            i = i + 1;
        }
        Ok(results)
    }
}


/// Every natural number has an integer square root.
pub proof fn lemma_floor_sqrt_exists(n: nat)
    ensures
        is_floor_sqrt(n as int, floor_sqrt(n as int)),
    decreases n,
{
    if n == 0 {
        assert(is_floor_sqrt(0, 0));
    } else {
        lemma_floor_sqrt_exists((n - 1) as nat);
        let r = floor_sqrt(n - 1);
        if (r + 1) * (r + 1) <= n {
            assert(n < (r + 2) * (r + 2)) by (nonlinear_arith)
                requires
                    n - 1 < (r + 1) * (r + 1),
                    r >= 0,
            ;
            assert(is_floor_sqrt(n as int, r + 1));
        } else {
            assert(is_floor_sqrt(n as int, r));
        }
    }
}

proof fn lemma_least_bad_in_prefix(options: Seq<Seq<u8>>, s: Seq<(Seq<u8>, u32)>, k: int, j: int)
    requires
        0 <= j < k <= s.len(),
        bad_entry(options, s[j]),
    ensures
        exists|i: int| 0 <= i < k && bad_entry(options, s[i])
            && forall|l: int| 0 <= l < k && bad_entry(options, s[l]) ==> !bytes_lt(#[trigger] s[l].0, s[i].0),
    decreases k,
{
    if j == k - 1 && forall|l: int| 0 <= l < k - 1 ==> !bad_entry(options, #[trigger] s[l]) {
        lemma_bytes_lt_irreflexive(s[j].0);
        assert(forall|l: int| 0 <= l < k && bad_entry(options, s[l]) ==> !bytes_lt(#[trigger] s[l].0, s[j].0));
    } else {
        let j2 = if j < k - 1 { j } else { choose|l: int| 0 <= l < k - 1 && bad_entry(options, #[trigger] s[l]) };
        lemma_least_bad_in_prefix(options, s, k - 1, j2);
        let i = choose|i: int| 0 <= i < k - 1 && bad_entry(options, s[i])
            && forall|l: int| 0 <= l < k - 1 && bad_entry(options, s[l]) ==> !bytes_lt(#[trigger] s[l].0, s[i].0);
        let last = k - 1;
        if bad_entry(options, s[last]) && bytes_lt(s[last].0, s[i].0) {
            assert forall|l: int| 0 <= l < k && bad_entry(options, s[l]) implies !bytes_lt(#[trigger] s[l].0, s[last].0) by {
                if l == last {
                    lemma_bytes_lt_irreflexive(s[last].0);
                } else if bytes_lt(s[l].0, s[last].0) {
                    lemma_bytes_lt_transitive(s[l].0, s[last].0, s[i].0);
                }
            }
        } else {
            assert forall|l: int| 0 <= l < k && bad_entry(options, s[l]) implies !bytes_lt(#[trigger] s[l].0, s[i].0) by {
            }
        }
    }
}

proof fn lemma_no_error_all_valid(options: Seq<Seq<u8>>, s: Seq<(Seq<u8>, u32)>)
    requires
        ballot_error(options, s) is None,
    ensures
        forall|i: int| 0 <= i < s.len() ==> options.contains((#[trigger] s[i]).0) && s[i].1 > 0,
{
    assert forall|j: int| 0 <= j < s.len() implies options.contains((#[trigger] s[j]).0) && s[j].1 > 0 by {
        if bad_entry(options, s[j]) {
            lemma_least_bad_in_prefix(options, s, s.len() as int, j);
            let i = choose|i: int| 0 <= i < s.len() && bad_entry(options, s[i])
                && forall|l: int| 0 <= l < s.len() && bad_entry(options, s[l]) ==> !bytes_lt(#[trigger] s[l].0, s[i].0);
            assert(least_bad(options, s, i));
        }
    }
}

/// A ballot that a vote accepts names between one and the allowed number of options, names
/// only options of the proposal, gives each a positive count, and costs no more than the
/// voter holds.
pub proof fn lemma_accepted_ballot_is_affordable(
    m: QuadraticModel,
    user: Seq<u8>,
    id: Seq<u8>,
    ballot: Seq<(Seq<u8>, u32)>,
    now: u64,
    balance: i128,
)
    requires
        m.vote_result(user, id, ballot, now, balance) is Ok,
    ensures
        0 < ballot.len() <= m.proposals[id].max_options_per_vote,
        ballot_cost(ballot) <= balance,
        forall|i: int| 0 <= i < ballot.len() ==> m.proposals[id].options.contains((#[trigger] ballot[i]).0)
            && ballot[i].1 > 0,
{
    lemma_no_error_all_valid(m.proposals[id].options, ballot);
}

/// A user's second ballot on a proposal is refused as a repeated vote whenever the voting
/// window is still open, whatever the ballot and the balance.
pub proof fn lemma_one_ballot_per_voter(
    m: QuadraticModel,
    user: Seq<u8>,
    id: Seq<u8>,
    ballot: Seq<(Seq<u8>, u32)>,
    now: u64,
    balance: i128,
    second_ballot: Seq<(Seq<u8>, u32)>,
    second_now: u64,
    second_balance: i128,
)
    requires
        m.vote_result(user, id, ballot, now, balance) is Ok,
        m.proposals[id].start_time <= second_now <= m.proposals[id].end_time,
    ensures
        m.vote_next(user, id, ballot, now, balance).vote_result(
            user,
            id,
            second_ballot,
            second_now,
            second_balance,
        ) == Err::<(), _>(QuadraticVoteContractErrors::UserAlreadyVoted),
{
}

/// More votes on an option never weigh less.
pub proof fn lemma_influence_monotone(v1: u32, v2: u32)
    requires
        v1 <= v2,
    ensures
        0 <= influence(v1) <= influence(v2),
{
    lemma_floor_sqrt_exists(v1 as nat);
    lemma_floor_sqrt_exists(v2 as nat);
    let r1 = floor_sqrt(v1 as int);
    let r2 = floor_sqrt(v2 as int);
    if r1 > r2 {
        assert((r2 + 1) * (r2 + 1) <= r1 * r1) by (nonlinear_arith)
            requires
                0 <= r2 < r1,
        ;
    }
}

/// The weight of a count is at most a thousand times the count, and its square at most a
/// million times the count: weight grows with the square root of the votes, while their cost
/// grows with the square.
pub proof fn lemma_influence_bounds(v: u32)
    ensures
        influence(v) <= 1000 * v,
        influence(v) * influence(v) <= 1_000_000 * v,
{
    lemma_floor_sqrt_exists(v as nat);
    let r = floor_sqrt(v as int);
    assert(r <= v) by (nonlinear_arith)
        requires
            0 <= r,
            r * r <= v,
    ;
    assert((1000 * r) * (1000 * r) == 1_000_000 * (r * r)) by (nonlinear_arith);
}

/// The holders who cast a ballot on proposal `id`.
pub open spec fn voters_on(m: QuadraticModel, id: Seq<u8>) -> Set<Seq<u8>> {
    Set::new(|x: Seq<u8>| m.votes.contains_key((x, id)))
}

/// The weight that each voter's ballot on proposal `id` gives `option`.
pub open spec fn weight_on(m: QuadraticModel, id: Seq<u8>, option: Seq<u8>) -> spec_fn(Seq<u8>) -> int {
    |x: Seq<u8>|
        if map_of_pairs(m.votes[(x, id)]).contains_key(option) {
            influence(map_of_pairs(m.votes[(x, id)])[option])
        } else {
            0
        }
}

/// Every ballot is cast on a stored proposal, every proposal tallies exactly its options, and
/// each option's tally is the sum of the weights that the ballots on the proposal give it.
pub open spec fn tallies_sum_ballots(m: QuadraticModel) -> bool {
    &&& m.votes.dom().finite()
    &&& forall|x: Seq<u8>, id: Seq<u8>| #[trigger] m.votes.contains_key((x, id)) ==> m.proposals.contains_key(id)
    &&& forall|id: Seq<u8>, k: Seq<u8>| m.proposals.contains_key(id) ==>
        (#[trigger] m.proposals[id].total_votes.contains_key(k) <==> m.proposals[id].options.contains(k))
    &&& forall|id: Seq<u8>, k: Seq<u8>| m.proposals.contains_key(id) && #[trigger] m.proposals[id].total_votes.contains_key(k)
        ==> m.proposals[id].total_votes[k] == sum_of(voters_on(m, id), weight_on(m, id, k))
}

proof fn lemma_voters_finite(m: QuadraticModel, id: Seq<u8>)
    requires
        m.votes.dom().finite(),
    ensures
        voters_on(m, id).finite(),
{
    let f = |k: (Seq<u8>, Seq<u8>)| k.0;
    m.votes.dom().lemma_map_finite(f);
    assert(voters_on(m, id).subset_of(m.votes.dom().map(f))) by {
        assert forall|x: Seq<u8>| #[trigger] voters_on(m, id).contains(x) implies m.votes.dom().map(f).contains(x) by {
            assert(m.votes.dom().contains((x, id)));
            assert(f((x, id)) == x);
        }
    }
    vstd::set_lib::lemma_len_subset(voters_on(m, id), m.votes.dom().map(f));
}

proof fn lemma_influence_nonneg(v: u32)
    ensures
        influence(v) >= 0,
{
    lemma_floor_sqrt_exists(v as nat);
}

proof fn lemma_weights_nonneg(m: QuadraticModel, id: Seq<u8>, k: Seq<u8>)
    requires
        m.votes.dom().finite(),
    ensures
        sum_of(voters_on(m, id), weight_on(m, id, k)) >= 0,
{
    lemma_voters_finite(m, id);
    assert forall|x: Seq<u8>| voters_on(m, id).contains(x) implies weight_on(m, id, k)(x) >= 0 by {
        let b = map_of_pairs(m.votes[(x, id)]);
        if b.contains_key(k) {
            lemma_influence_nonneg(b[k]);
        }
    }
    lemma_sum_nonneg(voters_on(m, id), weight_on(m, id, k));
}

/// With no proposal and no ballot, every tally is the sum of the ballots' weights.
pub proof fn lemma_no_ballots_tallies(m: QuadraticModel)
    requires
        m.proposals == Map::<Seq<u8>, QuadraticProposalView>::empty(),
        m.votes == Map::<(Seq<u8>, Seq<u8>), Seq<(Seq<u8>, u32)>>::empty(),
    ensures
        tallies_sum_ballots(m),
{
}

/// A new proposal starts with every option at zero and no ballot cast on it, so every tally
/// stays the sum of the ballots' weights.
pub proof fn lemma_create_keeps_tallies(
    m: QuadraticModel,
    id: Seq<u8>,
    description: String,
    start_time: u64,
    end_time: u64,
    options: Seq<Seq<u8>>,
    max_options_per_vote: u32,
    now: u64,
)
    requires
        tallies_sum_ballots(m),
        m.create_proposal_result(id, start_time, end_time, options, max_options_per_vote, now) is Ok,
    ensures
        tallies_sum_ballots(m.with_proposal(id, description, start_time, end_time, options, max_options_per_vote)),
{
    let n = m.with_proposal(id, description, start_time, end_time, options, max_options_per_vote);
    assert(voters_on(m, id) =~= Set::<Seq<u8>>::empty()) by {
        assert forall|x: Seq<u8>| !voters_on(m, id).contains(x) by {
            if m.votes.contains_key((x, id)) {
                assert(m.proposals.contains_key(id));
            }
        }
    }
    assert forall|id2: Seq<u8>, k: Seq<u8>| n.proposals.contains_key(id2) && #[trigger] n.proposals[id2].total_votes.contains_key(k)
        implies n.proposals[id2].total_votes[k] == sum_of(voters_on(n, id2), weight_on(n, id2, k)) by {
        assert(voters_on(n, id2) == voters_on(m, id2));
        assert(weight_on(n, id2, k) == weight_on(m, id2, k));
        if id2 == id {
            lemma_sum_empty(weight_on(m, id, k));
        }
    }
}

/// A ballot adds to each option it names the weight it gives that option, so every tally stays
/// the sum of the ballots' weights, short of overflow.
pub proof fn lemma_vote_keeps_tallies(
    m: QuadraticModel,
    user: Seq<u8>,
    id: Seq<u8>,
    ballot: Seq<(Seq<u8>, u32)>,
    now: u64,
    balance: i128,
)
    requires
        tallies_sum_ballots(m),
        m.proposals.contains_key(id) ==> forall|k: Seq<u8>| #[trigger] map_of_pairs(ballot).contains_key(k)
            ==> m.proposals[id].total_votes[k] + influence(map_of_pairs(ballot)[k]) <= i128::MAX,
    ensures
        tallies_sum_ballots(m.vote_next(user, id, ballot, now, balance)),
{
    let n = m.vote_next(user, id, ballot, now, balance);
    if m.vote_result(user, id, ballot, now, balance) is Ok {
        let b = map_of_pairs(ballot);
        let p = m.proposals[id];
        assert(!m.votes.contains_key((user, id)));
        lemma_no_error_all_valid(p.options, ballot);
        assert forall|k: Seq<u8>| #[trigger] b.contains_key(k) implies p.total_votes.contains_key(k) by {
            let i = choose|i: int| 0 <= i < ballot.len() && ballot[i].0 == k;
            assert(p.options.contains(ballot[i].0));
        }
        assert forall|id2: Seq<u8>, k: Seq<u8>| n.proposals.contains_key(id2) implies
            (#[trigger] n.proposals[id2].total_votes.contains_key(k) <==> n.proposals[id2].options.contains(k)) by {
            if id2 == id {
                assert(m.proposals[id].total_votes.contains_key(k) <==> m.proposals[id].options.contains(k));
            }
        }
        assert forall|id2: Seq<u8>, k: Seq<u8>| n.proposals.contains_key(id2) && #[trigger] n.proposals[id2].total_votes.contains_key(k)
            implies n.proposals[id2].total_votes[k] == sum_of(voters_on(n, id2), weight_on(n, id2, k)) by {
            let s = voters_on(m, id2);
            lemma_voters_finite(m, id2);
            assert forall|x: Seq<u8>| s.contains(x) implies weight_on(n, id2, k)(x) == weight_on(m, id2, k)(x) by {
                assert(m.votes.contains_key((x, id2)));
            }
            lemma_sum_congruent(s, weight_on(n, id2, k), weight_on(m, id2, k));
            if id2 == id {
                assert(m.proposals[id].total_votes.contains_key(k));
                assert(m.proposals[id].total_votes[k] == sum_of(s, weight_on(m, id, k)));
                assert(voters_on(n, id) =~= s.insert(user));
                assert(!s.contains(user));
                lemma_sum_insert(s, weight_on(n, id, k), user);
                lemma_weights_nonneg(m, id, k);
                if b.contains_key(k) {
                    lemma_influence_nonneg(b[k]);
                }
            } else {
                assert(voters_on(n, id2) =~= s);
            }
        }
    }
}

/// A ballot takes up only its own (user, proposal) slot: for every other user, or every other
/// proposal, what a ballot is answered is the same after it as before. In particular a ballot
/// on one proposal never keeps the same user from voting on another.
pub proof fn lemma_vote_blocks_only_its_slot(
    m: QuadraticModel,
    user: Seq<u8>,
    id: Seq<u8>,
    ballot: Seq<(Seq<u8>, u32)>,
    now: u64,
    balance: i128,
    user2: Seq<u8>,
    id2: Seq<u8>,
    ballot2: Seq<(Seq<u8>, u32)>,
    now2: u64,
    balance2: i128,
)
    requires
        (user2, id2) != (user, id),
    ensures
        m.vote_next(user, id, ballot, now, balance).vote_result(user2, id2, ballot2, now2, balance2)
            == m.vote_result(user2, id2, ballot2, now2, balance2),
{
}

/// A second constructor call is refused: the admin and the token are set once.
pub proof fn lemma_constructor_once(m: QuadraticModel, admin: Seq<u8>, token: Seq<u8>)
    requires
        m.constructor_result() is Ok,
    ensures
        (QuadraticModel { admin: Some(admin), token: Some(token), ..m }).constructor_result()
            == Err::<(), _>(QuadraticVoteContractErrors::ContractAlreadyInitialized),
{
}

} // verus!
