use soroban_governance::table::Table;
use soroban_governance::token_gated::{
    TokenGatedProposalData,
    MAX_PROPOSAL_DURATION, MIN_PROPOSAL_DURATION, TokenGatedContract, TokenGatedContractErrors,
    TokenGatedProposalStatus,
};
use std::collections::HashMap;

fn sym(s: &str) -> Vec<u8> {
    s.as_bytes().to_vec()
}

struct Harness {
    now: u64,
    next: u32,
    balances: HashMap<Vec<u8>, i128>,
    contract: TokenGatedContract,
}

impl Harness {
    fn new() -> Harness {
        let mut h = Harness { now: 1000000, next: 0, balances: HashMap::new(), contract: TokenGatedContract::new() };
        let admin = h.generate();
        let token = h.generate();
        assert_eq!(h.contract.__constructor(admin, token), Ok(()));
        h
    }

    fn generate(&mut self) -> Vec<u8> {
        self.next += 1;
        format!("G{:055}", self.next).into_bytes()
    }

    fn mint(&mut self, who: &Vec<u8>, amount: i128) {
        *self.balances.entry(who.clone()).or_insert(0) += amount;
    }

    fn balance(&self, who: &Vec<u8>) -> i128 {
        *self.balances.get(who).unwrap_or(&0)
    }

    fn try_create_proposal(&mut self, id: &Vec<u8>, start: u64, end: u64) -> Result<(), TokenGatedContractErrors> {
        let now = self.now;
        self.contract.create_proposal(id.clone(), "Test proposal".to_string(), start, end, now)
    }

    fn try_vote(&mut self, user: &Vec<u8>, id: &Vec<u8>, choice: &str) -> Result<(), TokenGatedContractErrors> {
        let now = self.now;
        let balance = match self.contract.check_vote(user, id, now) {
            Ok(_) => self.balance(user),
            Err(_) => 0,
        };
        self.contract.vote(user.clone(), id.clone(), &sym(choice), now, balance)
    }
}

#[test]
fn gated_each_holder_weighs_one() {
    let mut h = Harness::new();
    let u1 = h.generate();
    let u2 = h.generate();
    let u3 = h.generate();
    h.mint(&u1, 500);
    h.mint(&u2, 300);
    h.mint(&u3, 200);
    let id = sym("PROP001");
    let now = h.now;
    assert_eq!(h.try_create_proposal(&id, now + 50, now + 500000), Ok(()));
    h.now = now + 100;
    assert_eq!(h.try_vote(&u1, &id, "FOR"), Ok(()));
    assert_eq!(h.try_vote(&u2, &id, "AGAINST"), Ok(()));
    assert_eq!(h.try_vote(&u3, &id, "ABSTAIN"), Ok(()));
    let p = h.contract.get_proposal_details(&id).unwrap();
    assert_eq!((p.total_for, p.total_against, p.total_abstain), (1, 1, 1));
}

#[test]
fn gated_vote_errors() {
    let mut h = Harness::new();
    let user = h.generate();
    h.mint(&user, 1000);
    let id = sym("PROP001");
    let now = h.now;
    assert_eq!(h.try_create_proposal(&id, now + 60, now + 60 + MIN_PROPOSAL_DURATION), Ok(()));
    assert_eq!(h.try_vote(&user, &sym("FAKE001"), "FOR"), Err(TokenGatedContractErrors::ProposalNotFound));
    h.now = now + 59;
    assert_eq!(h.try_vote(&user, &id, "FOR"), Err(TokenGatedContractErrors::VotingNotActive));
    h.now = now + 60;
    let poor = h.generate();
    assert_eq!(h.try_vote(&poor, &id, "FOR"), Err(TokenGatedContractErrors::UserCannotVote));
    assert_eq!(h.try_vote(&user, &id, "INVALID"), Err(TokenGatedContractErrors::InvalidChoice));
    assert_eq!(h.try_vote(&user, &id, "FOR"), Ok(()));
    assert_eq!(h.try_vote(&user, &id, "AGAINST"), Err(TokenGatedContractErrors::UserAlreadyVoted));
    h.now = now + 60 + MIN_PROPOSAL_DURATION + 1;
    let late = h.generate();
    h.mint(&late, 1);
    assert_eq!(h.try_vote(&late, &id, "FOR"), Err(TokenGatedContractErrors::VotingNotActive));
}

#[test]
fn gated_create_proposal_errors() {
    let mut h = Harness::new();
    let id = sym("PROP001");
    let now = h.now;
    assert_eq!(h.try_create_proposal(&id, now + 500000, now + 100), Err(TokenGatedContractErrors::StartTimeAfterEnd));
    assert_eq!(h.try_create_proposal(&id, now - 100, now + 500000), Err(TokenGatedContractErrors::StartTimeInPast));
    assert_eq!(h.try_create_proposal(&id, now + 100, now + 100 + 2000000), Err(TokenGatedContractErrors::DurationTooLong));
    assert_eq!(h.try_create_proposal(&id, now + 100, now + 300), Err(TokenGatedContractErrors::DurationTooShort));
    assert_eq!(h.try_create_proposal(&id, now + 100, now + 100 + MAX_PROPOSAL_DURATION), Ok(()));
    assert_eq!(h.try_create_proposal(&id, now + 100, now + 500100), Err(TokenGatedContractErrors::ProposalAlreadyExists));
}

#[test]
fn gated_validate_proposal_times_limits() {
    assert_eq!(TokenGatedContract::validate_proposal_times(10, 10, 10 + 432000), Ok(()));
    assert_eq!(TokenGatedContract::validate_proposal_times(10, 10, 10 + 1_296_000), Ok(()));
    assert_eq!(TokenGatedContract::validate_proposal_times(10, 10, 10 + 1_296_001), Err(TokenGatedContractErrors::DurationTooLong));
    // Exactly fifteen days is accepted.
    assert_eq!(TokenGatedContract::validate_proposal_times(1_000_000, 1_000_100, 2_296_100), Ok(()));
    assert_eq!(TokenGatedContract::validate_proposal_times(10, 10, 10 + 431999), Err(TokenGatedContractErrors::DurationTooShort));
    assert_eq!(TokenGatedContract::validate_proposal_times(11, 10, 10 + 432000), Err(TokenGatedContractErrors::StartTimeInPast));
    assert_eq!(TokenGatedContract::validate_proposal_times(0, 10, 10), Err(TokenGatedContractErrors::StartTimeAfterEnd));
}

#[test]
fn gated_status_and_overview() {
    let mut h = Harness::new();
    let id = sym("PROP001");
    let now = h.now;
    assert_eq!(h.try_create_proposal(&id, now + 100, now + 500000), Ok(()));
    let at = |h: &Harness, t: u64| h.contract.get_governance_details(t)[0].status;
    assert_eq!(at(&h, now + 99), TokenGatedProposalStatus::Pending);
    assert_eq!(at(&h, now + 100), TokenGatedProposalStatus::Active);
    assert_eq!(at(&h, now + 500000), TokenGatedProposalStatus::Active);
    assert_eq!(at(&h, now + 500001), TokenGatedProposalStatus::Ended);
    let overview = h.contract.get_governance_details(now);
    assert_eq!(overview.len(), 1);
    assert_eq!(overview[0].id, id);
    assert_eq!(overview[0].description, "Test proposal");
}

#[test]
fn gated_user_details() {
    let mut h = Harness::new();
    let user = h.generate();
    h.mint(&user, 1000);
    let a = sym("A");
    let b = sym("B");
    let now = h.now;
    assert_eq!(h.try_create_proposal(&a, now + 50, now + 500000), Ok(()));
    assert_eq!(h.try_create_proposal(&b, now + 50, now + 500000), Ok(()));
    h.now = now + 100;
    assert_eq!(h.try_vote(&user, &b, "FOR"), Ok(()));
    assert_eq!(
        h.contract.get_user_details(&user, 1000),
        Ok(vec![(a.clone(), false, 1), (b.clone(), true, 1)])
    );
    assert_eq!(h.contract.get_user_details(&user, 0), Ok(vec![(a, false, 0), (b, true, 0)]));
}

#[test]
fn gated_uninitialized_and_admin() {
    let mut c = TokenGatedContract::new();
    assert_eq!(c.create_proposal(sym("P"), String::new(), 10, 432010, 0), Err(TokenGatedContractErrors::ContractNotInitialized));
    assert_eq!(c.transfer_admin(sym("A")), Err(TokenGatedContractErrors::ContractNotInitialized));
    assert_eq!(c.get_user_details(&sym("U"), 5), Err(TokenGatedContractErrors::ContractNotInitialized));
    assert_eq!(c.__constructor(sym("A"), sym("T")), Ok(()));
    assert_eq!(c.__constructor(sym("A"), sym("T")), Err(TokenGatedContractErrors::ContractAlreadyInitialized));
    assert_eq!(c.transfer_admin(sym("B")), Ok(()));
    assert_eq!(c.admin(), Some(&sym("B")));
    assert_eq!(c.token(), Some(&sym("T")));
    assert_eq!(c.get_proposal_details(&sym("P")).err(), Some(TokenGatedContractErrors::ProposalNotFound));
}

#[test]
fn gated_vote_without_token_is_refused_after_earlier_checks() {
    let mut c = TokenGatedContract::new();
    assert_eq!(c.vote(sym("U"), sym("P"), &sym("FOR"), 0, 5), Err(TokenGatedContractErrors::ProposalNotFound));
}

#[test]
fn gated_ttl_and_status_helpers() {
    assert_eq!(TokenGatedContract::calculate_proposal_ttl(1000, 500000), 2_100_000);
    assert_eq!(TokenGatedContract::calculate_proposal_ttl(0, 1_600_000), 2_204_800);
    assert_eq!(TokenGatedContract::calculate_proposal_ttl(10, 5), 2_100_000);
}

#[test]
fn gated_state_survives_a_round_trip_through_its_parts() {
    let mut h = Harness::new();
    let user = h.generate();
    h.mint(&user, 5);
    let id = sym("P1");
    let start = h.now + 10;
    assert_eq!(h.try_create_proposal(&id, start, start + MIN_PROPOSAL_DURATION), Ok(()));
    h.now = start;
    assert_eq!(h.try_vote(&user, &id, "FOR"), Ok(()));

    let c = &h.contract;
    let proposals = Table::from_entries(
        (0..c.proposals().len()).map(|i| (c.proposals().key_at(i).clone(), c.proposals().value_at(i).copy())).collect(),
    );
    let votes = Table::from_entries(
        (0..c.votes().len()).map(|i| (c.votes().key_at(i).clone(), *c.votes().value_at(i))).collect(),
    );
    let restored = TokenGatedContract::from_parts(
        c.admin().cloned(),
        c.token().cloned(),
        c.proposal_ids().clone(),
        proposals,
        votes,
    )
    .expect("consistent parts");
    let p = restored.get_proposal_details(&id).unwrap();
    assert_eq!(p.total_for, 1);
    assert_eq!(restored.proposal_ids(), &vec![id.clone()]);
    assert_eq!(restored.get_user_details(&user, 5).unwrap(), vec![(id.clone(), true, 1)]);
}

#[test]
fn gated_inconsistent_parts_are_refused() {
    let empty_votes = || Table::new();
    // An id list naming a proposal that is not stored.
    assert!(TokenGatedContract::from_parts(None, None, vec![sym("P1")], Table::new(), empty_votes()).is_none());
    // An id named twice.
    let p = TokenGatedProposalData {
        description: "d".to_string(),
        start_time: 1,
        end_time: 2,
        total_for: 0,
        total_against: 0,
        total_abstain: 0,
    };
    let proposals = Table::from_entries(vec![(sym("P1"), p)]);
    assert!(TokenGatedContract::from_parts(None, None, vec![sym("P1"), sym("P1")], proposals, empty_votes()).is_none());
    // No proposals at all is consistent.
    let c = TokenGatedContract::from_parts(Some(sym("A")), None, vec![], Table::new(), empty_votes()).unwrap();
    assert_eq!(c.admin(), Some(&sym("A")));
    assert_eq!(c.token(), None);
}
