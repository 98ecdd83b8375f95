use soroban_governance::table::Table;
use soroban_governance::representative::{
    RepresentativeVotePowerData,
    DELEGATION_GRACE_PERIOD, RepresentativeVoteContract, RepresentativeVoteContractErrors,
    RepresentativeVoteProposalData, RepresentativeVoteProposalSummary,
};
use std::collections::HashMap;

fn sym(s: &str) -> Vec<u8> {
    s.as_bytes().to_vec()
}

/// A ledger for the contract: the time, the addresses handed out, and token balances.
struct Harness {
    now: u64,
    next: u32,
    balances: HashMap<Vec<u8>, i128>,
    contract: RepresentativeVoteContract,
}

type Line = (Vec<u8>, bool, i128, bool, u64);

impl Harness {
    fn new() -> Harness {
        Harness { now: 1000000, next: 0, balances: HashMap::new(), contract: RepresentativeVoteContract::new() }
    }

    fn generate(&mut self) -> Vec<u8> {
        self.next += 1;
        format!("G{:055}", self.next).into_bytes()
    }

    fn mint(&mut self, who: &Vec<u8>, amount: i128) {
        *self.balances.entry(who.clone()).or_insert(0) += amount;
    }

    fn balance(&self, who: &Vec<u8>) -> i128 {
        *self.balances.get(who).unwrap_or(&0)
    }

    fn try_set_delegates(&mut self, list: &Vec<Vec<u8>>) -> Result<(), RepresentativeVoteContractErrors> {
        self.contract.set_delegates(list.clone())
    }

    fn try_add_delegates(&mut self, list: &Vec<Vec<u8>>) -> Result<(), RepresentativeVoteContractErrors> {
        self.contract.add_delegates(list.clone())
    }

    fn try_remove_delegates(&mut self, list: &Vec<Vec<u8>>) -> Result<(), RepresentativeVoteContractErrors> {
        self.contract.remove_delegates(list.clone())
    }

    fn try_create_proposal(
        &mut self,
        id: &Vec<u8>,
        description: &str,
        deadline: u64,
        start: u64,
        end: u64,
    ) -> Result<(), RepresentativeVoteContractErrors> {
        let now = self.now;
        self.contract.create_proposal(id.clone(), description.to_string(), deadline, start, end, now)
    }

    fn try_delegate(&mut self, delegator: &Vec<u8>, id: &Vec<u8>, delegate: &Vec<u8>) -> Result<(), RepresentativeVoteContractErrors> {
        let now = self.now;
        let balance = match self.contract.check_delegate(delegator, id, delegate, now) {
            Ok(_) => self.balance(delegator),
            Err(_) => 0,
        };
        self.contract.delegate(delegator.clone(), id.clone(), delegate.clone(), now, balance)
    }

    fn try_revoke_delegation(&mut self, delegator: &Vec<u8>, id: &Vec<u8>) -> Result<(), RepresentativeVoteContractErrors> {
        let now = self.now;
        self.contract.revoke_delegation(delegator.clone(), id.clone(), now)
    }

    fn try_vote(&mut self, delegate: &Vec<u8>, id: &Vec<u8>, choice: &str) -> Result<(), RepresentativeVoteContractErrors> {
        let now = self.now;
        self.contract.vote(delegate.clone(), id.clone(), &sym(choice), now)
    }

    fn get_governance_details(&self) -> Vec<RepresentativeVoteProposalSummary> {
        self.contract.get_governance_details(self.now)
    }

    fn get_proposal_details(&self, id: &Vec<u8>) -> RepresentativeVoteProposalData {
        self.contract.get_proposal_details(id).unwrap()
    }

    fn get_user_details(&self, user: &Vec<u8>) -> Vec<Line> {
        self.contract.get_user_details(user, self.now).unwrap()
    }
}

fn setup() -> (Harness, Vec<u8>) {
    let mut h = Harness::new();
    let admin = h.generate();
    let token = h.generate();
    assert!(h.contract.__constructor(admin.clone(), token).is_ok());
    (h, admin)
}

#[test]
fn test_test_initialization_success() {
    let (h, _admin) = setup();
    let governance_details = h.get_governance_details();
    assert_eq!(governance_details.len(), 0);
}

#[test]
fn test_test_delegate_management_success() {
    let (mut h, _admin) = setup();
    let delegate1 = h.generate();
    let delegate2 = h.generate();
    let delegate3 = h.generate();

    assert!(h.try_set_delegates(&vec![delegate1.clone(), delegate2.clone()]).is_ok());
    assert!(h.try_add_delegates(&vec![delegate3.clone()]).is_ok());
    assert!(h.try_remove_delegates(&vec![delegate1.clone()]).is_ok());
}

#[test]
fn test_test_delegate_management_fails() {
    let (mut h, _admin) = setup();
    let mut too_many_delegates = Vec::new();
    for _i in 0..15 {
        too_many_delegates.push(h.generate());
    }
    let limit_result = h.try_set_delegates(&too_many_delegates);
    assert!(limit_result.is_err());
}

#[test]
fn test_test_create_proposal_success() {
    let (mut h, _admin) = setup();
    let proposal_id = sym("PROP1");
    let now = h.now;
    let delegation_deadline = now + 50;
    let start_time = now + 100;
    let end_time = start_time + 500000;

    let result = h.try_create_proposal(&proposal_id, "Test proposal description", delegation_deadline, start_time, end_time);
    assert!(result.is_ok());

    let governance_details = h.get_governance_details();
    assert_eq!(governance_details.len(), 1);
    assert_eq!(governance_details[0].id, proposal_id);
}

#[test]
fn test_test_create_proposal_fails() {
    let (mut h, _admin) = setup();
    let proposal_id = sym("PROP001");
    let now = h.now;

    assert!(h.try_create_proposal(&proposal_id, "Test proposal", now - 100, now + 100, now + 500000).is_err());
    assert!(h.try_create_proposal(&proposal_id, "Test proposal", now + 100, now + 500000, now + 100).is_err());
    assert!(h.try_create_proposal(&proposal_id, "Test proposal", now + 200, now + 100, now + 500000).is_err());
    assert!(h.try_create_proposal(&proposal_id, "Test proposal", now + 100, now + 200, now + 300).is_err());
}

#[test]
fn test_test_delegation_success() {
    let (mut h, _admin) = setup();
    let delegator1 = h.generate();
    let delegator2 = h.generate();
    let delegate1 = h.generate();
    let delegate2 = h.generate();
    h.mint(&delegator1, 1000);
    h.mint(&delegator2, 500);

    let _ = h.try_set_delegates(&vec![delegate1.clone(), delegate2.clone()]);

    let proposal_id = sym("PROP1");
    let now = h.now;
    let _ = h.try_create_proposal(&proposal_id, "Test proposal", now + 100, now + 200, now + 200 + 500000);

    h.now = now + 50;
    assert!(h.try_delegate(&delegator1, &proposal_id, &delegate1).is_ok());
    assert!(h.try_delegate(&delegator2, &proposal_id, &delegate2).is_ok());
}

#[test]
fn test_test_delegation_fails() {
    let (mut h, _admin) = setup();
    let delegator = h.generate();
    let delegate = h.generate();
    let non_delegate = h.generate();
    h.mint(&delegator, 1000);

    let _ = h.try_set_delegates(&vec![delegate.clone()]);

    let proposal_id = sym("PROP1");
    let now = h.now;
    let _ = h.try_create_proposal(&proposal_id, "Test proposal", now + 100, now + 200, now + 200 + 500000);

    let non_delegate_result = h.try_delegate(&delegator, &proposal_id, &non_delegate);
    assert!(non_delegate_result.is_err());

    h.now = now + 150;
    let deadline_result = h.try_delegate(&delegator, &proposal_id, &delegate);
    assert!(deadline_result.is_err());
}

#[test]
fn test_vote_success() {
    let (mut h, _admin) = setup();
    let delegator1 = h.generate();
    let delegator2 = h.generate();
    let delegator3 = h.generate();
    let delegate1 = h.generate();
    let delegate2 = h.generate();
    h.mint(&delegator1, 1000);
    h.mint(&delegator2, 500);
    h.mint(&delegator3, 300);

    let _ = h.try_set_delegates(&vec![delegate1.clone(), delegate2.clone()]);

    let proposal_id = sym("PROP1");
    let now = h.now;
    let _ = h.try_create_proposal(&proposal_id, "Test proposal", now + 100, now + 200, now + 200 + 500000);

    h.now = now + 50;
    let _ = h.try_delegate(&delegator1, &proposal_id, &delegate1);
    let _ = h.try_delegate(&delegator2, &proposal_id, &delegate1);
    let _ = h.try_delegate(&delegator3, &proposal_id, &delegate2);

    h.now = now + 250;
    let vote_result1 = h.try_vote(&delegate1, &proposal_id, "FOR");
    let vote_result2 = h.try_vote(&delegate2, &proposal_id, "AGAINST");
    assert!(vote_result1.is_ok());
    assert!(vote_result2.is_ok());

    let proposal_details = h.get_proposal_details(&proposal_id);
    assert_eq!(proposal_details.total_for, 1500);
    assert_eq!(proposal_details.total_against, 300);
    assert_eq!(proposal_details.total_abstain, 0);
}

#[test]
fn test_vote_fails() {
    let (mut h, _admin) = setup();
    let delegator = h.generate();
    let delegate = h.generate();
    let non_delegate = h.generate();
    h.mint(&delegator, 1000);

    let _ = h.try_set_delegates(&vec![delegate.clone()]);

    let proposal_id = sym("PROP1");
    let now = h.now;
    let _ = h.try_create_proposal(&proposal_id, "Test proposal", now + 100, now + 200, now + 200 + 500000);

    h.now = now + 50;
    let _ = h.try_delegate(&delegator, &proposal_id, &delegate);

    h.now = now + 250;
    let non_delegate_vote = h.try_vote(&non_delegate, &proposal_id, "FOR");
    assert!(non_delegate_vote.is_err());

    let _ = h.try_vote(&delegate, &proposal_id, "FOR");

    let double_vote_result = h.try_vote(&delegate, &proposal_id, "AGAINST");
    assert!(double_vote_result.is_err());
}

#[test]
fn test_test_transfer_admin_success() {
    let (mut h, _admin) = setup();
    let new_admin = h.generate();
    let result = h.contract.transfer_admin(new_admin);
    assert!(result.is_ok());
}

#[test]
fn test_test_get_governance_details_success() {
    let (mut h, _admin) = setup();
    let now = h.now;

    let prop1_id = sym("PROP001");
    let _ = h.try_create_proposal(&prop1_id, "First proposal", now + 50, now + 100, now + 500000);

    let prop2_id = sym("PROP002");
    let _ = h.try_create_proposal(&prop2_id, "Second proposal", now + 60, now + 200, now + 600000);

    let governance_details = h.get_governance_details();
    assert_eq!(governance_details.len(), 2);

    let first_proposal = &governance_details[0];
    let second_proposal = &governance_details[1];

    let has_prop1 = first_proposal.id == prop1_id || second_proposal.id == prop1_id;
    let has_prop2 = first_proposal.id == prop2_id || second_proposal.id == prop2_id;
    assert!(has_prop1);
    assert!(has_prop2);
}

#[test]
fn test_test_get_proposal_details_success() {
    let (mut h, _admin) = setup();
    let proposal_id = sym("PROP1");
    let description = "Test proposal description";
    let now = h.now;
    let delegation_deadline = now + 50;
    let start_time = now + 100;
    let end_time = start_time + 500000;
    let _ = h.try_create_proposal(&proposal_id, description, delegation_deadline, start_time, end_time);

    let details = h.get_proposal_details(&proposal_id);
    assert_eq!(details.description, description);
    assert_eq!(details.delegation_deadline, delegation_deadline);
    assert_eq!(details.start_time, start_time);
    assert_eq!(details.end_time, end_time);
    assert_eq!(details.total_for, 0);
    assert_eq!(details.total_against, 0);
    assert_eq!(details.total_abstain, 0);
}

#[test]
fn test_get_delegator_details_success() {
    let (mut h, _admin) = setup();
    let delegator = h.generate();
    let delegate = h.generate();
    h.mint(&delegator, 1500);

    let _ = h.try_set_delegates(&vec![delegate.clone()]);

    let proposal_id = sym("PROP1");
    let now = h.now;
    let _ = h.try_create_proposal(&proposal_id, "Test proposal", now + 100, now + 200, now + 500000);

    h.now = now + 50;
    let _ = h.try_delegate(&delegator, &proposal_id, &delegate);

    let delegator_details = h.get_user_details(&delegator);
    assert!(!delegator_details.is_empty());
}

#[test]
fn test_revoke_delegation_success() {
    let (mut h, _admin) = setup();
    let delegator = h.generate();
    let delegate1 = h.generate();
    let delegate2 = h.generate();
    h.mint(&delegator, 1000);

    let _ = h.try_set_delegates(&vec![delegate1.clone(), delegate2.clone()]);

    let proposal_id = sym("PROP1");
    let now = h.now;
    let delegation_deadline = now + 200000;
    let start_time = now + 300000;
    let end_time = start_time + 500000;
    let _ = h.try_create_proposal(&proposal_id, "Test proposal", delegation_deadline, start_time, end_time);

    let _ = h.try_delegate(&delegator, &proposal_id, &delegate1);

    let delegator_details = h.get_user_details(&delegator);
    assert_eq!(delegator_details[0].1, true);
    assert_eq!(delegator_details[0].2, 1000);
    assert_eq!(delegator_details[0].3, true);
    assert!(delegator_details[0].4 > 0);

    h.now = now + 100000;

    let revoke_result = h.try_revoke_delegation(&delegator, &proposal_id);
    assert!(revoke_result.is_ok());

    let delegator_details_after = h.get_user_details(&delegator);
    assert_eq!(delegator_details_after[0].1, false);
    assert_eq!(delegator_details_after[0].2, 0);
    assert_eq!(delegator_details_after[0].3, false);
    assert_eq!(delegator_details_after[0].4, 0);

    let re_delegate_result = h.try_delegate(&delegator, &proposal_id, &delegate2);
    assert!(re_delegate_result.is_ok());

    let final_details = h.get_user_details(&delegator);
    assert_eq!(final_details[0].1, true);
    assert_eq!(final_details[0].2, 1000);
    assert_eq!(final_details[0].3, true);
    assert!(final_details[0].4 > 0);
}

#[test]
fn test_revoke_delegation_fails() {
    let (mut h, _admin) = setup();
    let delegator = h.generate();
    let delegate = h.generate();
    h.mint(&delegator, 1000);

    let _ = h.try_set_delegates(&vec![delegate.clone()]);

    let proposal_id = sym("PROP1");
    let now = h.now;
    let delegation_deadline = now + 200000;
    let start_time = now + 300000;
    let end_time = start_time + 500000;
    let _ = h.try_create_proposal(&proposal_id, "Test proposal", delegation_deadline, start_time, end_time);

    let _ = h.try_delegate(&delegator, &proposal_id, &delegate);

    h.now = now + 180000;
    let revoke_result = h.try_revoke_delegation(&delegator, &proposal_id);
    assert!(revoke_result.is_err());

    h.now = now + 250000;
    let late_revoke_result = h.try_revoke_delegation(&delegator, &proposal_id);
    assert!(late_revoke_result.is_err());

    let non_delegated_delegator = h.generate();
    h.mint(&non_delegated_delegator, 500);

    h.now = now + 50;
    let no_delegation_result = h.try_revoke_delegation(&non_delegated_delegator, &proposal_id);
    assert!(no_delegation_result.is_err());
}

#[test]
fn test_can_revoke_delegation() {
    let (mut h, _admin) = setup();
    let delegator = h.generate();
    let delegate = h.generate();
    h.mint(&delegator, 1000);

    let _ = h.try_set_delegates(&vec![delegate.clone()]);

    let proposal_id = sym("PROP1");
    let now = h.now;
    let delegation_deadline = now + 200000;
    let start_time = now + 300000;
    let end_time = start_time + 500000;
    let _ = h.try_create_proposal(&proposal_id, "Test proposal", delegation_deadline, start_time, end_time);

    let details = h.get_user_details(&delegator);
    let details_before = details.iter().find(|d| d.0 == proposal_id).unwrap();
    assert!(!details_before.3);
    assert_eq!(details_before.4, 0);

    let _ = h.try_delegate(&delegator, &proposal_id, &delegate);

    let details = h.get_user_details(&delegator);
    let details_after = details.iter().find(|d| d.0 == proposal_id).unwrap();
    assert!(details_after.3);
    assert!(details_after.4 > 170000);

    h.now = now + 100000;
    let details = h.get_user_details(&delegator);
    let details_partial = details.iter().find(|d| d.0 == proposal_id).unwrap();
    assert!(details_partial.3);
    assert!(details_partial.4 > 0);
    assert!(details_partial.4 < 100000);

    h.now = now + 180000;
    let details = h.get_user_details(&delegator);
    let details_expired = details.iter().find(|d| d.0 == proposal_id).unwrap();
    assert!(!details_expired.3);
    assert_eq!(details_expired.4, 0);

    let delegator2 = h.generate();
    h.mint(&delegator2, 500);

    let proposal_id2 = sym("PROP2");
    let short_deadline = now + 50000;
    let short_start = now + 60000;
    let short_end = short_start + 500000;

    h.now = now + 30000;
    let _ = h.try_create_proposal(&proposal_id2, "Test proposal", short_deadline, short_start, short_end);

    let _ = h.try_delegate(&delegator2, &proposal_id2, &delegate);

    let details = h.get_user_details(&delegator2);
    let details_capped = details.iter().find(|d| d.0 == proposal_id2).unwrap();
    assert!(details_capped.3);
    assert!(details_capped.4 <= 20000);
}

// The exact errors, state and reports of the representative contract.

fn proposal_setup() -> (Harness, Vec<u8>, Vec<u8>, Vec<u8>, u64) {
    let (mut h, _admin) = setup();
    let delegator = h.generate();
    let delegate = h.generate();
    h.mint(&delegator, 1000);
    let _ = h.try_set_delegates(&vec![delegate.clone()]);
    let id = sym("PROP1");
    let now = h.now;
    assert!(h.try_create_proposal(&id, "Test proposal", now + 200000, now + 300000, now + 800000).is_ok());
    (h, delegator, delegate, id, now)
}

#[test]
fn representative_uninitialized_contract_refuses_admin_calls() {
    let mut c = RepresentativeVoteContract::new();
    let e = Err(RepresentativeVoteContractErrors::ContractNotInitialized);
    assert_eq!(c.set_delegates(vec![sym("D")]), e);
    assert_eq!(c.add_delegates(vec![sym("D")]), e);
    assert_eq!(c.remove_delegates(vec![sym("D")]), e);
    assert_eq!(c.create_proposal(sym("P"), "d".to_string(), 10, 20, 432020, 0), e);
    assert_eq!(c.transfer_admin(sym("A")), e);
    assert_eq!(c.get_delegator_details(&sym("U"), 0).unwrap().len(), 0);
}

#[test]
fn representative_constructor_runs_once() {
    let mut c = RepresentativeVoteContract::new();
    assert_eq!(c.__constructor(sym("A"), sym("T")), Ok(()));
    assert_eq!(c.__constructor(sym("B"), sym("U")), Err(RepresentativeVoteContractErrors::ContractAlreadyInitialized));
    assert_eq!(c.admin(), Some(&sym("A")));
    assert_eq!(c.transfer_admin(sym("C")), Ok(()));
    assert_eq!(c.admin(), Some(&sym("C")));
}

#[test]
fn representative_create_proposal_errors_in_order() {
    let (mut h, _admin) = setup();
    let id = sym("P");
    let now = h.now;
    assert_eq!(h.try_create_proposal(&id, "d", now - 1, now + 200, now + 500200), Err(RepresentativeVoteContractErrors::DelegationDeadlineInPast));
    assert_eq!(h.try_create_proposal(&id, "d", now + 300, now + 200, now + 500200), Err(RepresentativeVoteContractErrors::DelegationDeadlineAfterStart));
    assert_eq!(h.try_create_proposal(&id, "d", now + 100, now + 200, now + 100), Err(RepresentativeVoteContractErrors::StartTimeAfterEnd));
    assert_eq!(h.try_create_proposal(&id, "d", now + 100, now + 200, now + 200 + 1_296_001), Err(RepresentativeVoteContractErrors::DurationTooLong));
    assert_eq!(h.try_create_proposal(&id, "d", now + 100, now + 200, now + 300), Err(RepresentativeVoteContractErrors::DurationTooShort));
    assert_eq!(h.try_create_proposal(&id, "d", now + 100, now + 200, now + 200 + 1_296_000), Ok(()));
    assert_eq!(h.try_create_proposal(&id, "d", now + 100, now + 200, now + 500200), Err(RepresentativeVoteContractErrors::ProposalAlreadyExists));
}

#[test]
fn representative_delegate_errors() {
    let (mut h, delegator, delegate, id, now) = proposal_setup();
    assert_eq!(h.try_delegate(&delegator, &sym("NOPE"), &delegate), Err(RepresentativeVoteContractErrors::ProposalNotFound));
    let other = h.generate();
    assert_eq!(h.try_delegate(&delegator, &id, &other), Err(RepresentativeVoteContractErrors::DelegateNotFound));
    let poor = h.generate();
    assert_eq!(h.try_delegate(&poor, &id, &delegate), Err(RepresentativeVoteContractErrors::DelegatorCannotDelegate));
    assert_eq!(h.try_delegate(&delegator, &id, &delegate), Ok(()));
    assert_eq!(h.try_delegate(&delegator, &id, &delegate), Err(RepresentativeVoteContractErrors::DelegatorAlreadyDelegated));
    h.now = now + 200000;
    assert_eq!(h.try_delegate(&poor, &id, &delegate), Err(RepresentativeVoteContractErrors::DelegationDeadlineEnded));
}

#[test]
fn representative_revoke_errors_and_effect() {
    let (mut h, delegator, delegate, id, now) = proposal_setup();
    assert_eq!(h.try_revoke_delegation(&delegator, &sym("NOPE")), Err(RepresentativeVoteContractErrors::ProposalNotFound));
    assert_eq!(h.try_revoke_delegation(&delegator, &id), Err(RepresentativeVoteContractErrors::DelegatorAlreadyDelegated));
    assert!(h.try_delegate(&delegator, &id, &delegate).is_ok());
    assert_eq!(h.get_user_details(&delegate), vec![(id.clone(), false, 1000, false, 0)]);
    h.now = now + DELEGATION_GRACE_PERIOD;
    // The last moment of the grace period still allows it.
    assert_eq!(h.get_user_details(&delegator), vec![(id.clone(), true, 1000, true, 0)]);
    assert_eq!(h.try_revoke_delegation(&delegator, &id), Ok(()));
    // The delegate's power is gone with the only delegation.
    assert_eq!(h.get_user_details(&delegate), vec![(id.clone(), false, 0, false, 0)]);
    assert!(h.try_delegate(&delegator, &id, &delegate).is_ok());
    h.now = now + DELEGATION_GRACE_PERIOD + 1;
    assert!(h.try_revoke_delegation(&delegator, &id).is_ok());
    assert!(h.try_delegate(&delegator, &id, &delegate).is_ok());
    h.now = now + 2 * DELEGATION_GRACE_PERIOD + 2;
    assert_eq!(h.try_revoke_delegation(&delegator, &id), Err(RepresentativeVoteContractErrors::DelegationDeadlineEnded));
}

#[test]
fn representative_grace_period_end() {
    let (mut h, delegator, delegate, id, now) = proposal_setup();
    assert!(h.try_delegate(&delegator, &id, &delegate).is_ok());
    h.now = now + DELEGATION_GRACE_PERIOD + 1;
    assert_eq!(h.try_revoke_delegation(&delegator, &id), Err(RepresentativeVoteContractErrors::DelegationGracePeriodEnded));
    assert_eq!(h.contract.check_revocation_eligibility(&delegator, &id, h.now), (false, 0));
    assert_eq!(h.contract.check_revocation_eligibility(&delegator, &id, now + 10), (true, DELEGATION_GRACE_PERIOD - 10));
}

#[test]
fn representative_vote_errors_and_weights() {
    let (mut h, delegator, delegate, id, now) = proposal_setup();
    assert!(h.try_delegate(&delegator, &id, &delegate).is_ok());
    assert_eq!(h.try_vote(&delegate, &id, "FOR"), Err(RepresentativeVoteContractErrors::VotingNotActive));
    h.now = now + 300000;
    assert_eq!(h.try_vote(&delegator, &id, "FOR"), Err(RepresentativeVoteContractErrors::NotDelegate));
    assert_eq!(h.try_vote(&delegate, &sym("NOPE"), "FOR"), Err(RepresentativeVoteContractErrors::ProposalNotFound));
    assert_eq!(h.try_vote(&delegate, &id, "NO"), Err(RepresentativeVoteContractErrors::InvalidChoice));
    assert_eq!(h.try_vote(&delegate, &id, "ABSTAIN"), Ok(()));
    assert_eq!(h.try_vote(&delegate, &id, "FOR"), Err(RepresentativeVoteContractErrors::DelegateAlreadyVoted));
    assert_eq!(h.get_proposal_details(&id).total_abstain, 1000);
}

#[test]
fn representative_delegate_without_power_votes_zero() {
    let (mut h, _delegator, delegate, id, now) = proposal_setup();
    h.now = now + 300000;
    assert_eq!(h.try_vote(&delegate, &id, "FOR"), Ok(()));
    assert_eq!(h.get_proposal_details(&id).total_for, 0);
    assert_eq!(h.try_vote(&delegate, &id, "FOR"), Err(RepresentativeVoteContractErrors::DelegateAlreadyVoted));
}

#[test]
fn representative_ttl_values() {
    assert_eq!(RepresentativeVoteContract::calculate_proposal_ttl(1000, 500000), 2_100_000);
    assert_eq!(RepresentativeVoteContract::calculate_proposal_ttl(0, 2_000_000), 2_604_800);
    assert_eq!(RepresentativeVoteContract::calculate_delegation_ttl(1000, 500000), 1_600_000);
    assert_eq!(RepresentativeVoteContract::calculate_delegation_ttl(0, 1_500_000), 2_104_800);
}

#[test]
fn representative_state_survives_a_round_trip_through_its_parts() {
    let (mut h, delegator, delegate, id, _now) = proposal_setup();
    assert_eq!(h.try_delegate(&delegator, &id, &delegate), Ok(()));
    let c = &h.contract;
    let delegates = Table::from_entries((0..c.delegates().len()).map(|i| (c.delegates().key_at(i).clone(), ())).collect());
    let proposals = Table::from_entries(
        (0..c.proposals().len()).map(|i| (c.proposals().key_at(i).clone(), c.proposals().value_at(i).copy())).collect(),
    );
    let delegations = Table::from_entries(
        (0..c.delegations().len()).map(|i| (c.delegations().key_at(i).clone(), c.delegations().value_at(i).copy())).collect(),
    );
    let powers = Table::from_entries(
        (0..c.powers().len())
            .map(|i| {
                let p = c.powers().value_at(i);
                (
                    c.powers().key_at(i).clone(),
                    RepresentativeVotePowerData { accumulated_power: p.accumulated_power, choice: p.choice.clone() },
                )
            })
            .collect(),
    );
    let now = h.now;
    let restored = RepresentativeVoteContract::from_parts(
        c.admin().cloned(),
        c.token().cloned(),
        delegates,
        c.proposal_ids().clone(),
        proposals,
        delegations,
        powers,
    )
    .expect("consistent parts");
    assert_eq!(restored.get_delegator_details(&delegator, now), c.get_delegator_details(&delegator, now));
    assert_eq!(restored.get_delegator_details(&delegate, now).unwrap(), vec![(id.clone(), false, 1000, false, 0)]);
    assert!(RepresentativeVoteContract::from_parts(None, None, Table::new(), vec![id.clone()], Table::new(), Table::new(), Table::new())
        .is_none());
}

#[test]
fn representative_power_is_the_sum_of_delegations() {
    let (mut h, d1, delegate, id, _now) = proposal_setup();
    let d2 = h.generate();
    let d3 = h.generate();
    h.mint(&d2, 250);
    h.mint(&d3, 40);
    assert_eq!(h.try_delegate(&d1, &id, &delegate), Ok(()));
    assert_eq!(h.try_delegate(&d2, &id, &delegate), Ok(()));
    assert_eq!(h.try_delegate(&d3, &id, &delegate), Ok(()));
    assert_eq!(h.get_user_details(&delegate)[0].2, 1290);
    assert_eq!(h.try_revoke_delegation(&d2, &id), Ok(()));
    assert_eq!(h.get_user_details(&delegate)[0].2, 1040);
    assert_eq!(h.try_revoke_delegation(&d1, &id), Ok(()));
    assert_eq!(h.try_revoke_delegation(&d3, &id), Ok(()));
    // Nothing left delegated: the standing is dropped and the power reads zero.
    assert_eq!(h.get_user_details(&delegate)[0].2, 0);
}

#[test]
fn representative_tallies_are_the_voting_delegates_power() {
    let (mut h, d1, delegate, id, now) = proposal_setup();
    let d2 = h.generate();
    let other = h.generate();
    h.mint(&d2, 30);
    assert_eq!(h.try_set_delegates(&vec![delegate.clone(), other.clone()]), Ok(()));
    assert_eq!(h.try_delegate(&d1, &id, &delegate), Ok(()));
    assert_eq!(h.try_delegate(&d2, &id, &other), Ok(()));
    h.now = now + 300000;
    assert_eq!(h.try_vote(&delegate, &id, "AGAINST"), Ok(()));
    assert_eq!(h.try_vote(&other, &id, "ABSTAIN"), Ok(()));
    let p = h.get_proposal_details(&id);
    assert_eq!((p.total_for, p.total_against, p.total_abstain), (0, 1000, 30));
}
