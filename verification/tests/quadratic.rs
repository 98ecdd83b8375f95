use soroban_governance::quadratic::{Ballot, QuadraticVoteContract, QuadraticVoteContractErrors};
use soroban_governance::table::Table;

fn sym(s: &str) -> Vec<u8> {
    s.as_bytes().to_vec()
}

fn ballot(entries: &[(&str, u32)]) -> Ballot {
    let mut b: Ballot = Table::new();
    for (option, votes) in entries {
        b.insert(sym(option), *votes);
    }
    b
}

const NOW: u64 = 1000000;

fn setup() -> (QuadraticVoteContract, Vec<u8>) {
    let mut c = QuadraticVoteContract::new();
    assert_eq!(c.__constructor(sym("ADMIN"), sym("TOKEN")), Ok(()));
    let id = sym("PROP1");
    let options = vec![sym("A"), sym("B"), sym("C")];
    assert_eq!(c.create_proposal(id.clone(), "Quadratic".to_string(), NOW + 100, NOW + 500100, options, 2, NOW), Ok(()));
    (c, id)
}

#[test]
fn quadratic_integer_sqrt_values() {
    let cases: [(u64, u64); 10] = [
        (0, 0),
        (1, 1),
        (2, 1),
        (3, 1),
        (4, 2),
        (15, 3),
        (16, 4),
        (17, 4),
        (1_000_000, 1000),
        (u64::MAX, 4_294_967_295),
    ];
    for (n, r) in cases {
        assert_eq!(QuadraticVoteContract::integer_sqrt(n), r, "sqrt of {}", n);
    }
}

#[test]
fn quadratic_influence_and_cost() {
    assert_eq!(QuadraticVoteContract::quadratic_influence(0), 0);
    assert_eq!(QuadraticVoteContract::quadratic_influence(1), 1000);
    assert_eq!(QuadraticVoteContract::quadratic_influence(4), 2000);
    assert_eq!(QuadraticVoteContract::quadratic_influence(10), 3000);
    assert_eq!(QuadraticVoteContract::quadratic_influence(u32::MAX), 65_535_000);
    assert_eq!(QuadraticVoteContract::get_vote_cost_and_influence(3), (9, 1000));
    assert_eq!(QuadraticVoteContract::get_vote_cost_and_influence(9), (81, 3000));
    assert_eq!(QuadraticVoteContract::get_vote_cost_and_influence(65535), (4_294_836_225, 255_000));
}

#[test]
fn quadratic_create_proposal_errors() {
    let (mut c, id) = setup();
    let opts = || vec![sym("A"), sym("B")];
    assert_eq!(c.create_proposal(sym("X"), String::new(), NOW + 100, NOW + 500100, vec![], 1, NOW), Err(QuadraticVoteContractErrors::InvalidOption));
    assert_eq!(c.create_proposal(sym("X"), String::new(), NOW + 100, NOW + 500100, opts(), 0, NOW), Err(QuadraticVoteContractErrors::InvalidOption));
    assert_eq!(c.create_proposal(sym("X"), String::new(), NOW + 100, NOW + 500100, opts(), 3, NOW), Err(QuadraticVoteContractErrors::InvalidOption));
    assert_eq!(c.create_proposal(id, String::new(), NOW + 100, NOW + 500100, opts(), 2, NOW), Err(QuadraticVoteContractErrors::ProposalAlreadyExists));
    assert_eq!(c.create_proposal(sym("X"), String::new(), NOW + 100, NOW + 100, opts(), 2, NOW), Err(QuadraticVoteContractErrors::StartTimeAfterEnd));
    assert_eq!(c.create_proposal(sym("X"), String::new(), NOW - 1, NOW + 500100, opts(), 2, NOW), Err(QuadraticVoteContractErrors::StartTimeInPast));
    assert_eq!(c.create_proposal(sym("X"), String::new(), NOW, NOW + 1_296_001, opts(), 2, NOW), Err(QuadraticVoteContractErrors::DurationTooLong));
    assert_eq!(c.create_proposal(sym("X"), String::new(), NOW, NOW + 431_999, opts(), 2, NOW), Err(QuadraticVoteContractErrors::DurationTooShort));
    assert_eq!(c.create_proposal(sym("X"), String::new(), NOW, NOW + 1_296_000, opts(), 2, NOW), Ok(()));
    let mut fresh = QuadraticVoteContract::new();
    assert_eq!(fresh.create_proposal(sym("X"), String::new(), NOW, NOW + 500000, opts(), 2, NOW), Err(QuadraticVoteContractErrors::ContractNotInitialized));
}

#[test]
fn quadratic_vote_tallies_square_roots() {
    let (mut c, id) = setup();
    let t = NOW + 200;
    assert_eq!(c.vote(sym("U1"), id.clone(), ballot(&[("A", 4), ("B", 1)]), t, 17), Ok(()));
    assert_eq!(c.vote(sym("U2"), id.clone(), ballot(&[("A", 9)]), t, 100), Ok(()));
    let p = c.get_proposal_details(&id).unwrap();
    assert_eq!(p.total_votes.get(&sym("A")), Some(&5000));
    assert_eq!(p.total_votes.get(&sym("B")), Some(&1000));
    assert_eq!(p.total_votes.get(&sym("C")), Some(&0));
    assert_eq!(p.total_votes.len(), 3);
    assert_eq!(p.options, vec![sym("A"), sym("B"), sym("C")]);
    assert_eq!(p.max_options_per_vote, 2);
    assert_eq!(p.description, "Quadratic");
}

#[test]
fn quadratic_vote_errors() {
    let (mut c, id) = setup();
    let t = NOW + 200;
    assert_eq!(c.vote(sym("U"), sym("NOPE"), ballot(&[("A", 1)]), t, 10), Err(QuadraticVoteContractErrors::ProposalNotFound));
    assert_eq!(c.vote(sym("U"), id.clone(), ballot(&[("A", 1)]), NOW + 99, 10), Err(QuadraticVoteContractErrors::VotingNotActive));
    assert_eq!(c.vote(sym("U"), id.clone(), ballot(&[("A", 1)]), NOW + 500101, 10), Err(QuadraticVoteContractErrors::VotingNotActive));
    assert_eq!(c.vote(sym("U"), id.clone(), ballot(&[("A", 1)]), t, 0), Err(QuadraticVoteContractErrors::UserCannotVote));
    assert_eq!(c.vote(sym("U"), id.clone(), ballot(&[]), t, 10), Err(QuadraticVoteContractErrors::NoVotesSubmitted));
    assert_eq!(c.vote(sym("U"), id.clone(), ballot(&[("A", 1), ("B", 1), ("C", 1)]), t, 10), Err(QuadraticVoteContractErrors::TooManyOptions));
    assert_eq!(c.vote(sym("U"), id.clone(), ballot(&[("A", 1), ("Z", 1)]), t, 10), Err(QuadraticVoteContractErrors::InvalidOption));
    assert_eq!(c.vote(sym("U"), id.clone(), ballot(&[("A", 0), ("Z", 1)]), t, 10), Err(QuadraticVoteContractErrors::InvalidVoteCount));
    assert_eq!(c.vote(sym("U"), id.clone(), ballot(&[("A", 3), ("B", 1)]), t, 9), Err(QuadraticVoteContractErrors::InsufficientBalance));
    assert_eq!(c.vote(sym("U"), id.clone(), ballot(&[("A", 3), ("B", 1)]), t, 10), Ok(()));
    assert_eq!(c.vote(sym("U"), id.clone(), ballot(&[("C", 1)]), t, 10), Err(QuadraticVoteContractErrors::UserAlreadyVoted));
    let p = c.get_proposal_details(&id).unwrap();
    assert_eq!(p.total_votes.get(&sym("A")), Some(&1000));
    assert_eq!(p.total_votes.get(&sym("B")), Some(&1000));
}

#[test]
fn quadratic_user_details_and_overview() {
    let (mut c, id) = setup();
    assert_eq!(c.create_proposal(sym("PROP2"), "Second".to_string(), NOW + 100, NOW + 500100, vec![sym("X")], 1, NOW), Ok(()));
    assert_eq!(c.vote(sym("U"), id.clone(), ballot(&[("A", 3), ("B", 2)]), NOW + 200, 50), Ok(()));
    assert_eq!(c.get_user_details(&sym("U"), 50), Ok(vec![(id.clone(), true, 13), (sym("PROP2"), false, 50)]));
    let overview = c.get_governance_details(NOW + 200);
    assert_eq!(overview.len(), 2);
    assert_eq!((overview[0].id.clone(), overview[0].status), (id, true));
    assert_eq!(overview[1].description, "Second");
    assert_eq!(c.get_governance_details(NOW)[0].status, false);
    let fresh = QuadraticVoteContract::new();
    assert_eq!(fresh.get_user_details(&sym("U"), 1), Err(QuadraticVoteContractErrors::ContractNotInitialized));
}

#[test]
fn quadratic_admin_and_ttl() {
    let (mut c, _id) = setup();
    assert_eq!(c.__constructor(sym("X"), sym("Y")), Err(QuadraticVoteContractErrors::ContractAlreadyInitialized));
    assert_eq!(c.transfer_admin(sym("NEW")), Ok(()));
    assert_eq!(c.admin(), Some(&sym("NEW")));
    assert_eq!(QuadraticVoteContract::calculate_proposal_ttl(0, 1_500_000), 2_104_800);
    assert_eq!(QuadraticVoteContract::validate_proposal_times(5, 5, 432005), Ok(()));
}

#[test]
fn quadratic_state_survives_a_round_trip_through_its_parts() {
    let (mut c, id) = setup();
    assert_eq!(c.vote(sym("USER"), id.clone(), ballot(&[("A", 3), ("B", 1)]), NOW + 100, 100), Ok(()));
    let proposals = Table::from_entries(
        (0..c.proposals().len())
            .map(|i| {
                let key = c.proposals().key_at(i).clone();
                let p = c.get_proposal_details(&key).unwrap();
                (key, p)
            })
            .collect(),
    );
    let votes = Table::from_entries(
        (0..c.votes().len()).map(|i| (c.votes().key_at(i).clone(), c.votes().value_at(i).copy())).collect(),
    );
    let restored = QuadraticVoteContract::from_parts(
        c.admin().cloned(),
        c.token().cloned(),
        c.proposal_ids().clone(),
        proposals,
        votes,
    )
    .expect("consistent parts");
    assert_eq!(restored.get_user_details(&sym("USER"), 100).unwrap(), vec![(id.clone(), true, 10)]);
    let p = restored.get_proposal_details(&id).unwrap();
    assert_eq!(p.total_votes.get(&sym("A")), Some(&1000));
    assert_eq!(p.total_votes.get(&sym("B")), Some(&1000));
    assert_eq!(p.total_votes.get(&sym("C")), Some(&0));
    assert!(QuadraticVoteContract::from_parts(None, None, vec![id.clone()], Table::new(), Table::new()).is_none());
}

#[test]
fn quadratic_tallies_sum_the_ballots() {
    let (mut c, id) = setup();
    assert_eq!(c.vote(sym("U1"), id.clone(), ballot(&[("A", 4), ("B", 9)]), NOW + 100, 1000), Ok(()));
    assert_eq!(c.vote(sym("U2"), id.clone(), ballot(&[("A", 16)]), NOW + 100, 1000), Ok(()));
    assert_eq!(c.vote(sym("U3"), id.clone(), ballot(&[("C", 3), ("A", 1)]), NOW + 100, 1000), Ok(()));
    let p = c.get_proposal_details(&id).unwrap();
    assert_eq!(p.total_votes.get(&sym("A")), Some(&(2000 + 4000 + 1000)));
    assert_eq!(p.total_votes.get(&sym("B")), Some(&3000));
    assert_eq!(p.total_votes.get(&sym("C")), Some(&1000));
    assert_eq!(p.total_votes.len(), 3);
}

#[test]
fn quadratic_bad_entries_are_checked_in_option_order() {
    let mut c = QuadraticVoteContract::new();
    assert_eq!(c.__constructor(sym("ADMIN"), sym("TOKEN")), Ok(()));
    let id = sym("PROP1");
    assert_eq!(c.create_proposal(id.clone(), "Order".to_string(), NOW + 100, NOW + 500100, vec![sym("Z"), sym("Y")], 2, NOW), Ok(()));
    let t = NOW + 100;
    // `A` comes before `Z`: the unknown option `A` decides, however the ballot lists them.
    assert_eq!(c.vote(sym("U"), id.clone(), ballot(&[("Z", 0), ("A", 5)]), t, 1000), Err(QuadraticVoteContractErrors::InvalidOption));
    assert_eq!(c.vote(sym("U"), id.clone(), ballot(&[("A", 5), ("Z", 0)]), t, 1000), Err(QuadraticVoteContractErrors::InvalidOption));
    // `Y` comes before `ZZ`: the zero count on `Y` decides.
    assert_eq!(c.vote(sym("U"), id.clone(), ballot(&[("ZZ", 1), ("Y", 0)]), t, 1000), Err(QuadraticVoteContractErrors::InvalidVoteCount));
    assert_eq!(c.vote(sym("U"), id.clone(), ballot(&[("Y", 2), ("Z", 1)]), t, 1000), Ok(()));
}
