use cosmwasm_std::StdError;

use electwasm::contract::{missing_proposal_kind, Contract};
use electwasm::error::ContractError;
use electwasm::exec::{
    count_participants, execute_close, execute_create_proposal, execute_vote, update_voters,
    vote_overflows,
};
use electwasm::msg::{InstantiateMsg, Response};
use electwasm::query::{query_proposals_by_proposer, query_status, query_voters};
use electwasm::state::{
    next_id, BlockInfo, Coin, Expiration, Proposal, ProposalStatus, State, VoterStatus, Votes,
};
use electwasm::text::{push_joined, u128_to_text, u64_to_text};
use electwasm::voters::{text_less, VoterTable};

fn block(height: u64, time: u64) -> BlockInfo {
    BlockInfo { height, time, chain_id: "test-chain".to_string() }
}

fn coin(amount: u128, denom: &str) -> Coin {
    Coin { denom: denom.to_string(), amount }
}

fn s(x: &str) -> String {
    x.to_string()
}

fn pairs(r: &Response) -> Vec<(String, String)> {
    r.attributes.iter().map(|a| (a.key.clone(), a.value.clone())).collect()
}

fn proposal(options: &[&str], counts: Vec<u64>, expires: Expiration, proposer: &str) -> Proposal {
    Proposal {
        title: s("t"),
        description: s("d"),
        option: options.iter().map(|o| s(o)).collect(),
        expires,
        votes: Votes { counts },
        status: ProposalStatus::Open,
        proposer: s(proposer),
        winner: None,
    }
}

fn contract(commissions: Vec<Coin>) -> Contract {
    Contract::instantiate(s("admin"), InstantiateMsg { commissions, voting_fee: 7 })
}

fn ok(a: &str) -> Result<String, StdError> {
    Ok(s(a))
}

#[test]
fn votes_start_add_and_total() {
    let mut v = Votes::start(3);
    assert_eq!(v.counts, vec![0, 0, 0]);
    v.add_vote(1, 1);
    v.add_vote(1, 4);
    v.add_vote(2, 2);
    v.add_vote(3, 9);
    assert_eq!(v.counts, vec![0, 5, 2]);
    assert_eq!(v.total(), 7);
    assert_eq!(v.checked_total(), Some(7));
    let big = Votes { counts: vec![u64::MAX, 1] };
    assert_eq!(big.checked_total(), None);
    assert_eq!(Votes::start(0).total(), 0);
}

#[test]
fn next_identifier() {
    assert_eq!(next_id(None), 1);
    assert_eq!(next_id(Some(4)), 5);
}

#[test]
fn instantiate_sets_admin_and_zero_fee() {
    let c = contract(vec![coin(5, "uatom")]);
    assert_eq!(*c.config(), State { admin: s("admin"), commissions: vec![coin(5, "uatom")], voting_fee: 0 });
}

#[test]
fn expiration_by_height_time_and_never() {
    let at_h = proposal(&["a"], vec![0], Expiration::AtHeight(10), "p");
    assert_eq!(at_h.current_status(&block(9, 0)), ProposalStatus::Open);
    assert_eq!(at_h.current_status(&block(10, 0)), ProposalStatus::Closed);
    let at_t = proposal(&["a"], vec![0], Expiration::AtTime(1_000), "p");
    assert_eq!(at_t.current_status(&block(u64::MAX, 999)), ProposalStatus::Open);
    assert_eq!(at_t.current_status(&block(0, 1_000)), ProposalStatus::Closed);
    let never = proposal(&["a"], vec![0], Expiration::Never, "p");
    assert_eq!(never.current_status(&block(u64::MAX, u64::MAX)), ProposalStatus::Open);
    let mut closed = proposal(&["a"], vec![0], Expiration::Never, "p");
    closed.status = ProposalStatus::Closed;
    assert_eq!(closed.current_status(&block(0, 0)), ProposalStatus::Closed);
    let mut p = at_h.clone();
    p.update_status(&block(11, 0));
    assert_eq!(p.status, ProposalStatus::Closed);
}

#[test]
fn decimal_text() {
    assert_eq!(u64_to_text(0), "0");
    assert_eq!(u64_to_text(1_234_567), "1234567");
    assert_eq!(u64_to_text(u64::MAX), u64::MAX.to_string());
    assert_eq!(u128_to_text(u128::MAX), u128::MAX.to_string());
    let mut t = s("Tie: ");
    push_joined(&mut t, &vec![s("a"), s("b"), s("c")], ", ");
    assert_eq!(t, "Tie: a, b, c");
    let mut e = s("x");
    push_joined(&mut e, &vec![], ", ");
    assert_eq!(e, "x");
}

#[test]
fn text_order_and_voter_table() {
    assert!(text_less(&s("ab"), &s("b")));
    assert!(text_less(&s("a"), &s("ab")));
    assert!(!text_less(&s("ab"), &s("ab")));
    assert!(!text_less(&s("b"), &s("ab")));
    let mut t = VoterTable::new();
    t.set(s("carol"), VoterStatus::CanVote);
    t.set(s("alice"), VoterStatus::NotAllowed);
    t.set(s("bob"), VoterStatus::HasVoted);
    t.set(s("alice"), VoterStatus::CanVote);
    assert_eq!(t.len(), 3);
    assert_eq!(t.get(&s("alice")), Some(VoterStatus::CanVote));
    assert_eq!(t.get(&s("dave")), None);
    let names: Vec<String> = (0..t.len()).map(|i| t.entry(i).addr.clone()).collect();
    assert_eq!(names, vec![s("alice"), s("bob"), s("carol")]);
    t.remove(&s("bob"));
    t.remove(&s("nobody"));
    assert_eq!(t.len(), 2);
    assert_eq!(count_participants(&t), 2);
    let r = query_voters(&t);
    assert_eq!(r.allowed_voters, vec![s("alice"), s("carol")]);
    assert!(r.pending_voters.is_empty() && r.has_voted_voters.is_empty());
}

#[test]
fn proposal_refusals() {
    let state = State { admin: s("admin"), commissions: vec![coin(100, "uatom")], voting_fee: 0 };
    let b = block(1, 1);
    let go = |funds: Vec<Coin>, options: Vec<String>| {
        execute_create_proposal(&state, &b, &s("p"), &funds, s("t"), s("d"), options, Expiration::Never, 1)
    };
    assert_eq!(go(vec![coin(100, "uatom")], vec![]).unwrap_err(), ContractError::NoOptionsProvided {});
    assert_eq!(go(vec![], vec![s("a")]).unwrap_err(), ContractError::MissingPayment {});
    assert_eq!(go(vec![coin(100, "ujuno")], vec![s("a")]).unwrap_err(), ContractError::UnsupportedToken {});
    assert_eq!(
        go(vec![coin(99, "uatom")], vec![s("a")]).unwrap_err(),
        ContractError::InsufficientFunds { funds: 99, commission: 100 }
    );
    assert!(go(vec![coin(100, "uatom")], vec![s("a")]).is_ok());
}

#[test]
fn commission_from_last_matching_fund() {
    let state = State {
        admin: s("admin"),
        commissions: vec![coin(10, "a"), coin(20, "b"), coin(30, "b")],
        voting_fee: 0,
    };
    let b = block(1, 1);
    let funds = vec![coin(5, "a"), coin(25, "b"), coin(1, "zzz")];
    let (p, resp) = execute_create_proposal(
        &state, &b, &s("p"), &funds, s("t"), s("d"), vec![s("x"), s("y")], Expiration::AtHeight(5), 9,
    )
    .unwrap();
    assert_eq!(resp.messages.len(), 1);
    assert_eq!(resp.messages[0].to_address, "admin");
    assert_eq!(resp.messages[0].amount, vec![coin(20, "b")]);
    assert_eq!(p.votes.counts, vec![0, 0]);
    assert_eq!(p.status, ProposalStatus::Open);
    assert_eq!(
        pairs(&resp),
        vec![
            (s("action"), s("propose")),
            (s("sender"), s("p")),
            (s("status"), s("Open")),
            (s("commission_payer"), s("p")),
            (s("action"), s("propose")),
            (s("sender"), s("p")),
            (s("proposal_id"), s("9")),
            (s("status"), s("Open")),
        ]
    );
    let err = execute_create_proposal(
        &state, &b, &s("p"), &vec![coin(25, "b"), coin(5, "a")], s("t"), s("d"), vec![s("x")],
        Expiration::Never, 9,
    )
    .unwrap_err();
    assert_eq!(err, ContractError::InsufficientFunds { funds: 5, commission: 10 });
}

#[test]
fn zero_commission_pays_nothing_and_expired_opens_closed() {
    let state = State { admin: s("admin"), commissions: vec![coin(0, "a")], voting_fee: 0 };
    let (p, resp) = execute_create_proposal(
        &state, &block(10, 10), &s("p"), &vec![coin(0, "a")], s("t"), s("d"), vec![s("x")],
        Expiration::AtHeight(10), 3,
    )
    .unwrap();
    assert!(resp.messages.is_empty());
    assert_eq!(p.status, ProposalStatus::Closed);
    assert_eq!(pairs(&resp).len(), 7);
    assert_eq!(pairs(&resp)[6], (s("status"), s("Closed")));
}

#[test]
fn voters_requests() {
    let p = proposal(&["a", "b"], vec![0, 0], Expiration::Never, "prop");
    let mut t = VoterTable::new();
    t.set(s("voted"), VoterStatus::HasVoted);
    t.set(s("asked"), VoterStatus::NotAllowed);
    let r = update_voters(&p, &mut t, &s("prop"), vec![ok("asked"), ok("new"), ok("voted")], &s("ask"), ok("ask"), vec![]);
    assert!(r.unwrap().attributes.is_empty());
    assert_eq!(t.get(&s("asked")), Some(VoterStatus::CanVote));
    assert_eq!(t.get(&s("new")), Some(VoterStatus::CanVote));
    assert_eq!(t.get(&s("voted")), Some(VoterStatus::HasVoted));
    assert_eq!(t.get(&s("ask")), Some(VoterStatus::NotAllowed));
    let before = t.len();
    let r = update_voters(&p, &mut t, &s("prop"), vec![], &s(""), Err(StdError::generic_err("empty")), vec![ok("new"), ok("voted")]);
    assert_eq!(r.unwrap_err(), ContractError::CannotRemoveVoter {});
    assert_eq!(t.len(), before);
    assert_eq!(t.get(&s("new")), Some(VoterStatus::CanVote));
    let r = update_voters(&p, &mut t, &s("other"), vec![ok("x")], &s(""), ok(""), vec![]);
    assert_eq!(r.unwrap_err(), ContractError::Unauthorized {});
    let r = update_voters(&p, &mut t, &s("prop"), vec![ok("x"), Err(StdError::generic_err("bad"))], &s(""), ok(""), vec![]);
    assert_eq!(r.unwrap_err(), ContractError::Std(StdError::generic_err("bad")));
    assert_eq!(t.get(&s("x")), None);
    let r = update_voters(&p, &mut t, &s("other"), vec![], &s("late"), ok("late"), vec![]);
    assert!(r.is_ok());
    assert_eq!(t.get(&s("late")), Some(VoterStatus::NotAllowed));
}

#[test]
fn votes_and_refusals() {
    let mut p = proposal(&["a", "b"], vec![0, 0], Expiration::AtHeight(100), "prop");
    let mut t = VoterTable::new();
    t.set(s("v1"), VoterStatus::CanVote);
    t.set(s("v2"), VoterStatus::NotAllowed);
    let b = block(50, 0);
    assert!(!vote_overflows(&p, &t, &b, &s("v1"), 1));
    assert_eq!(execute_vote(&mut p, &mut t, &b, &s("v1"), 2, 4).unwrap_err(), ContractError::InvalidOption {});
    assert_eq!(t.get(&s("v1")), Some(VoterStatus::CanVote));
    assert_eq!(execute_vote(&mut p, &mut t, &b, &s("v2"), 0, 4).unwrap_err(), ContractError::Unauthorized {});
    assert_eq!(execute_vote(&mut p, &mut t, &b, &s("v9"), 0, 4).unwrap_err(), ContractError::Unauthorized {});
    let resp = execute_vote(&mut p, &mut t, &b, &s("v1"), 1, 4).unwrap();
    assert_eq!(
        pairs(&resp),
        vec![(s("action"), s("vote")), (s("sender"), s("v1")), (s("proposal_id"), s("4")), (s("status"), s("Open"))]
    );
    assert_eq!(p.votes.counts, vec![0, 1]);
    assert_eq!(execute_vote(&mut p, &mut t, &b, &s("v1"), 0, 4).unwrap_err(), ContractError::AlreadyVoted {});
    assert_eq!(execute_vote(&mut p, &mut t, &block(100, 0), &s("v1"), 0, 4).unwrap_err(), ContractError::Expired {});
    assert_eq!(p.votes.counts, vec![0, 1]);
}

#[test]
fn closing_outcomes() {
    let b = block(10, 0);
    let run = |counts: Vec<u64>, quorum: u64| {
        let mut p = proposal(&["Norma", "Carbonara", "Gricia"], counts, Expiration::AtHeight(10), "prop");
        let r = execute_close(&mut p, &b, &s("prop"), quorum).map(|resp| pairs(&resp)[2].1.clone());
        (r, p)
    };
    let (r, p) = run(vec![1, 3, 0], 3);
    assert_eq!(r.unwrap(), "Carbonara");
    assert_eq!(p.winner, Some(s("Carbonara")));
    assert_eq!(p.status, ProposalStatus::Closed);
    let (r, p) = run(vec![2, 2, 1], 5);
    assert_eq!(r.unwrap(), "Norma, Carbonara");
    assert_eq!(p.winner, Some(s("Tie: Norma, Carbonara")));
    let (r, p) = run(vec![0, 0, 0], 0);
    assert_eq!(r.unwrap(), "No valid votes");
    assert_eq!(p.winner, Some(s("No valid votes")));
    let (r, p) = run(vec![1, 1, 0], 3);
    assert_eq!(r.unwrap(), "Quorum not reached");
    assert_eq!(p.winner, Some(s("Quorum not reached")));
    let mut p = proposal(&["a"], vec![0, 4], Expiration::AtHeight(10), "prop");
    assert_eq!(execute_close(&mut p, &b, &s("prop"), 0).unwrap_err(), ContractError::InvalidWinner {});
    assert_eq!(p.status, ProposalStatus::Open);
    let mut p = proposal(&["a"], vec![1], Expiration::AtHeight(10), "prop");
    assert_eq!(execute_close(&mut p, &b, &s("x"), 0).unwrap_err(), ContractError::Unauthorized {});
    assert_eq!(execute_close(&mut p, &block(9, 0), &s("prop"), 0).unwrap_err(), ContractError::NotExpired {});
    let resp = execute_close(&mut p, &b, &s("prop"), 1).unwrap();
    assert_eq!(
        pairs(&resp),
        vec![(s("action"), s("close_proposal")), (s("status"), s("closed")), (s("winner"), s("a"))]
    );
}

#[test]
fn contract_flow_and_missing_proposal() {
    let mut c = contract(vec![coin(10, "uatom")]);
    let b = block(1, 0);
    let r = c.propose(&b, &s("prop"), &vec![coin(10, "uatom")], s("t1"), s("d"), vec![s("a"), s("b")], Expiration::AtHeight(5));
    assert_eq!(r.unwrap().attributes[6].value, "1");
    let r = c.propose(&b, &s("other"), &vec![coin(10, "uatom")], s("t2"), s("d"), vec![s("a")], Expiration::Never);
    assert_eq!(r.unwrap().attributes[6].value, "2");
    assert!(matches!(c.vote(&b, &s("v"), 0, 3), Err(ContractError::Std(_))));
    assert!(matches!(c.query_running(0), Err(ContractError::Std(_))));
    c.update_voters(&b, &s("prop"), vec![ok("v1"), ok("v2")], s(""), ok(""), vec![], 1).unwrap();
    assert_eq!(c.participants(1).unwrap(), 2);
    c.vote(&b, &s("v1"), 1, 1).unwrap();
    assert_eq!(c.query_running(1).unwrap().counts, vec![0, 1]);
    assert_eq!(c.vote(&b, &s("v1"), 1, 1).unwrap_err(), ContractError::AlreadyVoted {});
    assert_eq!(c.participants(1).unwrap(), 1);
    let v = c.query_voters(1).unwrap();
    assert_eq!(v.has_voted_voters, vec![s("v1")]);
    assert_eq!(v.allowed_voters, vec![s("v2")]);
    let late = block(5, 0);
    assert_eq!(c.query_proposal(1, &late).unwrap().status, ProposalStatus::Closed);
    assert_eq!(c.close(&late, &s("prop"), 1, 1).unwrap().attributes[2].value, "b");
    assert_eq!(c.query_proposal_result(1).unwrap().winner, Some(s("b")));
    let all = c.query_all_proposal_ids_with_titles();
    assert_eq!(all.proposals, vec![(1, s("t1")), (2, s("t2"))]);
    let mine = c.query_proposals_by_proposer(&s("other"));
    assert_eq!(mine.proposals.len(), 1);
    assert_eq!(mine.proposals[0].id, 2);
    assert_eq!(c.query_status().commissions, vec![s("10 uatom")]);
}

#[test]
fn reports_by_proposer_and_status() {
    let entries = vec![
        (1, proposal(&["a"], vec![0], Expiration::Never, "x")),
        (2, proposal(&["a"], vec![0], Expiration::Never, "y")),
        (3, proposal(&["a"], vec![0], Expiration::Never, "x")),
    ];
    let r = query_proposals_by_proposer(&entries, &s("x"));
    let ids: Vec<u64> = r.proposals.iter().map(|p| p.id).collect();
    assert_eq!(ids, vec![1, 3]);
    let state = State { admin: s("a"), commissions: vec![coin(500_000, "uatom"), coin(7, "ujuno")], voting_fee: 0 };
    assert_eq!(query_status(&state).commissions, vec![s("500000 uatom"), s("7 ujuno")]);
}


#[test]
fn closed_proposal_takes_no_more_votes_or_voters() {
    let mut c = contract(vec![coin(0, "uatom")]);
    let b = block(1, 0);
    c.propose(&b, &s("prop"), &vec![coin(0, "uatom")], s("t"), s("d"), vec![s("a"), s("b")], Expiration::AtHeight(3))
        .unwrap();
    c.update_voters(&b, &s("prop"), vec![ok("v1"), ok("v2")], s(""), ok(""), vec![], 1).unwrap();
    c.vote(&b, &s("v1"), 0, 1).unwrap();
    let late = block(3, 0);
    assert_eq!(c.close(&late, &s("prop"), 1, 1).unwrap().attributes[2].value, "a");
    // Even in an earlier block, the stored status is now closed.
    assert_eq!(c.vote(&b, &s("v2"), 1, 1).unwrap_err(), ContractError::Expired {});
    assert_eq!(
        c.update_voters(&b, &s("prop"), vec![ok("v3")], s(""), ok(""), vec![], 1).unwrap_err(),
        ContractError::Expired {}
    );
    assert_eq!(c.query_running(1).unwrap().counts, vec![1, 0]);
    assert_eq!(c.query_proposal(1, &b).unwrap().status, ProposalStatus::Closed);
}

#[test]
fn voters_of_a_missing_proposal_are_empty() {
    let c = contract(vec![coin(10, "uatom")]);
    assert_eq!(c.participants(1).unwrap(), 0);
    let v = c.query_voters(1).unwrap();
    assert!(v.allowed_voters.is_empty());
    assert!(v.pending_voters.is_empty());
    assert!(v.has_voted_voters.is_empty());
}

#[test]
fn same_voter_request_twice_changes_nothing_more() {
    let mut c = contract(vec![coin(0, "uatom")]);
    let b = block(1, 0);
    c.propose(&b, &s("prop"), &vec![coin(0, "uatom")], s("t"), s("d"), vec![s("a")], Expiration::Never)
        .unwrap();
    c.update_voters(&b, &s("prop"), vec![ok("v1"), ok("v2")], s(""), ok(""), vec![], 1).unwrap();
    let request = || (vec![ok("v3"), ok("v1")], s("v4"), ok("v4"), vec![ok("v2"), ok("v3")]);
    let (add, ask, check, rmv) = request();
    c.update_voters(&b, &s("prop"), add, ask, check, rmv, 1).unwrap();
    let first = c.query_voters(1).unwrap();
    let (add, ask, check, rmv) = request();
    c.update_voters(&b, &s("prop"), add, ask, check, rmv, 1).unwrap();
    let second = c.query_voters(1).unwrap();
    assert_eq!(first, second);
    assert_eq!(second.allowed_voters, vec![s("v1"), s("v3")]);
    assert_eq!(second.pending_voters, vec![s("v4")]);
}

#[test]
fn closing_twice_gives_the_same_winner() {
    let mut c = contract(vec![coin(0, "uatom")]);
    let b = block(1, 0);
    c.propose(&b, &s("prop"), &vec![coin(0, "uatom")], s("t"), s("d"), vec![s("a"), s("b")], Expiration::AtHeight(2))
        .unwrap();
    c.update_voters(&b, &s("prop"), vec![ok("v1"), ok("v2")], s(""), ok(""), vec![], 1).unwrap();
    c.vote(&b, &s("v1"), 0, 1).unwrap();
    c.vote(&b, &s("v2"), 1, 1).unwrap();
    let late = block(2, 0);
    let r1 = c.close(&late, &s("prop"), 1, 1).unwrap();
    let w1 = c.query_proposal_result(1).unwrap().winner;
    let r2 = c.close(&late, &s("prop"), 1, 1).unwrap();
    assert_eq!(pairs(&r1), pairs(&r2));
    assert_eq!(c.query_proposal_result(1).unwrap().winner, w1);
    assert_eq!(w1, Some(s("Tie: a, b")));
}

#[test]
fn missing_proposal_error_names_type_and_key() {
    let expected = "type: electwasm::state::Proposal; key: [00, 09, 70, 72, 6F, 70, 6F, 73, 61, 6C, 73, 00, 00, 00, 00, 00, 00, 00, 03]";
    assert_eq!(missing_proposal_kind(3), expected);
    // The same key text as the host storage gives for that key.
    let store = cosmwasm_std::testing::MockStorage::new();
    let map: cw_storage_plus::Map<u64, String> = cw_storage_plus::Map::new("proposals");
    match map.load(&store, 3) {
        Err(StdError::NotFound { kind, .. }) => {
            assert_eq!(kind.split("; ").nth(1), expected.split("; ").nth(1));
        }
        other => panic!("unexpected {:?}", other),
    }
    let mut c = contract(vec![coin(10, "uatom")]);
    match c.vote(&block(1, 0), &s("v"), 0, 3) {
        Err(ContractError::Std(StdError::NotFound { kind, .. })) => assert_eq!(kind, expected),
        other => panic!("unexpected {:?}", other),
    }
    assert_eq!(
        missing_proposal_kind(0x0102030405060708),
        "type: electwasm::state::Proposal; key: [00, 09, 70, 72, 6F, 70, 6F, 73, 61, 6C, 73, 01, 02, 03, 04, 05, 06, 07, 08]"
    );
}
