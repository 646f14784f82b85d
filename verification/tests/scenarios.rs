use std::collections::HashMap;

use cosmwasm_std::testing::{mock_env, MockApi};
use cosmwasm_std::Api;

use electwasm::contract::Contract;
use electwasm::error::ContractError;
use electwasm::exec::CheckedAddr;
use electwasm::msg::{InstantiateMsg, Response};
use electwasm::state::{BlockInfo, Coin, Expiration, State};

const UJUNO: &str = "ujunox";
const UATOM: &str = "uatom";
const CONTRACT: &str = "contract";

/// The contract with the chain around it: the block, the address checks and
/// the bank.
struct Chain {
    api: MockApi,
    block: BlockInfo,
    balances: HashMap<(String, String), u128>,
    contract: Contract,
}

fn addr(name: &str) -> String {
    MockApi::default().addr_make(name).to_string()
}

fn coin(amount: u128, denom: &str) -> Coin {
    Coin { denom: denom.to_string(), amount }
}

fn commissions_both() -> Vec<Coin> {
    vec![coin(500_000, UATOM), coin(500_000, UJUNO)]
}

fn start_block() -> BlockInfo {
    let b = mock_env().block;
    BlockInfo { height: b.height, time: b.time.nanos(), chain_id: b.chain_id }
}

fn days(n: u64) -> u64 {
    n * 86_400 * 1_000_000_000
}

impl Chain {
    fn new(owner: &str, commissions: Vec<Coin>, funded: &[(&str, u128)]) -> Chain {
        let mut balances = HashMap::new();
        for (who, amount) in funded {
            balances.insert((who.to_string(), UATOM.to_string()), *amount);
        }
        let contract = Contract::instantiate(
            owner.to_string(),
            InstantiateMsg { commissions, voting_fee: 0 },
        );
        Chain { api: MockApi::default(), block: start_block(), balances, contract }
    }

    fn balance(&self, who: &str, denom: &str) -> u128 {
        *self.balances.get(&(who.to_string(), denom.to_string())).unwrap_or(&0)
    }

    fn move_funds(&mut self, from: &str, to: &str, c: &Coin) -> bool {
        let have = self.balance(from, &c.denom);
        if have < c.amount {
            return false;
        }
        self.balances.insert((from.to_string(), c.denom.clone()), have - c.amount);
        let there = self.balance(to, &c.denom);
        self.balances.insert((to.to_string(), c.denom.clone()), there + c.amount);
        true
    }

    fn check(&self, s: &str) -> CheckedAddr {
        self.api.addr_validate(s).map(|a| a.to_string())
    }

    fn propose(
        &mut self,
        sender: &str,
        funds: Vec<Coin>,
        title: &str,
        options: &[&str],
        expires: Expiration,
    ) -> Result<Response, ContractError> {
        let saved = self.balances.clone();
        for c in &funds {
            assert!(self.move_funds(sender, CONTRACT, c), "sender lacks the funds");
        }
        let r = self.contract.propose(
            &self.block,
            &sender.to_string(),
            &funds,
            title.to_string(),
            "Dicci la tua preferenza!".to_string(),
            options.iter().map(|o| o.to_string()).collect(),
            expires,
        );
        match &r {
            Ok(resp) => {
                for m in &resp.messages {
                    for c in &m.amount {
                        assert!(self.move_funds(CONTRACT, &m.to_address, c));
                    }
                }
            }
            Err(_) => self.balances = saved,
        }
        r
    }

    fn voters_action(
        &mut self,
        sender: &str,
        ask: &str,
        add: &[&str],
        rmv: &[&str],
        proposal_id: u64,
    ) -> Result<Response, ContractError> {
        let add: Vec<CheckedAddr> = add.iter().map(|a| self.check(a)).collect();
        let rmv: Vec<CheckedAddr> = rmv.iter().map(|a| self.check(a)).collect();
        let ask_check = self.check(ask);
        self.contract.update_voters(
            &self.block,
            &sender.to_string(),
            add,
            ask.to_string(),
            ask_check,
            rmv,
            proposal_id,
        )
    }

    fn vote(&mut self, sender: &str, vote: usize, proposal_id: u64) -> Result<Response, ContractError> {
        self.contract.vote(&self.block, &sender.to_string(), vote, proposal_id)
    }

    fn close(&mut self, sender: &str, proposal_id: u64) -> Result<Response, ContractError> {
        let participants = self.contract.participants(proposal_id)?;
        let quorum = (participants as f64 * 0.6).ceil() as u64;
        self.contract.close(&self.block, &sender.to_string(), proposal_id, quorum)
    }

    fn advance_time(&mut self, seconds: u64) {
        self.block.time += seconds * 1_000_000_000;
    }
}

fn proposal_id_of(resp: &Response) -> u64 {
    resp.attributes
        .iter()
        .find(|a| a.key == "proposal_id")
        .expect("Proposal ID not found")
        .value
        .parse::<u64>()
        .expect("Failed to parse proposal ID")
}

const PASTA: [&str; 3] = ["Norma", "Carbonara", "Gricia"];

/// A chain with the usual commissions, `proposer1` funded with `funds` and
/// one open proposal made by `proposer1`.
fn with_open_proposal(funds: u128) -> (Chain, u64) {
    let owner = addr("owner");
    let proposer1 = addr("proposer1");
    let mut chain = Chain::new(&owner, commissions_both(), &[(&proposer1, funds)]);
    let expires = Expiration::AtTime(chain.block.time + days(2));
    let resp = chain
        .propose(&proposer1, vec![coin(500_000, UATOM)], "Che pasta ti piace?", &PASTA, expires)
        .unwrap();
    let id = proposal_id_of(&resp);
    println!("Created proposal ID: {}", id);
    (chain, id)
}

#[test]
fn test_instantiate_with_valid_message() {
    let owner = "owner".to_string();
    let commissions = commissions_both();
    let chain = Chain::new(&owner, commissions.clone(), &[]);
    let state = chain.contract.config().clone();
    println!("admin {:?}", state.admin);
    assert_eq!(state, State { admin: owner, commissions, voting_fee: 0 })
}

#[test]
fn create_proposal_insufficient_funds() {
    let owner = addr("owner");
    let proposer1 = addr("proposer1");
    let mut chain = Chain::new(&owner, commissions_both(), &[(&proposer1, 500_000)]);
    let expires = Expiration::AtTime(chain.block.time + days(2));
    let err = chain
        .propose(&proposer1, vec![coin(400_000, UATOM)], "Che pasta ti piace?", &PASTA, expires)
        .unwrap_err();
    assert_eq!(err, ContractError::InsufficientFunds { funds: 400_000, commission: 500_000 });
    assert_eq!(chain.balance(&proposer1, "uatom"), 500_000);
}

#[test]
fn create_proposal_unsupported_funds() {
    let owner = addr("owner");
    let proposer1 = addr("proposer1");
    let mut chain = Chain::new(&owner, vec![coin(500_000, UJUNO)], &[(&proposer1, 500_000)]);
    let expires = Expiration::AtTime(chain.block.time + days(2));
    let err = chain
        .propose(&proposer1, vec![coin(400_000, "uatom")], "Che pasta ti piace?", &PASTA, expires)
        .unwrap_err();
    assert_eq!(err, ContractError::UnsupportedToken {});
    assert_eq!(chain.balance(&proposer1, "uatom"), 500_000);
}

#[test]
fn create_proposal_works() {
    let (chain, _) = with_open_proposal(600_000);
    assert_eq!(chain.balance(&addr("proposer1"), "uatom"), 100_000);
    assert_eq!(chain.balance(&addr("owner"), "uatom"), 500_000);
}

#[test]
fn create_multiple_proposals() {
    let (mut chain, _) = with_open_proposal(1_200_000);
    let proposer1 = addr("proposer1");
    let expires = Expiration::AtTime(chain.block.time + days(2));
    chain
        .propose(&proposer1, vec![coin(500_000, UATOM)], "Ti piacciono i giochi?", &["Si", "No", "Boh"], expires)
        .unwrap();
    assert_eq!(chain.balance(&proposer1, "uatom"), 200_000);
    assert_eq!(chain.balance(&addr("owner"), "uatom"), 1_000_000);
}

#[test]
fn test_vote_request_unauthorized() {
    let (mut chain, id) = with_open_proposal(600_000);
    let (proposer1, voter1, voter2) = (addr("proposer1"), addr("voter1"), addr("voter2"));
    chain.voters_action(&proposer1, &voter1, &[], &[], id).unwrap();
    let err = chain.voters_action(&voter2, &voter1, &[&voter2], &[], id).unwrap_err();
    assert_eq!(err, ContractError::Unauthorized {});
}

#[test]
fn test_vote_request_from_owner() {
    let (mut chain, id) = with_open_proposal(600_000);
    let (proposer1, voter1, voter2) = (addr("proposer1"), addr("voter1"), addr("voter2"));
    chain.voters_action(&voter1, &voter1, &[], &[], id).unwrap();
    chain.voters_action(&proposer1, &voter1, &[&voter2], &[], id).unwrap();
    let voters = chain.contract.query_voters(id).unwrap();
    println!("proposer value {:?}", voters);
    assert!(voters.allowed_voters.contains(&voter2));
}

#[test]
fn test_voting_unauthorized() {
    let (mut chain, id) = with_open_proposal(600_000);
    let (proposer1, voter1, voter2) = (addr("proposer1"), addr("voter1"), addr("voter2"));
    chain.voters_action(&voter1, &voter1, &[], &[], id).unwrap();
    chain.voters_action(&proposer1, &voter1, &[&voter2], &[], id).unwrap();
    let err = chain.vote(&voter1, 1, id).unwrap_err();
    assert_eq!(err, ContractError::Unauthorized {});
}

#[test]
fn test_simple_vote() {
    let (mut chain, id) = with_open_proposal(600_000);
    let (proposer1, voter1, voter2) = (addr("proposer1"), addr("voter1"), addr("voter2"));
    chain.voters_action(&voter1, &voter1, &[], &[], id).unwrap();
    chain.voters_action(&proposer1, &voter1, &[&voter2], &[], id).unwrap();
    chain.vote(&voter2, 1, id).unwrap();
}

#[test]
fn test_double_vote() {
    let (mut chain, id) = with_open_proposal(600_000);
    let (proposer1, voter1, voter2) = (addr("proposer1"), addr("voter1"), addr("voter2"));
    chain.voters_action(&voter1, &voter1, &[], &[], id).unwrap();
    chain.voters_action(&proposer1, &voter1, &[&voter2], &[], id).unwrap();
    chain.vote(&voter2, 1, id).unwrap();
    let err = chain.vote(&voter2, 0, id).unwrap_err();
    assert_eq!(err, ContractError::AlreadyVoted {});
}

#[test]
fn test_vote_proposal_closed() {
    let owner = addr("owner");
    let proposer1 = addr("proposer1");
    let (voter1, voter2) = (addr("voter1"), addr("voter2"));
    let mut chain = Chain::new(&owner, commissions_both(), &[(&proposer1, 600_000)]);
    let expires = Expiration::AtTime(chain.block.time);
    let resp = chain
        .propose(&proposer1, vec![coin(500_000, UATOM)], "Che pasta ti piace?", &PASTA, expires)
        .unwrap();
    let id = proposal_id_of(&resp);
    chain.voters_action(&voter1, &voter1, &[], &[], id).unwrap_err();
    let err = chain.voters_action(&proposer1, &voter1, &[&voter2], &[], id).unwrap_err();
    assert_eq!(err, ContractError::Expired {});
    let err = chain.vote(&voter2, 1, id).unwrap_err();
    assert_eq!(err, ContractError::Expired {});
    let err = chain.vote(&voter2, 0, id).unwrap_err();
    assert_eq!(err, ContractError::Expired {});
}

/// Voters 2 to 5 admitted; voters 2 and 3 vote for option 1, voters 4 and 5
/// for option 0.
fn with_four_votes(split: bool) -> (Chain, u64) {
    let (mut chain, id) = with_open_proposal(600_000);
    let proposer1 = addr("proposer1");
    let voter1 = addr("voter1");
    let others: Vec<String> = ["voter2", "voter3", "voter4", "voter5"].iter().map(|v| addr(v)).collect();
    println!("{:?}", chain.contract.query_running(id).unwrap());
    chain.voters_action(&voter1, &voter1, &[], &[], id).unwrap();
    let refs: Vec<&str> = others.iter().map(|s| s.as_str()).collect();
    chain.voters_action(&proposer1, &voter1, &refs, &[], id).unwrap();
    let votes = if split { [1, 1, 0, 0] } else { [1, 1, 1, 0] };
    for (v, choice) in others.iter().zip(votes) {
        chain.vote(v, choice, id).unwrap();
        println!("{:?}", chain.contract.query_running(id).unwrap());
    }
    (chain, id)
}

#[test]
fn test_remove_voters_from_proposal() {
    let (mut chain, id) = with_four_votes(true);
    let proposer1 = addr("proposer1");
    chain.voters_action(&proposer1, "", &[], &[&addr("voter1")], id).unwrap();
    println!("{:?}", chain.contract.query_voters(id).unwrap());
}

#[test]
fn test_remove_voters_from_proposal_cannot_remove() {
    let (mut chain, id) = with_four_votes(true);
    let proposer1 = addr("proposer1");
    let err = chain.voters_action(&proposer1, "", &[], &[&addr("voter5")], id).unwrap_err();
    assert_eq!(err, ContractError::CannotRemoveVoter {})
}

#[test]
fn test_remove_voters_from_proposal_unauthorized() {
    let (mut chain, id) = with_four_votes(true);
    let voter1 = addr("voter1");
    let err = chain.voters_action(&voter1, "", &[], &[&voter1], id).unwrap_err();
    assert_eq!(err, ContractError::Unauthorized {});
}

/// One proposal, voter 1 asked to join and voter 2 admitted.
fn with_one_voter() -> (Chain, u64) {
    let (mut chain, id) = with_open_proposal(600_000);
    let (proposer1, voter1, voter2) = (addr("proposer1"), addr("voter1"), addr("voter2"));
    chain.voters_action(&voter1, &voter1, &[], &[], id).unwrap();
    chain.voters_action(&proposer1, &voter1, &[&voter2], &[], id).unwrap();
    (chain, id)
}

#[test]
fn test_close_proposal_unauthorized() {
    let (mut chain, id) = with_one_voter();
    chain.advance_time(259200);
    let err = chain.close(&addr("voter2"), id).unwrap_err();
    assert_eq!(err, ContractError::Unauthorized {});
}

#[test]
fn test_close_proposal() {
    let (mut chain, id) = with_one_voter();
    chain.advance_time(259200);
    chain.close(&addr("proposer1"), id).unwrap();
}

#[test]
fn test_close_proposal_before_end() {
    let (mut chain, id) = with_one_voter();
    chain.advance_time(86400);
    let err = chain.close(&addr("proposer1"), id).unwrap_err();
    assert_eq!(err, ContractError::NotExpired {})
}

#[test]
fn test_query_proposal_info() {
    let (chain, id) = with_open_proposal(600_000);
    let info = chain.contract.query_proposal(id, &chain.block).unwrap();
    println!("{:?}", info);
}

#[test]
fn test_query_proposal_running_response() {
    let (mut chain, id) = with_four_votes(false);
    chain.advance_time(259200);
    chain.close(&addr("proposer1"), id).unwrap();
}

#[test]
fn test_query_proposal_winner() {
    let (mut chain, id) = with_four_votes(false);
    chain.advance_time(259200);
    chain.close(&addr("proposer1"), id).unwrap();
    let result = chain.contract.query_proposal_result(id).unwrap();
    println!("{:?}", result);
}

#[test]
fn test_query_proposal_no_winner() {
    let (mut chain, id) = with_four_votes(true);
    chain.advance_time(259200);
    chain.close(&addr("proposer1"), id).unwrap();
    let result = chain.contract.query_proposal_result(id).unwrap();
    println!("{:?}", result);
}

#[test]
fn query_multiple_proposals() {
    let (mut chain, _) = with_open_proposal(1_200_000);
    let proposer1 = addr("proposer1");
    let expires = Expiration::AtTime(chain.block.time + days(2));
    chain
        .propose(&proposer1, vec![coin(500_000, UATOM)], "Ti piacciono i giochi?", &["Si", "No", "Boh"], expires)
        .unwrap();
    assert_eq!(chain.balance(&proposer1, "uatom"), 200_000);
    assert_eq!(chain.balance(&addr("owner"), "uatom"), 1_000_000);
    println!("{:?}", chain.contract.query_all_proposal_ids_with_titles());
}

#[test]
fn query_proposals_by_proposer() {
    let owner = addr("owner");
    let proposer1 = addr("proposer1");
    let proposer2 = addr("proposer2");
    let mut chain = Chain::new(
        &owner,
        commissions_both(),
        &[(&proposer1, 1_200_000), (&proposer2, 600_000)],
    );
    let expires = Expiration::AtTime(chain.block.time + days(2));
    chain
        .propose(&proposer1, vec![coin(500_000, UATOM)], "Che pasta ti piace?", &PASTA, expires)
        .unwrap();
    chain
        .propose(&proposer2, vec![coin(500_000, UATOM)], "Ti piacciono i giochi?", &["Si", "No", "Boh"], expires)
        .unwrap();
    assert_eq!(chain.balance(&proposer1, "uatom"), 700_000);
    assert_eq!(chain.balance(&proposer2, "uatom"), 100_000);
    assert_eq!(chain.balance(&owner, "uatom"), 1_000_000);
    println!("{:?}", chain.contract.query_proposals_by_proposer(&proposer2));
}

#[test]
fn query_proposal_voters() {
    let (mut chain, id) = with_open_proposal(600_000);
    let proposer1 = addr("proposer1");
    let voter1 = addr("voter1");
    let others: Vec<String> = ["voter2", "voter3", "voter4", "voter5"].iter().map(|v| addr(v)).collect();
    chain.voters_action(&voter1, &voter1, &[], &[], id).unwrap();
    let refs: Vec<&str> = others.iter().map(|s| s.as_str()).collect();
    chain.voters_action(&proposer1, &voter1, &refs, &[], id).unwrap();
    println!("{:?}", chain.contract.query_voters(id).unwrap());
    chain.voters_action(&proposer1, "", &[&voter1], &[], id).unwrap();
    println!("{:?}", chain.contract.query_voters(id).unwrap());
}

#[test]
fn query_contract_status() {
    let (chain, _) = with_open_proposal(600_000);
    println!("{:?}", chain.contract.query_status());
}
