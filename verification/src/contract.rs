//! The contract as a whole: its configuration, its proposals under their
//! identifiers and the voters of each, with the messages that change them
//! and the queries that read them.
use vstd::prelude::*;
use crate::error::{not_found, ContractError};
use crate::exec::{
    close_outcome, close_pairs, count_participants, counts_after_vote, execute_close,
    execute_create_proposal, execute_update_voters, execute_vote, lemma_update_keeps_voted,
    opened_as, propose_response, proposal_refusal, update_voters_pairs, vote_pairs, vote_refusal,
    voters_after_update, CheckedAddr, VoterMap,
};
use crate::msg::{
    InstantiateMsg, ProposalIdsWithTitlesResponse, ProposalResponse, ProposalResult,
    ProposalsByProposerResponse, Response, StatusResponse, VotersResponse,
};
use crate::query::{
    by_proposer, commission_text, ids_with_titles, info_view, query_all_proposal_ids_with_titles,
    query_proposal, query_proposal_result, query_proposal_running_response,
    query_proposals_by_proposer, query_status, query_voters,
};
use crate::state::{
    lemma_sum_update, sum, BlockInfo, Coin, Expiration, Proposal, ProposalStatus, State,
    VoterStatus, Votes,
};
use crate::state::{proposal_key, proposal_storage_key};
use crate::text::{byte_list, byte_list_text, views};
use crate::voters::{
    addresses_with, ascending_keys, count_of, lemma_listing_count, lemma_listing_len, listing_map,
    with_status, Listing, VoterTable,
};

verus! {

/// What is missing where proposal `id` is not stored: the stored type and
/// the key it was looked for under, each byte in hexadecimal.
pub open spec fn missing_proposal_text(id: u64) -> Seq<char> {
    "type: electwasm::state::Proposal; key: "@ + byte_list(proposal_key(id))
}

/// The description of a missing proposal `id`, as the error for it gives it.
pub fn missing_proposal_kind(id: u64) -> (s: String)
    ensures
        s@ == missing_proposal_text(id),
{
    let mut s = String::new();
    s.append("type: electwasm::state::Proposal; key: ");
    let list = byte_list_text(&proposal_storage_key(id));
    s.append(list.as_str());
    s
}

/// A proposal's tally agrees with its voters: one count per option, and as
/// many votes in all as voters who have voted.
pub open spec fn tally_consistent(p: Proposal, m: VoterMap) -> bool {
    &&& p.votes.counts@.len() == p.option@.len()
    &&& m.dom().finite()
    &&& sum(p.votes.counts@) == count_of(m, VoterStatus::HasVoted)
}

/// The configuration of a new contract: the sender becomes the admin, who
/// receives the commissions given; the voting fee starts at zero.
pub fn instantiate(sender: String, msg: InstantiateMsg) -> (s: State)
    ensures
        s.admin == sender,
        s.commissions == msg.commissions,
        s.voting_fee == 0,
{
    State { admin: sender, commissions: msg.commissions, voting_fee: 0 }
}

/// The contract's storage: the configuration, the proposals in order of
/// identifier (the first is 1, each next one more) and the voters of each.
pub struct Contract {
    state: State,
    proposals: Vec<(u64, Proposal)>,
    voters: Vec<VoterTable>,
}

impl Contract {
    /// The configuration.
    pub closed spec fn state(&self) -> State {
        self.state
    }

    /// The proposals with their identifiers, in order of identifier.
    pub closed spec fn proposals(&self) -> Seq<(u64, Proposal)> {
        self.proposals@
    }

    /// The voters of each proposal, in order of identifier.
    pub closed spec fn voter_maps(&self) -> Seq<VoterMap> {
        self.voters@.map_values(|t: VoterTable| t@)
    }

    /// The voters of each proposal in ascending order of address.
    pub closed spec fn voter_listings(&self) -> Seq<Listing> {
        self.voters@.map_values(|t: VoterTable| t.listing())
    }

    /// What the contract keeps is in order: identifiers run from 1, each
    /// proposal has its voters, and every tally agrees with its voters.
    pub open spec fn consistent(&self) -> bool {
        &&& self.proposals().len() == self.voter_maps().len()
        &&& self.voter_listings().len() == self.voter_maps().len()
        &&& forall|i: int|
            0 <= i < self.proposals().len() ==> (#[trigger] self.proposals()[i]).0 == i + 1
        &&& forall|i: int|
            0 <= i < self.proposals().len() ==> tally_consistent(
                self.proposals()[i].1,
                #[trigger] self.voter_maps()[i],
            )
        &&& forall|i: int|
            0 <= i < self.voter_listings().len() ==> ascending_keys(
                #[trigger] self.voter_listings()[i],
            ) && listing_map(self.voter_listings()[i]) == self.voter_maps()[i]
    }

    /// Whether the contract holds the same as `other`.
    pub open spec fn same_as(&self, other: &Contract) -> bool {
        &&& self.state() == other.state()
        &&& self.proposals() == other.proposals()
        &&& self.voter_maps() == other.voter_maps()
        &&& self.voter_listings() == other.voter_listings()
    }

    /// Whether proposal `id` exists.
    pub open spec fn has_proposal(&self, id: u64) -> bool {
        1 <= id <= self.proposals().len()
    }

    /// Proposal `id`, where it exists.
    pub open spec fn proposal(&self, id: u64) -> Proposal {
        self.proposals()[id - 1].1
    }

    /// The voters of proposal `id`, where it exists.
    pub open spec fn voters_of(&self, id: u64) -> VoterMap {
        self.voter_maps()[id - 1]
    }

    /// Sets the contract up: the sender becomes the admin, who receives the
    /// commissions given; the voting fee starts at zero.
    pub fn instantiate(sender: String, msg: InstantiateMsg) -> (c: Contract)
        ensures
            c.state().admin == sender,
            c.state().commissions == msg.commissions,
            c.state().voting_fee == 0,
            c.proposals().len() == 0,
            c.consistent(),
    {
        let c = Contract {
            state: instantiate(sender, msg),
            proposals: Vec::new(),
            voters: Vec::new(),
        };
        assert(c.voter_maps() =~= Seq::<VoterMap>::empty());
        assert(c.voter_listings() =~= Seq::<Listing>::empty());
        c
    }

    /// The configuration.
    pub fn config(&self) -> (s: &State)
        ensures
            *s == self.state(),
    {
        &self.state
    }

    /// The index of proposal `id`, or, for a missing one, the host error for
    /// a record not found, described by `missing_proposal_text(id)`.
    fn index_of(&self, id: u64) -> (r: Result<usize, ContractError>)
        requires
            self.consistent(),
        ensures
            self.has_proposal(id) <==> r is Ok,
            r matches Ok(i) ==> i == id - 1 && i < self.proposals.len() && i < self.voters.len(),
            r matches Err(e) ==> e is Std,
    {
        if id >= 1 && id - 1 < self.proposals.len() as u64 {
            Ok((id - 1) as usize)
        } else {
            let kind = missing_proposal_kind(id);
            Err(ContractError::Std(not_found(kind.as_str())))
        }
    }

    /// Opens a new proposal, paid for by `funds`, under the next identifier.
    pub fn propose(
        &mut self,
        block: &BlockInfo,
        sender: &String,
        funds: &Vec<Coin>,
        title: String,
        description: String,
        option: Vec<String>,
        expires: Expiration,
    ) -> (r: Result<Response, ContractError>)
        requires
            old(self).consistent(),
            old(self).proposals().len() < u64::MAX,
        ensures
            final(self).consistent(),
            proposal_refusal(old(self).state().commissions@, funds@, option@.len()) matches Some(e)
                ==> r == Err::<Response, ContractError>(e) && final(self).same_as(old(self)),
            proposal_refusal(old(self).state().commissions@, funds@, option@.len()) is None ==> {
                let id = (old(self).proposals().len() + 1) as u64;
                &&& r matches Ok(resp)
                &&& final(self).state() == old(self).state()
                &&& final(self).proposals().len() == old(self).proposals().len() + 1
                &&& final(self).proposals().drop_last() == old(self).proposals()
                &&& final(self).proposals().last().0 == id
                &&& opened_as(
                    final(self).proposals().last().1,
                    title,
                    description,
                    option,
                    expires,
                    sender@,
                    *block,
                )
                &&& propose_response(
                    r->Ok_0,
                    old(self).state(),
                    funds@,
                    sender@,
                    id,
                    final(self).proposals().last().1.status,
                )
                &&& final(self).voter_maps() == old(self).voter_maps().push(
                    Map::<Seq<char>, VoterStatus>::empty(),
                )
            },
    {
        let id = self.proposals.len() as u64 + 1;
        match execute_create_proposal(
            &self.state,
            block,
            sender,
            funds,
            title,
            description,
            option,
            expires,
            id,
        ) {
            Err(e) => Err(e),
            Ok((prop, resp)) => {
                let ghost old_maps = self.voter_maps();
                let ghost old_listings = self.voter_listings();
                let ghost zeros = prop.votes.counts@;
                proof {
                    lemma_sum_zero(zeros);
                }
                self.proposals.push((id, prop));
                let t = VoterTable::new();
                proof {
                    assert(with_status(t@, VoterStatus::HasVoted) =~= Set::empty());
                }
                self.voters.push(t);
                proof {
                    assert(self.voter_maps() =~= old_maps.push(Map::<Seq<char>, VoterStatus>::empty()));
                    assert(self.voter_listings() =~= old_listings.push(Seq::empty()));
                    assert(self.proposals().drop_last() =~= old(self).proposals());
                }
                Ok(resp)
            },
        }
    }

    /// The sender's vote for option `vote` of proposal `proposal_id`.
    pub fn vote(&mut self, block: &BlockInfo, sender: &String, vote: usize, proposal_id: u64) -> (r:
        Result<Response, ContractError>)
        requires
            old(self).consistent(),
        ensures
            final(self).consistent(),
            !old(self).has_proposal(proposal_id) ==> (r matches Err(e) && e is Std) && final(self).same_as(
                old(self),
            ),
            old(self).has_proposal(proposal_id) ==> (vote_refusal(
                old(self).proposal(proposal_id),
                old(self).voters_of(proposal_id),
                *block,
                sender@,
                vote,
            ) matches Some(e) ==> r == Err::<Response, ContractError>(e) && final(self).same_as(old(self))),
            old(self).has_proposal(proposal_id) && vote_refusal(
                old(self).proposal(proposal_id),
                old(self).voters_of(proposal_id),
                *block,
                sender@,
                vote,
            ) is None ==> {
                let old_p = old(self).proposal(proposal_id);
                let new_p = final(self).proposal(proposal_id);
                &&& r matches Ok(resp)
                &&& resp.messages@.len() == 0
                &&& resp.pairs() == vote_pairs(sender@, proposal_id, ProposalStatus::Open)
                &&& final(self).state() == old(self).state()
                &&& new_p.votes.counts@ == counts_after_vote(old_p.votes.counts@, vote)
                &&& new_p == (Proposal { votes: new_p.votes, ..old_p })
                &&& final(self).proposals() == old(self).proposals().update(
                    proposal_id - 1,
                    (proposal_id, new_p),
                )
                &&& final(self).voter_maps() == old(self).voter_maps().update(
                    proposal_id - 1,
                    old(self).voters_of(proposal_id).insert(sender@, VoterStatus::HasVoted),
                )
            },
    {
        let i = match self.index_of(proposal_id) {
            Ok(i) => i,
            Err(e) => {
                return Err(e);
            },
        };
        let ghost old_p = self.proposals@[i as int].1;
        let ghost old_m = self.voters@[i as int]@;
        let ghost old_maps = self.voter_maps();
        let ghost old_listings = self.voter_listings();
        proof {
            self.voters@[i as int].lemma_size();
            assert(self.voter_maps()[i as int] == old_m);
            assert(self.voter_listings()[i as int] == self.voters@[i as int].listing());
            lemma_listing_len(self.voters@[i as int].listing());
            if vote_refusal(old_p, old_m, *block, sender@, vote) is None && vote
                < old_p.votes.counts.len() {
                let hv = with_status(old_m, VoterStatus::HasVoted);
                assert(hv.subset_of(old_m.dom().remove(sender@)));
                vstd::set_lib::lemma_len_subset(hv, old_m.dom().remove(sender@));
                lemma_sum_update(old_p.votes.counts@, vote as int, old_p.votes.counts@[vote as int]);
            }
        }
        let mut entry = self.proposals.remove(i);
        let mut table = self.voters.remove(i);
        let r = execute_vote(&mut entry.1, &mut table, block, sender, vote, proposal_id);
        proof {
            if r is Ok {
                let hv = with_status(old_m, VoterStatus::HasVoted);
                assert(with_status(table@, VoterStatus::HasVoted) =~= hv.insert(sender@));
                lemma_sum_update(
                    old_p.votes.counts@,
                    vote as int,
                    (old_p.votes.counts@[vote as int] + 1) as u64,
                );
            }
        }
        table.check_ordered();
        self.proposals.insert(i, entry);
        self.voters.insert(i, table);
        proof {
            if r is Ok {
                assert(self.voter_maps() =~= old_maps.update(i as int, table@));
                assert(self.voter_listings() =~= old_listings.update(i as int, table.listing()));
            } else {
                assert(self.voter_maps() =~= old_maps);
                assert(self.voter_listings() =~= old_listings);
                assert(self.proposals() =~= old(self).proposals());
            }
        }
        r
    }

    /// A request on the voters of proposal `proposal_id`: removals, the
    /// address that asks to join, admissions.
    pub fn update_voters(
        &mut self,
        block: &BlockInfo,
        sender: &String,
        add: Vec<CheckedAddr>,
        ask: String,
        ask_check: CheckedAddr,
        rmv: Vec<CheckedAddr>,
        proposal_id: u64,
    ) -> (r: Result<Response, ContractError>)
        requires
            old(self).consistent(),
        ensures
            final(self).consistent(),
            !old(self).has_proposal(proposal_id) ==> (r matches Err(e) && e is Std) && final(self).same_as(old(self)),
            old(self).has_proposal(proposal_id) && old(self).proposal(proposal_id).status_in(*block)
                != ProposalStatus::Open ==> r == Err::<Response, ContractError>(
                ContractError::Expired {},
            ) && final(self).same_as(old(self)),
            old(self).has_proposal(proposal_id) && old(self).proposal(proposal_id).status_in(*block)
                == ProposalStatus::Open ==> match voters_after_update(
                old(self).proposal(proposal_id).proposer@,
                old(self).voters_of(proposal_id),
                sender@,
                add@,
                ask@,
                ask_check,
                rmv@,
            ) {
                Ok(m) => (r matches Ok(resp) && resp.messages@.len() == 0 && resp.pairs()
                    == update_voters_pairs(proposal_id, add@.len(), ask@, sender@)) && final(self).state() == old(self).state() && final(self).proposals() == old(self).proposals()
                    && final(self).voter_maps() == old(self).voter_maps().update(
                    proposal_id - 1,
                    m,
                ),
                Err(e) => r == Err::<Response, ContractError>(e) && final(self).same_as(old(self)),
            },
    {
        let i = match self.index_of(proposal_id) {
            Ok(i) => i,
            Err(e) => {
                return Err(e);
            },
        };
        let ghost old_m = self.voters@[i as int]@;
        let ghost old_maps = self.voter_maps();
        let ghost old_listings = self.voter_listings();
        proof {
            assert(self.voter_maps()[i as int] == old_m);
        }
        let ghost add_v = add@;
        let ghost rmv_v = rmv@;
        let ghost ask_v = ask@;
        let ghost check = ask_check;
        let mut table = self.voters.remove(i);
        let r = execute_update_voters(
            &self.proposals[i].1,
            &mut table,
            block,
            sender,
            add,
            ask,
            ask_check,
            rmv,
            proposal_id,
        );
        proof {
            let p = self.proposals@[i as int].1;
            lemma_update_keeps_voted(p.proposer@, old_m, sender@, add_v, ask_v, check, rmv_v);
        }
        table.check_ordered();
        self.voters.insert(i, table);
        proof {
            lemma_listing_len(table.listing());
            if r is Ok {
                assert(self.voter_maps() =~= old_maps.update(i as int, table@));
                assert(self.voter_listings() =~= old_listings.update(i as int, table.listing()));
            } else {
                assert(self.voter_maps() =~= old_maps);
                assert(self.voter_listings() =~= old_listings);
            }
        }
        r
    }

    /// Closes proposal `proposal_id` for its proposer once it has expired,
    /// with `quorum` the least number of votes for a winner.
    pub fn close(&mut self, block: &BlockInfo, sender: &String, proposal_id: u64, quorum: u64) -> (r:
        Result<Response, ContractError>)
        requires
            old(self).consistent(),
        ensures
            final(self).consistent(),
            !old(self).has_proposal(proposal_id) ==> (r matches Err(e) && e is Std) && final(self).same_as(old(self)),
            old(self).has_proposal(proposal_id) ==> {
                let p = old(self).proposal(proposal_id);
                &&& p.proposer@ != sender@ ==> r == Err::<Response, ContractError>(
                    ContractError::Unauthorized {},
                ) && final(self).same_as(old(self))
                &&& p.proposer@ == sender@ && !p.expires.reached_in(*block) ==> r == Err::<
                    Response,
                    ContractError,
                >(ContractError::NotExpired {}) && final(self).same_as(old(self))
                &&& p.proposer@ == sender@ && p.expires.reached_in(*block) ==> match close_outcome(
                    views(p.option@),
                    p.votes.counts@,
                    quorum,
                ) {
                    Err(e) => r == Err::<Response, ContractError>(e) && final(self).same_as(
                        old(self),
                    ),
                    Ok((recorded, reported)) => {
                        let q = final(self).proposal(proposal_id);
                        &&& r matches Ok(resp)
                        &&& resp.messages@.len() == 0
                        &&& resp.pairs() == close_pairs(reported)
                        &&& q.winner matches Some(w)
                        &&& q.winner->Some_0@ == recorded
                        &&& q == (Proposal {
                            status: ProposalStatus::Closed,
                            winner: q.winner,
                            ..p
                        })
                        &&& final(self).proposals() == old(self).proposals().update(
                            proposal_id - 1,
                            (proposal_id, q),
                        )
                        &&& final(self).state() == old(self).state()
                        &&& final(self).voter_maps() == old(self).voter_maps()
                        &&& final(self).voter_listings() == old(self).voter_listings()
                    },
                }
            },
    {
        let i = match self.index_of(proposal_id) {
            Ok(i) => i,
            Err(e) => {
                return Err(e);
            },
        };
        proof {
            self.voters@[i as int].lemma_size();
            let l = self.voters@[i as int].listing();
            assert(self.voter_listings()[i as int] == l);
            assert(self.voter_maps()[i as int] == self.voters@[i as int]@);
            lemma_listing_count(l, VoterStatus::HasVoted);
        }
        let mut entry = self.proposals.remove(i);
        let r = execute_close(&mut entry.1, block, sender, quorum);
        self.proposals.insert(i, entry);
        proof {
            assert(self.proposals@[i as int].1.votes == old(self).proposals@[i as int].1.votes);
            if r is Err {
                assert(self.proposals() =~= old(self).proposals());
            }
        }
        r
    }

    /// The number of voters of proposal `proposal_id` who may vote and have
    /// not yet voted; none for an identifier with no proposal.
    pub fn participants(&self, proposal_id: u64) -> (r: Result<u64, ContractError>)
        requires
            self.consistent(),
        ensures
            !self.has_proposal(proposal_id) ==> r == Ok::<u64, ContractError>(0),
            self.has_proposal(proposal_id) ==> r == Ok::<u64, ContractError>(
                count_of(self.voters_of(proposal_id), VoterStatus::CanVote) as u64,
            ),
    {
        let i = match self.index_of(proposal_id) {
            Ok(i) => i,
            Err(_) => {
                let empty = VoterTable::new();
                proof {
                    assert(with_status(empty@, VoterStatus::CanVote) =~= Set::empty());
                }
                return Ok(count_participants(&empty));
            },
        };
        proof {
            assert(self.voter_maps()[i as int] == self.voters@[i as int]@);
        }
        Ok(count_participants(&self.voters[i]))
    }

    /// Proposal `proposal_id` as it stands in `block`.
    pub fn query_proposal(&self, proposal_id: u64, block: &BlockInfo) -> (r: Result<
        ProposalResponse,
        ContractError,
    >)
        requires
            self.consistent(),
        ensures
            !self.has_proposal(proposal_id) ==> (r matches Err(e) && e is Std),
            self.has_proposal(proposal_id) ==> (r matches Ok(resp) && {
                let p = self.proposal(proposal_id);
                &&& resp.id == proposal_id
                &&& resp.title == p.title
                &&& resp.description == p.description
                &&& resp.status == p.status_in(*block)
                &&& resp.expires == p.expires
                &&& resp.proposer == p.proposer
                &&& resp.options@ == p.option@
            }),
    {
        let i = match self.index_of(proposal_id) {
            Ok(i) => i,
            Err(e) => {
                return Err(e);
            },
        };
        Ok(query_proposal(proposal_id, &self.proposals[i].1, block))
    }

    /// The outcome of proposal `proposal_id`.
    pub fn query_proposal_result(&self, proposal_id: u64) -> (r: Result<ProposalResult, ContractError>)
        requires
            self.consistent(),
        ensures
            !self.has_proposal(proposal_id) ==> (r matches Err(e) && e is Std),
            self.has_proposal(proposal_id) ==> (r matches Ok(res) && res.title == self.proposal(
                proposal_id,
            ).title && res.description == self.proposal(proposal_id).description && res.winner
                == self.proposal(proposal_id).winner),
    {
        let i = match self.index_of(proposal_id) {
            Ok(i) => i,
            Err(e) => {
                return Err(e);
            },
        };
        Ok(query_proposal_result(&self.proposals[i].1))
    }

    /// The vote counts of proposal `proposal_id`.
    pub fn query_running(&self, proposal_id: u64) -> (r: Result<Votes, ContractError>)
        requires
            self.consistent(),
        ensures
            !self.has_proposal(proposal_id) ==> (r matches Err(e) && e is Std),
            self.has_proposal(proposal_id) ==> (r matches Ok(v) && v.counts@ == self.proposal(
                proposal_id,
            ).votes.counts@),
    {
        let i = match self.index_of(proposal_id) {
            Ok(i) => i,
            Err(e) => {
                return Err(e);
            },
        };
        Ok(query_proposal_running_response(&self.proposals[i].1))
    }

    /// The voters of proposal `proposal_id` by standing, each list in
    /// ascending order of address; three empty lists for an identifier with
    /// no proposal.
    pub fn query_voters(&self, proposal_id: u64) -> (r: Result<VotersResponse, ContractError>)
        requires
            self.consistent(),
        ensures
            !self.has_proposal(proposal_id) ==> (r matches Ok(v) && v.allowed_voters@.len() == 0
                && v.pending_voters@.len() == 0 && v.has_voted_voters@.len() == 0),
            self.has_proposal(proposal_id) ==> (r matches Ok(v) && {
                let l = self.voter_listings()[proposal_id - 1];
                &&& views(v.allowed_voters@) == addresses_with(l, VoterStatus::CanVote)
                &&& views(v.pending_voters@) == addresses_with(l, VoterStatus::NotAllowed)
                &&& views(v.has_voted_voters@) == addresses_with(l, VoterStatus::HasVoted)
            }),
    {
        let i = match self.index_of(proposal_id) {
            Ok(i) => i,
            Err(_) => {
                let empty = VoterTable::new();
                let v = query_voters(&empty);
                proof {
                    assert(views(v.allowed_voters@).len() == v.allowed_voters@.len());
                    assert(views(v.pending_voters@).len() == v.pending_voters@.len());
                    assert(views(v.has_voted_voters@).len() == v.has_voted_voters@.len());
                }
                return Ok(v);
            },
        };
        proof {
            assert(self.voter_listings()[i as int] == self.voters@[i as int].listing());
        }
        Ok(query_voters(&self.voters[i]))
    }

    /// Every proposal with its title, in order of identifier.
    pub fn query_all_proposal_ids_with_titles(&self) -> (r: ProposalIdsWithTitlesResponse)
        ensures
            r.proposals@.map_values(|e: (u64, String)| (e.0, e.1@)) == ids_with_titles(
                self.proposals(),
            ),
    {
        query_all_proposal_ids_with_titles(&self.proposals)
    }

    /// The proposals made by `proposer`, in order of identifier.
    pub fn query_proposals_by_proposer(&self, proposer: &String) -> (r: ProposalsByProposerResponse)
        ensures
            r.proposals@.map_values(|i: crate::msg::ProposalsInfoByProposer| info_view(i))
                == by_proposer(self.proposals(), proposer@),
    {
        query_proposals_by_proposer(&self.proposals, proposer)
    }

    /// The configuration, each commission as "amount denom".
    pub fn query_status(&self) -> (r: StatusResponse)
        ensures
            r.admin == self.state().admin,
            views(r.commissions@) == self.state().commissions@.map_values(
                |c: Coin| commission_text(c),
            ),
            r.voting_fee == self.state().voting_fee,
    {
        query_status(&self.state)
    }
}

/// A tally of zeros sums to zero.
proof fn lemma_sum_zero(s: Seq<u64>)
    requires
        forall|i: int| 0 <= i < s.len() ==> s[i] == 0,
    ensures
        sum(s) == 0,
    decreases s.len(),
{
    if s.len() > 0 {
        lemma_sum_zero(s.drop_last());
    }
}

} // verus!
