//! The replies to queries.
use vstd::prelude::*;
use vstd::string::*;
use crate::msg::{
    ProposalIdsWithTitlesResponse, ProposalResponse, ProposalResult, ProposalsByProposerResponse,
    ProposalsInfoByProposer, StatusResponse, VotersResponse,
};
use crate::state::{BlockInfo, Coin, Proposal, State, VoterStatus, Votes};
use crate::text::{decimal, u128_to_text, views};
use crate::voters::{addresses_with, VoterTable};

verus! {

/// A copy of a list of strings.
pub fn copy_strings(v: &Vec<String>) -> (r: Vec<String>)
    ensures
        r@ == v@,
{
    let n = v.len();
    let mut r: Vec<String> = Vec::new();
    let mut i: usize = 0;
    while i < n
        invariant
            n == v.len(),
            i <= n,
            r@ =~= v@.take(i as int),
        decreases n - i,
    {
        r.push(v[i].clone());
        i = i + 1;
    }
    r
}

/// A copy of a list of counts.
pub fn copy_counts(v: &Vec<u64>) -> (r: Vec<u64>)
    ensures
        r@ == v@,
{
    let n = v.len();
    let mut r: Vec<u64> = Vec::new();
    let mut i: usize = 0;
    while i < n
        invariant
            n == v.len(),
            i <= n,
            r@ =~= v@.take(i as int),
        decreases n - i,
    {
        r.push(v[i]);
        i = i + 1;
    }
    r
}

/// A copy of an optional string.
fn copy_text_option(v: &Option<String>) -> (r: Option<String>)
    ensures
        r == *v,
{
    match v {
        Some(s) => Some(s.clone()),
        None => None,
    }
}

/// The identifiers and titles of stored proposals, in the order given.
pub open spec fn ids_with_titles(proposals: Seq<(u64, Proposal)>) -> Seq<(u64, Seq<char>)> {
    proposals.map_values(|e: (u64, Proposal)| (e.0, e.1.title@))
}

/// Every stored proposal (as the host lists them, by identifier) with its title.
pub fn query_all_proposal_ids_with_titles(proposals: &Vec<(u64, Proposal)>) -> (r:
    ProposalIdsWithTitlesResponse)
    ensures
        r.proposals@.map_values(|e: (u64, String)| (e.0, e.1@)) == ids_with_titles(proposals@),
{
    let n = proposals.len();
    let mut out: Vec<(u64, String)> = Vec::new();
    let mut i: usize = 0;
    while i < n
        invariant
            n == proposals.len(),
            i <= n,
            out@.len() == i,
            forall|j: int|
                0 <= j < i ==> (#[trigger] out@[j]).0 == proposals@[j].0 && out@[j].1@
                    == proposals@[j].1.title@,
        decreases n - i,
    {
        let (id, p) = &proposals[i];
        out.push((*id, p.title.clone()));
        i = i + 1;
    }
    assert(out@.map_values(|e: (u64, String)| (e.0, e.1@)) =~= ids_with_titles(proposals@));
    ProposalIdsWithTitlesResponse { proposals: out }
}

/// The summary of a proposal of one proposer.
pub open spec fn proposer_info(e: (u64, Proposal)) -> (u64, Seq<char>, crate::state::ProposalStatus, Option<String>) {
    (e.0, e.1.title@, e.1.status, e.1.winner)
}

/// The stored proposals made by `proposer`, summarised, in the order given.
pub open spec fn by_proposer(proposals: Seq<(u64, Proposal)>, proposer: Seq<char>) -> Seq<
    (u64, Seq<char>, crate::state::ProposalStatus, Option<String>),
>
    decreases proposals.len(),
{
    if proposals.len() == 0 {
        Seq::empty()
    } else {
        by_proposer(proposals.drop_last(), proposer) + (if proposals.last().1.proposer@ == proposer {
            seq![proposer_info(proposals.last())]
        } else {
            Seq::empty()
        })
    }
}

/// The summary of an entry of the reply.
pub open spec fn info_view(i: ProposalsInfoByProposer) -> (u64, Seq<char>, crate::state::ProposalStatus, Option<String>) {
    (i.id, i.title@, i.status, i.winner)
}

/// The stored proposals (as the host lists them, by identifier) made by `proposer`.
pub fn query_proposals_by_proposer(proposals: &Vec<(u64, Proposal)>, proposer: &String) -> (r:
    ProposalsByProposerResponse)
    ensures
        r.proposals@.map_values(|i: ProposalsInfoByProposer| info_view(i)) == by_proposer(
            proposals@,
            proposer@,
        ),
{
    let n = proposals.len();
    let mut out: Vec<ProposalsInfoByProposer> = Vec::new();
    let mut i: usize = 0;
    while i < n
        invariant
            n == proposals.len(),
            i <= n,
            out@.map_values(|i: ProposalsInfoByProposer| info_view(i)) =~= by_proposer(
                proposals@.take(i as int),
                proposer@,
            ),
        decreases n - i,
    {
        proof {
            assert(proposals@.take(i + 1).drop_last() =~= proposals@.take(i as int));
        }
        let (id, p) = &proposals[i];
        if p.proposer == *proposer {
            out.push(
                ProposalsInfoByProposer {
                    id: *id,
                    title: p.title.clone(),
                    status: p.status,
                    winner: copy_text_option(&p.winner),
                },
            );
        }
        i = i + 1;
    }
    assert(proposals@.take(n as int) =~= proposals@);
    ProposalsByProposerResponse { proposals: out }
}

/// Proposal `id` as it stands in `block`.
pub fn query_proposal(id: u64, prop: &Proposal, block: &BlockInfo) -> (r: ProposalResponse)
    ensures
        r.id == id,
        r.title == prop.title,
        r.description == prop.description,
        r.status == prop.status_in(*block),
        r.expires == prop.expires,
        r.proposer == prop.proposer,
        r.options@ == prop.option@,
{
    let status = prop.current_status(block);
    ProposalResponse {
        id,
        title: prop.title.clone(),
        description: prop.description.clone(),
        status,
        expires: prop.expires,
        proposer: prop.proposer.clone(),
        options: copy_strings(&prop.option),
    }
}

/// The outcome of a proposal: its title, description and winner.
pub fn query_proposal_result(prop: &Proposal) -> (r: ProposalResult)
    ensures
        r.title == prop.title,
        r.description == prop.description,
        r.winner == prop.winner,
{
    ProposalResult {
        title: prop.title.clone(),
        description: prop.description.clone(),
        winner: copy_text_option(&prop.winner),
    }
}

/// The vote counts of a proposal.
pub fn query_proposal_running_response(prop: &Proposal) -> (r: Votes)
    ensures
        r.counts@ == prop.votes.counts@,
{
    Votes { counts: copy_counts(&prop.votes.counts) }
}

/// The voters of a proposal by standing, each list in ascending order.
pub fn query_voters(voters: &VoterTable) -> (r: VotersResponse)
    ensures
        views(r.allowed_voters@) == addresses_with(voters.listing(), VoterStatus::CanVote),
        views(r.pending_voters@) == addresses_with(voters.listing(), VoterStatus::NotAllowed),
        views(r.has_voted_voters@) == addresses_with(voters.listing(), VoterStatus::HasVoted),
{
    VotersResponse {
        allowed_voters: voters.addresses_with(VoterStatus::CanVote),
        pending_voters: voters.addresses_with(VoterStatus::NotAllowed),
        has_voted_voters: voters.addresses_with(VoterStatus::HasVoted),
    }
}

/// A commission as reported: the amount, a space and the token.
pub open spec fn commission_text(c: Coin) -> Seq<char> {
    decimal(c.amount as nat) + " "@ + c.denom@
}

/// The contract's configuration, each commission as "amount denom".
pub fn query_status(state: &State) -> (r: StatusResponse)
    ensures
        r.admin == state.admin,
        views(r.commissions@) == state.commissions@.map_values(|c: Coin| commission_text(c)),
        r.voting_fee == state.voting_fee,
{
    let n = state.commissions.len();
    let mut out: Vec<String> = Vec::new();
    let mut i: usize = 0;
    while i < n
        invariant
            n == state.commissions.len(),
            i <= n,
            out@.len() == i,
            forall|j: int|
                0 <= j < i ==> (#[trigger] out@[j])@ == commission_text(state.commissions@[j]),
        decreases n - i,
    {
        let c = &state.commissions[i];
        let mut s = u128_to_text(c.amount);
        s.append(" ");
        s.append(c.denom.as_str());
        out.push(s);
        i = i + 1;
    }
    assert(views(out@) =~= state.commissions@.map_values(|c: Coin| commission_text(c)));
    StatusResponse { admin: state.admin.clone(), commissions: out, voting_fee: state.voting_fee }
}

} // verus!
