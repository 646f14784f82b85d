//! Properties that span the contract's operations.
use vstd::prelude::*;
use crate::error::ContractError;
use crate::exec::{
    apply_admissions, apply_removals, close_outcome, counts_after_vote, leaders, max_count, positions_of,
    vote_refusal, voters_after_update, CheckedAddr, VoterMap,
};
use crate::state::{lemma_sum_update, sum, BlockInfo, Proposal, ProposalStatus, VoterStatus, Votes};
use crate::text::views;
use crate::voters::{addresses_with, Listing};
use crate::query::by_proposer;
use crate::exec::options_at;
use crate::text::joined;
use crate::exec::{commission_match, first_denom_from, proposal_refusal, propose_response};
use crate::msg::Response;
use crate::state::{Coin, State};

verus! {

/// Once a vote has been counted, the same sender's next vote on the proposal
/// is refused as a second vote, whatever option it names.
pub proof fn law_vote_once(
    p: Proposal,
    m: VoterMap,
    block: BlockInfo,
    sender: Seq<char>,
    vote: usize,
    counts: Votes,
    next_vote: usize,
)
    requires
        vote_refusal(p, m, block, sender, vote) is None,
    ensures
        vote_refusal(
            Proposal { votes: counts, ..p },
            m.insert(sender, VoterStatus::HasVoted),
            block,
            sender,
            next_vote,
        ) == Some(ContractError::AlreadyVoted {}),
{
}

/// A counted vote adds exactly one to the total, on the option voted for.
pub proof fn law_vote_adds_one(counts: Seq<u64>, vote: usize)
    requires
        vote < counts.len(),
        counts[vote as int] < u64::MAX,
    ensures
        sum(counts_after_vote(counts, vote)) == sum(counts) + 1,
        counts_after_vote(counts, vote)[vote as int] == counts[vote as int] + 1,
        forall|i: int|
            0 <= i < counts.len() && i != vote ==> counts_after_vote(counts, vote)[i] == counts[i],
{
    lemma_sum_update(counts, vote as int, (counts[vote as int] + 1) as u64);
}

/// Nobody but the proposer admits or removes voters: an accepted request
/// from anyone else at most adds the asking address as not yet allowed.
pub proof fn law_only_proposer_admits(
    proposer: Seq<char>,
    m: VoterMap,
    sender: Seq<char>,
    add: Seq<CheckedAddr>,
    ask: Seq<char>,
    ask_check: CheckedAddr,
    rmv: Seq<CheckedAddr>,
)
    requires
        sender != proposer,
    ensures
        rmv.len() > 0 ==> voters_after_update(proposer, m, sender, add, ask, ask_check, rmv)
            == Err::<VoterMap, ContractError>(ContractError::Unauthorized {}),
        add.len() > 0 ==> voters_after_update(proposer, m, sender, add, ask, ask_check, rmv) is Err,
        voters_after_update(proposer, m, sender, add, ask, ask_check, rmv) matches Ok(m2) ==> (m2
            == m || (ask_check matches Ok(a) && !m.dom().contains(a@) && m2 == m.insert(
            a@,
            VoterStatus::NotAllowed,
        ))),
{
}

/// No count is above the highest, and where there are counts one of them is
/// the highest.
pub proof fn law_max_count(s: Seq<u64>)
    ensures
        forall|j: int| 0 <= j < s.len() ==> s[j] <= max_count(s),
        s.len() > 0 ==> exists|j: int| 0 <= j < s.len() && s[j] == max_count(s),
    decreases s.len(),
{
    if s.len() > 0 {
        let d = s.drop_last();
        law_max_count(d);
        assert forall|j: int| 0 <= j < s.len() implies s[j] <= max_count(s) by {
            if j < s.len() - 1 {
                assert(s[j] == d[j]);
            }
        }
        if s.last() > max_count(d) || s.len() == 1 {
            assert(s[s.len() - 1] == max_count(s));
        } else {
            let j = choose|j: int| 0 <= j < d.len() && d[j] == max_count(d);
            assert(s[j] == max_count(s));
        }
    }
}

proof fn lemma_positions_of(s: Seq<u64>, v: u64, n: int)
    requires
        0 <= n <= s.len(),
    ensures
        forall|k: int| 0 <= k < positions_of(s, v, n).len() ==> {
            let i = #[trigger] positions_of(s, v, n)[k];
            0 <= i < n && s[i] == v
        },
        forall|i: int| 0 <= i < n && s[i] == v ==> positions_of(s, v, n).contains(i),
        forall|a: int, b: int|
            0 <= a < b < positions_of(s, v, n).len() ==> positions_of(s, v, n)[a]
                < positions_of(s, v, n)[b],
    decreases n,
{
    if n > 0 {
        lemma_positions_of(s, v, n - 1);
        let prev = positions_of(s, v, n - 1);
        if s[n - 1] == v {
            assert(positions_of(s, v, n) == prev + seq![n - 1]);
            assert forall|i: int| 0 <= i < n && s[i] == v implies positions_of(s, v, n).contains(i) by {
                if i < n - 1 {
                    let k = choose|k: int| 0 <= k < prev.len() && prev[k] == i;
                    assert(positions_of(s, v, n)[k] == i);
                } else {
                    assert(positions_of(s, v, n)[prev.len() as int] == i);
                }
            }
        } else {
            assert(positions_of(s, v, n) =~= prev);
        }
    }
}

/// The leading options are exactly the options with the highest count, in
/// ascending order, where that count is above zero; with no votes at all
/// nobody leads.
pub proof fn law_leaders(s: Seq<u64>)
    ensures
        forall|k: int| 0 <= k < leaders(s).len() ==> {
            let i = #[trigger] leaders(s)[k];
            0 <= i < s.len() && s[i] == max_count(s) && s[i] > 0 && forall|j: int|
                0 <= j < s.len() ==> s[j] <= s[i]
        },
        forall|i: int| 0 <= i < s.len() && s[i] == max_count(s) && s[i] > 0 ==> leaders(s).contains(i),
        forall|a: int, b: int| 0 <= a < b < leaders(s).len() ==> leaders(s)[a] < leaders(s)[b],
        sum(s) == 0 ==> leaders(s).len() == 0,
{
    law_max_count(s);
    lemma_positions_of(s, max_count(s), s.len() as int);
    if sum(s) == 0 && s.len() > 0 {
        let j = choose|j: int| 0 <= j < s.len() && s[j] == max_count(s);
        lemma_sum_update(s, j, s[j]);
        assert(s.update(j, s[j]) =~= s);
        lemma_zero_sum(s, j);
    }
}

proof fn lemma_zero_sum(s: Seq<u64>, j: int)
    requires
        sum(s) == 0,
        0 <= j < s.len(),
    ensures
        s[j] == 0,
{
    lemma_sum_update(s, j, s[j]);
}

/// Once a proposal is closed in a block, it stays closed in every later
/// block (no lower height, no earlier time).
pub proof fn law_expiry_is_final(p: Proposal, b1: BlockInfo, b2: BlockInfo)
    requires
        p.status_in(b1) == ProposalStatus::Closed,
        b2.height >= b1.height,
        b2.time >= b1.time,
    ensures
        p.status_in(b2) == ProposalStatus::Closed,
{
}

/// A closed proposal stays closed in every block and takes no more votes,
/// whoever sends them.
pub proof fn law_closed_is_final(
    p: Proposal,
    m: VoterMap,
    block: BlockInfo,
    sender: Seq<char>,
    vote: usize,
)
    requires
        p.status == ProposalStatus::Closed,
    ensures
        p.status_in(block) == ProposalStatus::Closed,
        vote_refusal(p, m, block, sender, vote) == Some(ContractError::Expired {}),
{
}

/// Whether some checked address in `s` is `k`.
pub open spec fn mentions(s: Seq<CheckedAddr>, k: Seq<char>) -> bool
    decreases s.len(),
{
    s.len() > 0 && (mentions(s.drop_last(), k) || (s.last() matches Ok(a) && a@ == k))
}

/// Whether every address in `s` passed its check.
pub open spec fn all_ok(s: Seq<CheckedAddr>) -> bool
    decreases s.len(),
{
    s.len() == 0 || (all_ok(s.drop_last()) && s.last() is Ok)
}

/// What accepted removals leave: the voters not named, unchanged; none of
/// the named ones had voted.
proof fn lemma_removals_pointwise(m: VoterMap, rmv: Seq<CheckedAddr>)
    ensures
        apply_removals(m, rmv) matches Ok(m2) ==> {
            &&& all_ok(rmv)
            &&& forall|k: Seq<char>| #[trigger] m2.dom().contains(k) == (m.dom().contains(k) && !mentions(rmv, k))
            &&& forall|k: Seq<char>| #[trigger] m2.dom().contains(k) ==> m2[k] == m[k]
            &&& forall|k: Seq<char>|
                #[trigger] mentions(rmv, k) && m.dom().contains(k) ==> m[k] != VoterStatus::HasVoted
        },
    decreases rmv.len(),
{
    if rmv.len() > 0 {
        let d = rmv.drop_last();
        lemma_removals_pointwise(m, d);
        if let Ok(m2) = apply_removals(m, rmv) {
            let m1 = apply_removals(m, d)->Ok_0;
            let a = rmv.last()->Ok_0;
            assert(m2 == m1.remove(a@));
            assert forall|k: Seq<char>| #[trigger] m2.dom().contains(k) == (m.dom().contains(k)
                && !mentions(rmv, k)) by {
                assert(mentions(rmv, k) == (mentions(d, k) || k == a@));
                assert(m1.dom().contains(k) == (m.dom().contains(k) && !mentions(d, k)));
            }
            assert forall|k: Seq<char>| #[trigger] m2.dom().contains(k) implies m2[k] == m[k] by {
                assert(m1.dom().contains(k));
            }
            assert forall|k: Seq<char>|
                #[trigger] mentions(rmv, k) && m.dom().contains(k) implies m[k]
                    != VoterStatus::HasVoted by {
                assert(mentions(rmv, k) == (mentions(d, k) || k == a@));
                if !mentions(d, k) {
                    assert(m1.dom().contains(k));
                }
            }
        }
    }
}

/// Removals succeed where every address passed its check and none of the
/// named voters has voted.
proof fn lemma_removals_succeed(m: VoterMap, rmv: Seq<CheckedAddr>)
    requires
        all_ok(rmv),
        forall|k: Seq<char>|
            #[trigger] mentions(rmv, k) && m.dom().contains(k) ==> m[k] != VoterStatus::HasVoted,
    ensures
        apply_removals(m, rmv) is Ok,
    decreases rmv.len(),
{
    if rmv.len() > 0 {
        let d = rmv.drop_last();
        assert forall|k: Seq<char>|
            #[trigger] mentions(d, k) && m.dom().contains(k) implies m[k] != VoterStatus::HasVoted by {
            assert(mentions(rmv, k));
        }
        lemma_removals_succeed(m, d);
        lemma_removals_pointwise(m, d);
        let a = rmv.last()->Ok_0;
        assert(mentions(rmv, a@));
    }
}

/// What accepted admissions leave: a named address keeps a standing of
/// voting or having voted and may vote otherwise; the rest is unchanged.
proof fn lemma_admissions_pointwise(m: VoterMap, add: Seq<CheckedAddr>)
    ensures
        apply_admissions(m, add) matches Ok(m2) ==> {
            &&& all_ok(add)
            &&& forall|k: Seq<char>| #[trigger] mentions(add, k) ==> m2.dom().contains(k) && m2[k] == (
                if m.dom().contains(k) && m[k] != VoterStatus::NotAllowed {
                    m[k]
                } else {
                    VoterStatus::CanVote
                })
            &&& forall|k: Seq<char>|
                !mentions(add, k) ==> #[trigger] m2.dom().contains(k) == m.dom().contains(k)
            &&& forall|k: Seq<char>| !mentions(add, k) && #[trigger] m2.dom().contains(k) ==> m2[k] == m[k]
        },
        all_ok(add) ==> apply_admissions(m, add) is Ok,
    decreases add.len(),
{
    if add.len() > 0 {
        let d = add.drop_last();
        lemma_admissions_pointwise(m, d);
        if let Ok(m2) = apply_admissions(m, add) {
            let m1 = apply_admissions(m, d)->Ok_0;
            let a = add.last()->Ok_0;
            assert forall|k: Seq<char>| #[trigger] mentions(add, k) implies m2.dom().contains(k)
                && m2[k] == (if m.dom().contains(k) && m[k] != VoterStatus::NotAllowed {
                m[k]
            } else {
                VoterStatus::CanVote
            }) by {
                assert(mentions(add, k) == (mentions(d, k) || k == a@));
                if !mentions(d, k) {
                    assert(m1.dom().contains(k) == m.dom().contains(k));
                }
            }
            assert forall|k: Seq<char>| !mentions(add, k) implies #[trigger] m2.dom().contains(k)
                == m.dom().contains(k) && (m2.dom().contains(k) ==> m2[k] == m[k]) by {
                assert(mentions(add, k) == (mentions(d, k) || k == a@));
                assert(m1.dom().contains(k) == m.dom().contains(k));
            }
        }
    }
}

/// Sending the same accepted request on the voters a second time changes
/// nothing more: it is accepted again and leaves the voters as the first
/// left them.
pub proof fn law_voter_request_idempotent(
    proposer: Seq<char>,
    m: VoterMap,
    sender: Seq<char>,
    add: Seq<CheckedAddr>,
    ask: Seq<char>,
    ask_check: CheckedAddr,
    rmv: Seq<CheckedAddr>,
)
    requires
        voters_after_update(proposer, m, sender, add, ask, ask_check, rmv) is Ok,
    ensures
        voters_after_update(
            proposer,
            voters_after_update(proposer, m, sender, add, ask, ask_check, rmv)->Ok_0,
            sender,
            add,
            ask,
            ask_check,
            rmv,
        ) == voters_after_update(proposer, m, sender, add, ask, ask_check, rmv),
{
    let m1 = voters_after_update(proposer, m, sender, add, ask, ask_check, rmv)->Ok_0;
    // The first request, stage by stage.
    let mr = if rmv.len() == 0 { m } else { apply_removals(m, rmv)->Ok_0 };
    lemma_removals_pointwise(m, rmv);
    let mk = if ask.len() == 0 {
        mr
    } else {
        let a = ask_check->Ok_0;
        if mr.dom().contains(a@) { mr } else { mr.insert(a@, VoterStatus::NotAllowed) }
    };
    lemma_admissions_pointwise(mk, add);
    assert(m1 == (if add.len() == 0 { mk } else { apply_admissions(mk, add)->Ok_0 }));
    // The second request, stage by stage.
    if rmv.len() > 0 {
        assert forall|k: Seq<char>|
            #[trigger] mentions(rmv, k) && m1.dom().contains(k) implies m1[k]
                != VoterStatus::HasVoted by {
            assert(!mr.dom().contains(k));
            if add.len() > 0 && mentions(add, k) {
            } else if add.len() > 0 {
                assert(mk.dom().contains(k));
            }
        }
        lemma_removals_succeed(m1, rmv);
    }
    let nr = if rmv.len() == 0 { m1 } else { apply_removals(m1, rmv)->Ok_0 };
    lemma_removals_pointwise(m1, rmv);
    let nk = if ask.len() == 0 {
        nr
    } else {
        let a = ask_check->Ok_0;
        if nr.dom().contains(a@) { nr } else { nr.insert(a@, VoterStatus::NotAllowed) }
    };
    lemma_admissions_pointwise(nk, add);
    let n1 = if add.len() == 0 { nk } else { apply_admissions(nk, add)->Ok_0 };
    assert forall|k: Seq<char>| #[trigger] n1.dom().contains(k) == m1.dom().contains(k) && (
        n1.dom().contains(k) ==> n1[k] == m1[k]) by {
        let in_r = mentions(rmv, k);
        let in_a = mentions(add, k);
        let is_ask = ask.len() > 0 && ask_check->Ok_0@ == k;
        assert(mr.dom().contains(k) == (m.dom().contains(k) && !in_r));
        assert(nr.dom().contains(k) == (m1.dom().contains(k) && !in_r));
        if mr.dom().contains(k) {
            assert(mr[k] == m[k]);
        }
        if nr.dom().contains(k) {
            assert(nr[k] == m1[k]);
        }
        if is_ask {
            assert(mk.dom().contains(k));
            assert(nk.dom().contains(k));
        } else {
            assert(mk.dom().contains(k) == mr.dom().contains(k));
            assert(nk.dom().contains(k) == nr.dom().contains(k));
        }
        if in_a {
            assert(m1.dom().contains(k) && m1[k] != VoterStatus::NotAllowed);
            assert(n1.dom().contains(k));
        } else {
            assert(m1.dom().contains(k) == mk.dom().contains(k));
            assert(n1.dom().contains(k) == nk.dom().contains(k));
        }
    }
    assert(n1 =~= m1);
}

/// Closing a proposal a second time, in the same block, by its proposer and
/// with the same quorum, meets the same conditions and comes to the same
/// outcome: the same winner is recorded and reported, and the proposal stays
/// as the first close left it.
pub proof fn law_close_again(
    p: Proposal,
    w: String,
    block: BlockInfo,
    sender: Seq<char>,
    quorum: u64,
)
    requires
        p.proposer@ == sender,
        p.expires.reached_in(block),
        close_outcome(views(p.option@), p.votes.counts@, quorum) matches Ok((recorded, _))
            && w@ == recorded,
    ensures
        ({
            let q = Proposal { status: ProposalStatus::Closed, winner: Some(w), ..p };
            &&& q.proposer@ == sender
            &&& q.expires.reached_in(block)
            &&& close_outcome(views(q.option@), q.votes.counts@, quorum) == close_outcome(
                views(p.option@),
                p.votes.counts@,
                quorum,
            )
            &&& (Proposal { status: ProposalStatus::Closed, winner: Some(w), ..q }) == q
        }),
{
}

/// The reply to the query by proposer holds exactly the stored proposals made
/// by that proposer, in the order stored, each with its own identifier,
/// title, status and recorded winner.
pub proof fn law_by_proposer(proposals: Seq<(u64, Proposal)>, proposer: Seq<char>)
    ensures
        by_proposer(proposals, proposer) == proposals.filter(
            |e: (u64, Proposal)| e.1.proposer@ == proposer,
        ).map_values(|e: (u64, Proposal)| (e.0, e.1.title@, e.1.status, e.1.winner)),
    decreases proposals.len(),
{
    if proposals.len() > 0 {
        law_by_proposer(proposals.drop_last(), proposer);
        let pred = |e: (u64, Proposal)| e.1.proposer@ == proposer;
        let f = |e: (u64, Proposal)| (e.0, e.1.title@, e.1.status, e.1.winner);
        let sub = proposals.drop_last().filter(pred);
        reveal(Seq::<(u64, Proposal)>::filter);
        assert(proposals.filter(pred) == (if pred(proposals.last()) {
            sub.push(proposals.last())
        } else {
            sub
        }));
        if pred(proposals.last()) {
            assert(sub.push(proposals.last()).map_values(f) =~= sub.map_values(f) + seq![
                f(proposals.last()),
            ]);
        }
        assert(by_proposer(proposals, proposer) =~= proposals.filter(pred).map_values(f));
    }
}

/// On an open proposal, a vote is decided by the sender's standing alone,
/// whoever the sender is (the proposer too): an admitted voter who names an
/// existing option has the vote counted; one who has voted is refused as a
/// second vote; anyone else is refused as unauthorized.
pub proof fn law_vote_by_standing(
    p: Proposal,
    m: VoterMap,
    block: BlockInfo,
    sender: Seq<char>,
    vote: usize,
)
    requires
        p.status_in(block) == ProposalStatus::Open,
    ensures
        m.dom().contains(sender) && m[sender] == VoterStatus::CanVote && vote < p.option@.len()
            ==> vote_refusal(p, m, block, sender, vote) is None,
        m.dom().contains(sender) && m[sender] == VoterStatus::CanVote && vote >= p.option@.len()
            ==> vote_refusal(p, m, block, sender, vote) == Some(ContractError::InvalidOption {}),
        m.dom().contains(sender) && m[sender] == VoterStatus::HasVoted ==> vote_refusal(
            p,
            m,
            block,
            sender,
            vote,
        ) == Some(ContractError::AlreadyVoted {}),
        !m.dom().contains(sender) || m[sender] == VoterStatus::NotAllowed ==> vote_refusal(
            p,
            m,
            block,
            sender,
            vote,
        ) == Some(ContractError::Unauthorized {}),
{
}

/// Asking to join never changes the standing of an address already among
/// the voters, whoever sends the request: a request with nothing to add or
/// remove adds the asking address as not yet allowed where it is new and
/// leaves the voters as they are otherwise.
pub proof fn law_ask_only_adds(
    proposer: Seq<char>,
    m: VoterMap,
    sender: Seq<char>,
    ask: Seq<char>,
    a: String,
)
    requires
        ask.len() > 0,
    ensures
        voters_after_update(proposer, m, sender, Seq::empty(), ask, Ok(a), Seq::empty()) == Ok::<
            VoterMap,
            ContractError,
        >(
            if m.dom().contains(a@) {
                m
            } else {
                m.insert(a@, VoterStatus::NotAllowed)
            },
        ),
{
}

/// In any accepted request, the asking address, where the request neither
/// removes nor admits it, keeps the standing it had, or is added as not yet
/// allowed where it was not a voter.
pub proof fn law_ask_keeps_standing(
    proposer: Seq<char>,
    m: VoterMap,
    sender: Seq<char>,
    add: Seq<CheckedAddr>,
    ask: Seq<char>,
    a: String,
    rmv: Seq<CheckedAddr>,
)
    requires
        ask.len() > 0,
        !mentions(rmv, a@),
        !mentions(add, a@),
    ensures
        voters_after_update(proposer, m, sender, add, ask, Ok(a), rmv) matches Ok(m2) ==> {
            &&& m2.dom().contains(a@)
            &&& m2[a@] == (if m.dom().contains(a@) {
                m[a@]
            } else {
                VoterStatus::NotAllowed
            })
        },
{
    lemma_removals_pointwise(m, rmv);
    let mr = if rmv.len() == 0 { m } else { apply_removals(m, rmv)->Ok_0 };
    let mk = if mr.dom().contains(a@) { mr } else { mr.insert(a@, VoterStatus::NotAllowed) };
    lemma_admissions_pointwise(mk, add);
    if voters_after_update(proposer, m, sender, add, ask, Ok(a), rmv) is Ok {
        assert(mr.dom().contains(a@) == m.dom().contains(a@));
        if mr.dom().contains(a@) {
            assert(mr[a@] == m[a@]);
        }
        assert(mk.dom().contains(a@));
        let m2 = voters_after_update(proposer, m, sender, add, ask, Ok(a), rmv)->Ok_0;
        assert(m2 == (if add.len() == 0 { mk } else { apply_admissions(mk, add)->Ok_0 }));
        assert(m2.dom().contains(a@) == mk.dom().contains(a@));
        assert(m2[a@] == mk[a@]);
    }
}

/// The first commission from position `j` on in the token `d` is found.
proof fn lemma_first_denom(cs: Seq<Coin>, d: Seq<char>, j: int)
    requires
        0 <= j <= cs.len(),
    ensures
        j <= first_denom_from(cs, d, j) <= cs.len(),
        first_denom_from(cs, d, j) < cs.len() ==> cs[first_denom_from(cs, d, j)].denom@ == d,
        forall|q: int| j <= q < first_denom_from(cs, d, j) ==> cs[q].denom@ != d,
    decreases cs.len() - j,
{
    if j < cs.len() && cs[j].denom@ != d {
        lemma_first_denom(cs, d, j + 1);
    }
}

/// Where no fund is in a token with a commission, nothing matches.
proof fn lemma_no_match(funds: Seq<Coin>, cs: Seq<Coin>)
    requires
        forall|k: int, q: int|
            0 <= k < funds.len() && 0 <= q < cs.len() ==> cs[q].denom@ != funds[k].denom@,
    ensures
        commission_match(funds, cs) is None,
    decreases funds.len(),
{
    if funds.len() > 0 {
        lemma_first_denom(cs, funds.last().denom@, 0);
        lemma_no_match(funds.drop_last(), cs);
    }
}

/// The matching commission is the first one in the token of the last fund
/// that has a commission.
proof fn lemma_match(funds: Seq<Coin>, cs: Seq<Coin>, j: int, p: int)
    requires
        0 <= j < funds.len(),
        0 <= p < cs.len(),
        cs[p].denom@ == funds[j].denom@,
        forall|q: int| 0 <= q < p ==> cs[q].denom@ != funds[j].denom@,
        forall|k: int, q: int|
            j < k < funds.len() && 0 <= q < cs.len() ==> cs[q].denom@ != funds[k].denom@,
    ensures
        commission_match(funds, cs) == Some((p, funds[j].amount)),
    decreases funds.len(),
{
    lemma_first_denom(cs, funds.last().denom@, 0);
    if j < funds.len() - 1 {
        let d = funds.drop_last();
        assert(d[j] == funds[j]);
        assert forall|k: int, q: int| j < k < d.len() && 0 <= q < cs.len() implies cs[q].denom@
            != d[k].denom@ by {
            assert(d[k] == funds[k]);
        }
        lemma_match(d, cs, j, p);
    }
}

/// A proposal with options and funds is decided by the last fund in a token
/// that has a commission, against the first commission set for that same
/// token: refused for insufficient funds exactly when less than it was sent,
/// accepted otherwise, whatever the other tokens' commissions are; an
/// accepted one pays exactly that commission to the admin where it is not
/// zero. With no fund in such a token the token is unsupported.
pub proof fn law_commission_of_the_token_paid(
    state: State,
    funds: Seq<Coin>,
    option_count: nat,
    j: int,
    p: int,
)
    requires
        option_count > 0,
        0 <= j < funds.len(),
        0 <= p < state.commissions@.len(),
        state.commissions@[p].denom@ == funds[j].denom@,
        forall|q: int| 0 <= q < p ==> state.commissions@[q].denom@ != funds[j].denom@,
        forall|k: int, q: int|
            j < k < funds.len() && 0 <= q < state.commissions@.len() ==> state.commissions@[q].denom@
                != funds[k].denom@,
    ensures
        proposal_refusal(state.commissions@, funds, option_count) == (if funds[j].amount
            < state.commissions@[p].amount {
            Some(
                ContractError::InsufficientFunds {
                    funds: funds[j].amount,
                    commission: state.commissions@[p].amount,
                },
            )
        } else {
            None
        }),
        forall|resp: Response, sender: Seq<char>, id: u64, st: ProposalStatus|
            #[trigger] propose_response(resp, state, funds, sender, id, st) ==> {
                &&& state.commissions@[p].amount != 0 ==> resp.messages@.len() == 1
                    && resp.messages@[0].to_address@ == state.admin@ && resp.messages@[0].amount@
                    == seq![state.commissions@[p]]
                &&& state.commissions@[p].amount == 0 ==> resp.messages@.len() == 0
            },
{
    lemma_match(funds, state.commissions@, j, p);
}

/// A proposal with options whose funds hold no token with a commission is
/// refused as paid in an unsupported token.
pub proof fn law_unsupported_token(commissions: Seq<Coin>, funds: Seq<Coin>, option_count: nat)
    requires
        option_count > 0,
        funds.len() > 0,
        forall|k: int, q: int|
            0 <= k < funds.len() && 0 <= q < commissions.len() ==> commissions[q].denom@
                != funds[k].denom@,
    ensures
        proposal_refusal(commissions, funds, option_count) == Some(ContractError::UnsupportedToken {}),
{
    lemma_no_match(funds, commissions);
}

/// The positions among the first `n` holding `v` are those positions, in
/// ascending order.
proof fn lemma_positions_filter(s: Seq<u64>, v: u64, n: int)
    requires
        0 <= n <= s.len(),
    ensures
        positions_of(s, v, n) == Seq::new(n as nat, |i: int| i).filter(|i: int| s[i] == v),
    decreases n,
{
    reveal(Seq::<int>::filter);
    if n > 0 {
        lemma_positions_filter(s, v, n - 1);
        let all = Seq::new(n as nat, |i: int| i);
        assert(all.drop_last() =~= Seq::new((n - 1) as nat, |i: int| i));
        let sub = all.drop_last().filter(|i: int| s[i] == v);
        if s[n - 1] == v {
            assert(positions_of(s, v, n) =~= sub.push(n - 1));
        } else {
            assert(positions_of(s, v, n) =~= sub);
        }
    }
}

/// The options at positions that all name an option.
proof fn lemma_options_at(options: Seq<Seq<char>>, idx: Seq<int>)
    requires
        forall|k: int| 0 <= k < idx.len() ==> 0 <= #[trigger] idx[k] < options.len(),
    ensures
        options_at(options, idx) == idx.map_values(|i: int| options[i]),
    decreases idx.len(),
{
    if idx.len() > 0 {
        lemma_options_at(options, idx.drop_last());
        assert(idx.map_values(|i: int| options[i]) =~= idx.drop_last().map_values(
            |i: int| options[i],
        ) + seq![options[idx.last()]]);
    }
}

/// Text joined with a separator: nothing from no items, the item itself from
/// one, and the separator between each item and the next.
pub proof fn law_joined(items: Seq<Seq<char>>, sep: Seq<char>, x: Seq<char>)
    ensures
        joined(Seq::empty(), sep) == Seq::<char>::empty(),
        joined(seq![x], sep) == x,
        items.len() > 0 ==> joined(items.push(x), sep) == joined(items, sep) + sep + x,
{
    assert(seq![x].len() == 1);
    if items.len() > 0 {
        assert(items.push(x).drop_last() =~= items);
    }
}

/// Closing with the quorum reached, where `top` is the highest count and
/// more than none: where two or more options hold it, the recorded winner is
/// "Tie: " followed by exactly the options holding `top`, in the order of
/// their positions, joined by ", " (which is also what is reported); where
/// one option holds it, that option is recorded and reported.
pub proof fn law_close_names_the_leaders(
    options: Seq<Seq<char>>,
    counts: Seq<u64>,
    quorum: u64,
    top: u64,
)
    requires
        counts.len() == options.len(),
        top > 0,
        forall|j: int| 0 <= j < counts.len() ==> counts[j] <= top,
        exists|j: int| 0 <= j < counts.len() && counts[j] == top,
        sum(counts) >= quorum,
    ensures
        ({
            let at_top = Seq::new(counts.len(), |i: int| i).filter(|i: int| counts[i] == top);
            let names = at_top.map_values(|i: int| options[i]);
            &&& at_top.len() >= 2 ==> close_outcome(options, counts, quorum) == Ok::<
                (Seq<char>, Seq<char>),
                ContractError,
            >(("Tie: "@ + joined(names, ", "@), joined(names, ", "@)))
            &&& at_top.len() == 1 ==> close_outcome(options, counts, quorum) == Ok::<
                (Seq<char>, Seq<char>),
                ContractError,
            >((options[at_top[0]], options[at_top[0]]))
        }),
{
    law_max_count(counts);
    let j = choose|j: int| 0 <= j < counts.len() && counts[j] == top;
    let k = choose|k: int| 0 <= k < counts.len() && counts[k] == max_count(counts);
    assert(top == max_count(counts)) by {
        assert(counts[j] <= max_count(counts));
        assert(counts[k] <= top);
    }
    let n = counts.len() as int;
    lemma_positions_filter(counts, top, n);
    lemma_positions_of(counts, top, n);
    let at_top = Seq::new(counts.len(), |i: int| i).filter(|i: int| counts[i] == top);
    assert(leaders(counts) == at_top);
    lemma_options_at(options, at_top);
}

/// The three lists of voters by standing hold every voter once.
pub proof fn law_voters_partition(l: Listing)
    ensures
        addresses_with(l, VoterStatus::CanVote).len() + addresses_with(l, VoterStatus::NotAllowed).len()
            + addresses_with(l, VoterStatus::HasVoted).len() == l.len(),
    decreases l.len(),
{
    if l.len() > 0 {
        law_voters_partition(l.drop_last());
    }
}

} // verus!
