//! The messages that change the contract: opening a proposal, admitting and
//! removing voters, voting and closing.
use vstd::prelude::*;
use vstd::string::*;
use cosmwasm_std::StdError;
use crate::error::ContractError;
use crate::voters::VoterTable;
use crate::msg::{attr, attr_lit, Attribute, BankSend, Response};
use crate::state::{BlockInfo, Coin, Expiration, Proposal, ProposalStatus, State, VoterStatus, Votes};
use crate::text::{decimal, joined, push_joined, u64_to_text, views};
use crate::voters::{count_of, with_status};
use crate::state::{outside_is_expired, sum};

verus! {

/// The name under which a status is reported.
pub open spec fn status_name(s: ProposalStatus) -> Seq<char> {
    match s {
        ProposalStatus::Open => "Open"@,
        ProposalStatus::Closed => "Closed"@,
    }
}

/// The name under which a status is reported.
pub fn status_text(s: ProposalStatus) -> (t: String)
    ensures
        t@ == status_name(s),
{
    match s {
        ProposalStatus::Open => "Open".to_owned(),
        ProposalStatus::Closed => "Closed".to_owned(),
    }
}

/// A copy of a coin.
pub fn copy_coin(c: &Coin) -> (r: Coin)
    ensures
        r == *c,
{
    Coin { denom: c.denom.clone(), amount: c.amount }
}

/// The position of the first commission from position `j` on whose token is
/// `denom`, or `cs.len()` where there is none.
pub open spec fn first_denom_from(cs: Seq<Coin>, denom: Seq<char>, j: int) -> int
    decreases cs.len() - j,
{
    if j < 0 || j >= cs.len() {
        cs.len() as int
    } else if cs[j].denom@ == denom {
        j
    } else {
        first_denom_from(cs, denom, j + 1)
    }
}

/// The commission that pays for a proposal: among the funds sent, the last
/// coin whose token has a commission decides; the result is the position of
/// the first commission in that token and the amount sent of it.
pub open spec fn commission_match(funds: Seq<Coin>, cs: Seq<Coin>) -> Option<(int, u128)>
    decreases funds.len(),
{
    if funds.len() == 0 {
        None
    } else {
        let p = first_denom_from(cs, funds.last().denom@, 0);
        if p < cs.len() {
            Some((p, funds.last().amount))
        } else {
            commission_match(funds.drop_last(), cs)
        }
    }
}

/// Why a proposal is refused, if it is: no options, no funds, no fund in a
/// token with a commission, or too little of it.
pub open spec fn proposal_refusal(
    commissions: Seq<Coin>,
    funds: Seq<Coin>,
    option_count: nat,
) -> Option<ContractError> {
    if option_count == 0 {
        Some(ContractError::NoOptionsProvided {})
    } else if funds.len() == 0 {
        Some(ContractError::MissingPayment {})
    } else {
        match commission_match(funds, commissions) {
            None => Some(ContractError::UnsupportedToken {}),
            Some((p, sent)) => if sent < commissions[p].amount {
                Some(ContractError::InsufficientFunds { funds: sent, commission: commissions[p].amount })
            } else {
                None
            },
        }
    }
}

/// The attributes of an accepted proposal.
pub open spec fn propose_pairs(
    sender: Seq<char>,
    pays_commission: bool,
    id: u64,
    status: ProposalStatus,
) -> Seq<(Seq<char>, Seq<char>)> {
    seq![("action"@, "propose"@), ("sender"@, sender), ("status"@, "Open"@)] + (if pays_commission {
        seq![("commission_payer"@, sender)]
    } else {
        Seq::empty()
    }) + seq![
        ("action"@, "propose"@),
        ("sender"@, sender),
        ("proposal_id"@, decimal(id as nat)),
        ("status"@, status_name(status)),
    ]
}

/// The proposal opened with these fields by `sender` in `block`: no votes
/// yet, open unless its expiration has already been reached, no winner.
pub open spec fn opened_as(
    p: Proposal,
    title: String,
    description: String,
    option: Vec<String>,
    expires: Expiration,
    sender: Seq<char>,
    block: BlockInfo,
) -> bool {
    &&& p.title == title
    &&& p.description == description
    &&& p.option == option
    &&& p.expires == expires
    &&& p.votes.counts@ == Seq::new(option@.len(), |i: int| 0u64)
    &&& p.status == (if expires.reached_in(block) {
        ProposalStatus::Closed
    } else {
        ProposalStatus::Open
    })
    &&& p.proposer@ == sender
    &&& p.winner is None
}

/// The response to an accepted proposal: the commission in the matching
/// token goes to the admin where it is not zero, and the attributes name
/// the proposal.
pub open spec fn propose_response(
    resp: Response,
    state: State,
    funds: Seq<Coin>,
    sender: Seq<char>,
    id: u64,
    status: ProposalStatus,
) -> bool {
    let (c, sent) = commission_match(funds, state.commissions@).unwrap();
    let commission = state.commissions@[c];
    &&& resp.messages@.len() == (if commission.amount != 0 {
        1int
    } else {
        0
    })
    &&& commission.amount != 0 ==> resp.messages@[0].to_address@ == state.admin@
        && resp.messages@[0].amount@ == seq![commission]
    &&& resp.pairs() == propose_pairs(sender, commission.amount != 0, id, status)
}

/// Position of the first commission from `j` on in the token `denom`.
fn find_commission(cs: &Vec<Coin>, denom: &String) -> (p: usize)
    ensures
        p == first_denom_from(cs@, denom@, 0),
{
    let n = cs.len();
    let mut j: usize = 0;
    while j < n
        invariant
            n == cs.len(),
            j <= n,
            first_denom_from(cs@, denom@, 0) == first_denom_from(cs@, denom@, j as int),
        decreases n - j,
    {
        if cs[j].denom == *denom {
            return j;
        }
        j = j + 1;
    }
    j
}

/// Opens proposal `id` with the given options, paid for by `funds`. On
/// success gives the proposal to store and the response, which pays the
/// commission in the matching token to the admin where it is not zero.
pub fn execute_create_proposal(
    state: &State,
    block: &BlockInfo,
    sender: &String,
    funds: &Vec<Coin>,
    title: String,
    description: String,
    option: Vec<String>,
    expires: Expiration,
    id: u64,
) -> (r: Result<(Proposal, Response), ContractError>)
    ensures
        proposal_refusal(state.commissions@, funds@, option@.len()) matches Some(e) ==> r == Err::<
            (Proposal, Response),
            ContractError,
        >(e),
        proposal_refusal(state.commissions@, funds@, option@.len()) is None ==> r is Ok,
        r matches Ok((p, resp)) ==> opened_as(p, title, description, option, expires, sender@, *block)
            && propose_response(resp, *state, funds@, sender@, id, p.status),
{
    if option.len() == 0 {
        return Err(ContractError::NoOptionsProvided {});
    }
    if funds.len() == 0 {
        return Err(ContractError::MissingPayment {});
    }
    let cs = &state.commissions;
    let mut matching: Option<usize> = None;
    let mut coin_sended: u128 = 0;
    let n = funds.len();
    let mut i: usize = 0;
    while i < n
        invariant
            n == funds.len(),
            i <= n,
            match commission_match(funds@.take(i as int), cs@) {
                None => matching is None,
                Some((p, sent)) => 0 <= p < cs.len() && matching == Some(p as usize) && coin_sended == sent,
            },
        decreases n - i,
    {
        let p = find_commission(cs, &funds[i].denom);
        proof {
            assert(funds@.take(i + 1).drop_last() =~= funds@.take(i as int));
            assert(funds@.take(i + 1).last() == funds@[i as int]);
        }
        if p < cs.len() {
            matching = Some(p);
            coin_sended = funds[i].amount;
        }
        i = i + 1;
    }
    assert(funds@.take(n as int) =~= funds@);
    let c = match matching {
        None => {
            return Err(ContractError::UnsupportedToken {});
        },
        Some(c) => c,
    };
    let commission = copy_coin(&cs[c]);
    if coin_sended < commission.amount {
        return Err(
            ContractError::InsufficientFunds { funds: coin_sended, commission: commission.amount },
        );
    }
    let mut messages: Vec<BankSend> = Vec::new();
    let mut attributes: Vec<Attribute> = Vec::new();
    attributes.push(attr_lit("action", "propose"));
    attributes.push(attr("sender", sender.clone()));
    attributes.push(attr("status", status_text(ProposalStatus::Open)));
    let pays = commission.amount != 0;
    if pays {
        let mut amount: Vec<Coin> = Vec::new();
        amount.push(commission);
        messages.push(BankSend { to_address: state.admin.clone(), amount });
        attributes.push(attr("commission_payer", sender.clone()));
    }
    let num_options = option.len();
    let votes = Votes::start(num_options);
    let mut prop = Proposal {
        title,
        description,
        expires,
        option,
        status: ProposalStatus::Open,
        votes,
        proposer: sender.clone(),
        winner: None,
    };
    prop.update_status(block);
    attributes.push(attr_lit("action", "propose"));
    attributes.push(attr("sender", sender.clone()));
    attributes.push(attr("proposal_id", u64_to_text(id)));
    attributes.push(attr("status", status_text(prop.status)));
    let resp = Response { messages, attributes };
    assert(resp.pairs() =~= propose_pairs(sender@, pays, id, prop.status));
    Ok((prop, resp))
}

/// The voters of a proposal: address to standing.
pub type VoterMap = Map<Seq<char>, VoterStatus>;

/// An address given in a message, as the host's address check judged it:
/// the checked address, or the error of the check.
pub type CheckedAddr = Result<String, StdError>;

/// Removing one voter: refused where the address failed its check or the
/// voter has voted; an address that is not a voter changes nothing.
pub open spec fn removal_step(m: VoterMap, v: CheckedAddr) -> Result<VoterMap, ContractError> {
    match v {
        Err(e) => Err(ContractError::Std(e)),
        Ok(a) => if m.dom().contains(a@) && m[a@] == VoterStatus::HasVoted {
            Err(ContractError::CannotRemoveVoter {})
        } else {
            Ok(m.remove(a@))
        },
    }
}

/// Removing voters one after the other, stopping at the first refusal.
pub open spec fn apply_removals(m: VoterMap, rmv: Seq<CheckedAddr>) -> Result<VoterMap, ContractError>
    decreases rmv.len(),
{
    if rmv.len() == 0 {
        Ok(m)
    } else {
        match apply_removals(m, rmv.drop_last()) {
            Err(e) => Err(e),
            Ok(m1) => removal_step(m1, rmv.last()),
        }
    }
}

/// Once a removal is refused, the rest of the list is not looked at.
pub proof fn lemma_removals_stop(m: VoterMap, s: Seq<CheckedAddr>, k: int)
    requires
        0 <= k <= s.len(),
        apply_removals(m, s.take(k)) is Err,
    ensures
        apply_removals(m, s) == apply_removals(m, s.take(k)),
    decreases s.len(),
{
    if k == s.len() {
        assert(s.take(k) =~= s);
    } else {
        assert(s.drop_last().take(k) =~= s.take(k));
        lemma_removals_stop(m, s.drop_last(), k);
    }
}

/// Once an admission is refused, the rest of the list is not looked at.
pub proof fn lemma_admissions_stop(m: VoterMap, s: Seq<CheckedAddr>, k: int)
    requires
        0 <= k <= s.len(),
        apply_admissions(m, s.take(k)) is Err,
    ensures
        apply_admissions(m, s) == apply_admissions(m, s.take(k)),
    decreases s.len(),
{
    if k == s.len() {
        assert(s.take(k) =~= s);
    } else {
        assert(s.drop_last().take(k) =~= s.take(k));
        lemma_admissions_stop(m, s.drop_last(), k);
    }
}

/// Admitting one voter: an address that asked to join, or that is new,
/// may vote; one that may vote or has voted keeps its standing.
pub open spec fn admission_step(m: VoterMap, v: CheckedAddr) -> Result<VoterMap, ContractError> {
    match v {
        Err(e) => Err(ContractError::Std(e)),
        Ok(a) => if m.dom().contains(a@) && m[a@] != VoterStatus::NotAllowed {
            Ok(m)
        } else {
            Ok(m.insert(a@, VoterStatus::CanVote))
        },
    }
}

/// Admitting voters one after the other, stopping at the first refusal.
pub open spec fn apply_admissions(m: VoterMap, add: Seq<CheckedAddr>) -> Result<VoterMap, ContractError>
    decreases add.len(),
{
    if add.len() == 0 {
        Ok(m)
    } else {
        match apply_admissions(m, add.drop_last()) {
            Err(e) => Err(e),
            Ok(m1) => admission_step(m1, add.last()),
        }
    }
}

/// The voters after a request: first the removals (the proposer's alone),
/// then the address that asks to join (added as not yet allowed where it is
/// new), then the admissions (the proposer's alone). An empty list, or an
/// empty asking address, is skipped.
pub open spec fn voters_after_update(
    proposer: Seq<char>,
    m: VoterMap,
    sender: Seq<char>,
    add: Seq<CheckedAddr>,
    ask: Seq<char>,
    ask_check: CheckedAddr,
    rmv: Seq<CheckedAddr>,
) -> Result<VoterMap, ContractError> {
    let r1 = if rmv.len() == 0 {
        Ok(m)
    } else if proposer == sender {
        apply_removals(m, rmv)
    } else {
        Err(ContractError::Unauthorized {})
    };
    match r1 {
        Err(e) => Err(e),
        Ok(m1) => {
            let r2 = if ask.len() == 0 {
                Ok(m1)
            } else {
                match ask_check {
                    Err(e) => Err(ContractError::Std(e)),
                    Ok(a) => Ok(
                        if m1.dom().contains(a@) {
                            m1
                        } else {
                            m1.insert(a@, VoterStatus::NotAllowed)
                        },
                    ),
                }
            };
            match r2 {
                Err(e) => Err(e),
                Ok(m2) => if add.len() == 0 {
                    Ok(m2)
                } else if proposer == sender {
                    apply_admissions(m2, add)
                } else {
                    Err(ContractError::Unauthorized {})
                },
            }
        },
    }
}

/// Removing voters never changes who has voted.
pub proof fn lemma_removals_keep_voted(m: VoterMap, rmv: Seq<CheckedAddr>)
    ensures
        apply_removals(m, rmv) matches Ok(m2) ==> with_status(m2, VoterStatus::HasVoted)
            == with_status(m, VoterStatus::HasVoted),
    decreases rmv.len(),
{
    if rmv.len() > 0 {
        lemma_removals_keep_voted(m, rmv.drop_last());
        if let Ok(m1) = apply_removals(m, rmv.drop_last()) {
            if let Ok(a) = rmv.last() {
                assert(with_status(m1.remove(a@), VoterStatus::HasVoted) =~= with_status(
                    m1,
                    VoterStatus::HasVoted,
                ) || (m1.dom().contains(a@) && m1[a@] == VoterStatus::HasVoted));
            }
        }
    }
}

/// Admitting voters never changes who has voted.
pub proof fn lemma_admissions_keep_voted(m: VoterMap, add: Seq<CheckedAddr>)
    ensures
        apply_admissions(m, add) matches Ok(m2) ==> with_status(m2, VoterStatus::HasVoted)
            == with_status(m, VoterStatus::HasVoted),
    decreases add.len(),
{
    if add.len() > 0 {
        lemma_admissions_keep_voted(m, add.drop_last());
        if let Ok(m1) = apply_admissions(m, add.drop_last()) {
            if let Ok(a) = add.last() {
                assert(with_status(m1.insert(a@, VoterStatus::CanVote), VoterStatus::HasVoted)
                    =~= with_status(m1, VoterStatus::HasVoted) || (m1.dom().contains(a@) && m1[a@]
                    != VoterStatus::NotAllowed));
            }
        }
    }
}

/// A request on the voters never changes who has voted.
pub proof fn lemma_update_keeps_voted(
    proposer: Seq<char>,
    m: VoterMap,
    sender: Seq<char>,
    add: Seq<CheckedAddr>,
    ask: Seq<char>,
    ask_check: CheckedAddr,
    rmv: Seq<CheckedAddr>,
)
    ensures
        voters_after_update(proposer, m, sender, add, ask, ask_check, rmv) matches Ok(m2)
            ==> with_status(m2, VoterStatus::HasVoted) == with_status(m, VoterStatus::HasVoted),
{
    lemma_removals_keep_voted(m, rmv);
    if let Ok(m1) = (if rmv.len() == 0 {
        Ok::<VoterMap, ContractError>(m)
    } else if proposer == sender {
        apply_removals(m, rmv)
    } else {
        Err(ContractError::Unauthorized {})
    }) {
        if let Ok(a) = ask_check {
            assert(with_status(m1.insert(a@, VoterStatus::NotAllowed), VoterStatus::HasVoted)
                =~= with_status(m1, VoterStatus::HasVoted) || m1.dom().contains(a@));
        }
        let m2 = if ask.len() == 0 {
            m1
        } else {
            match ask_check {
                Err(e) => m1,
                Ok(a) => if m1.dom().contains(a@) {
                    m1
                } else {
                    m1.insert(a@, VoterStatus::NotAllowed)
                },
            }
        };
        lemma_admissions_keep_voted(m2, add);
    }
}

/// The response with nothing in it.
pub open spec fn is_empty_response(r: Response) -> bool {
    r.messages@.len() == 0 && r.attributes@.len() == 0
}

fn empty_response() -> (r: Response)
    ensures
        is_empty_response(r),
{
    Response { messages: Vec::new(), attributes: Vec::new() }
}

fn apply_removals_exec(work: &mut VoterTable, to_remove: Vec<CheckedAddr>) -> (r: Result<(), ContractError>)
    ensures
        match apply_removals(old(work)@, to_remove@) {
            Ok(m) => r is Ok && final(work)@ == m,
            Err(e) => r == Err::<(), ContractError>(e),
        },
{
    let ghost m0 = work@;
    let ghost rmv = to_remove@;
    let mut list = to_remove;
    let n = list.len();
    let mut i: usize = 0;
    assert(rmv.take(0) =~= Seq::<CheckedAddr>::empty());
    while i < n
        invariant
            n == rmv.len(),
            i <= n,
            list@ == rmv,
            rmv == to_remove@,
            m0 == old(work)@,
            apply_removals(m0, rmv.take(i as int)) == Ok::<VoterMap, ContractError>(work@),
        decreases n - i,
    {
        proof {
            assert(rmv.take(i + 1).drop_last() =~= rmv.take(i as int));
            assert(rmv.take(i + 1).last() == rmv[i as int]);
        }
        let ok = list[i].is_ok();
        if !ok {
            let e = list.swap_remove(i).unwrap_err();
            proof {
                lemma_removals_stop(m0, rmv, i + 1);
            }
            return Err(ContractError::Std(e));
        }
        match &list[i] {
            Ok(a) => {
                match work.get(a) {
                    Some(VoterStatus::HasVoted) => {
                        proof {
                            lemma_removals_stop(m0, rmv, i + 1);
                        }
                        return Err(ContractError::CannotRemoveVoter {});
                    },
                    Some(_) => {
                        work.remove(a);
                    },
                    None => {
                        assert(work@.remove(a@) =~= work@);
                    },
                }
            },
            Err(_) => {},
        }
        i = i + 1;
    }
    assert(rmv.take(n as int) =~= rmv);
    Ok(())
}

fn apply_admissions_exec(work: &mut VoterTable, to_add: Vec<CheckedAddr>) -> (r: Result<(), ContractError>)
    ensures
        match apply_admissions(old(work)@, to_add@) {
            Ok(m) => r is Ok && final(work)@ == m,
            Err(e) => r == Err::<(), ContractError>(e),
        },
{
    let ghost m0 = work@;
    let ghost add = to_add@;
    let mut list = to_add;
    let n = list.len();
    let mut i: usize = 0;
    assert(add.take(0) =~= Seq::<CheckedAddr>::empty());
    while i < n
        invariant
            n == add.len(),
            i <= n,
            list@ == add,
            add == to_add@,
            m0 == old(work)@,
            apply_admissions(m0, add.take(i as int)) == Ok::<VoterMap, ContractError>(work@),
        decreases n - i,
    {
        proof {
            assert(add.take(i + 1).drop_last() =~= add.take(i as int));
            assert(add.take(i + 1).last() == add[i as int]);
        }
        let ok = list[i].is_ok();
        if !ok {
            let e = list.swap_remove(i).unwrap_err();
            proof {
                lemma_admissions_stop(m0, add, i + 1);
            }
            return Err(ContractError::Std(e));
        }
        match &list[i] {
            Ok(a) => {
                match work.get(a) {
                    Some(VoterStatus::NotAllowed) | None => {
                        work.set(a.clone(), VoterStatus::CanVote);
                    },
                    Some(_) => {},
                }
            },
            Err(_) => {},
        }
        i = i + 1;
    }
    assert(add.take(n as int) =~= add);
    Ok(())
}

/// Applies a request on the voters of a proposal: removals, the address that
/// asks to join, admissions, as `voters_after_update` says. A refused request
/// leaves the voters as they were.
pub fn update_voters(
    prop: &Proposal,
    voters: &mut VoterTable,
    sender: &String,
    to_add: Vec<CheckedAddr>,
    to_ask: &String,
    ask_check: CheckedAddr,
    to_remove: Vec<CheckedAddr>,
) -> (r: Result<Response, ContractError>)
    ensures
        match voters_after_update(
            prop.proposer@,
            old(voters)@,
            sender@,
            to_add@,
            to_ask@,
            ask_check,
            to_remove@,
        ) {
            Ok(m) => r matches Ok(resp) && is_empty_response(resp) && final(voters)@ == m,
            Err(e) => r == Err::<Response, ContractError>(e) && *final(voters) == *old(voters),
        },
{
    let mut work = voters.duplicate();
    if to_remove.len() != 0 {
        if prop.proposer == *sender {
            match apply_removals_exec(&mut work, to_remove) {
                Ok(()) => {},
                Err(e) => {
                    return Err(e);
                },
            }
        } else {
            return Err(ContractError::Unauthorized {});
        }
    }
    if !to_ask.as_str().is_empty() {
        match ask_check {
            Err(e) => {
                return Err(ContractError::Std(e));
            },
            Ok(a) => {
                if work.get(&a).is_none() {
                    work.set(a, VoterStatus::NotAllowed);
                } else {
                    assert(work@.dom().contains(a@));
                }
            },
        }
    }
    if to_add.len() != 0 {
        if prop.proposer == *sender {
            match apply_admissions_exec(&mut work, to_add) {
                Ok(()) => {},
                Err(e) => {
                    return Err(e);
                },
            }
        } else {
            return Err(ContractError::Unauthorized {});
        }
    }
    *voters = work;
    Ok(empty_response())
}

/// The attributes of an accepted request on the voters.
pub open spec fn update_voters_pairs(
    proposal_id: u64,
    added: nat,
    ask: Seq<char>,
    sender: Seq<char>,
) -> Seq<(Seq<char>, Seq<char>)> {
    seq![
        ("action"@, "update_voters"@),
        ("proposal"@, decimal(proposal_id as nat)),
        ("added"@, decimal(added)),
        ("ask to join"@, ask),
        ("sender"@, sender),
    ]
}

/// A request on the voters of proposal `proposal_id`, refused once the
/// proposal is no longer open; otherwise as `update_voters`.
pub fn execute_update_voters(
    prop: &Proposal,
    voters: &mut VoterTable,
    block: &BlockInfo,
    sender: &String,
    add: Vec<CheckedAddr>,
    ask: String,
    ask_check: CheckedAddr,
    rmv: Vec<CheckedAddr>,
    proposal_id: u64,
) -> (r: Result<Response, ContractError>)
    ensures
        prop.status_in(*block) != ProposalStatus::Open ==> r == Err::<Response, ContractError>(
            ContractError::Expired {},
        ) && *final(voters) == *old(voters),
        prop.status_in(*block) == ProposalStatus::Open ==> match voters_after_update(
            prop.proposer@,
            old(voters)@,
            sender@,
            add@,
            ask@,
            ask_check,
            rmv@,
        ) {
            Ok(m) => r matches Ok(resp) && final(voters)@ == m && resp.messages@.len() == 0
                && resp.pairs() == update_voters_pairs(proposal_id, add@.len(), ask@, sender@),
            Err(e) => r == Err::<Response, ContractError>(e) && *final(voters) == *old(voters),
        },
{
    let mut attributes: Vec<Attribute> = Vec::new();
    attributes.push(attr_lit("action", "update_voters"));
    attributes.push(attr("proposal", u64_to_text(proposal_id)));
    attributes.push(attr("added", u64_to_text(add.len() as u64)));
    attributes.push(attr("ask to join", ask.clone()));
    attributes.push(attr("sender", sender.clone()));
    if prop.current_status(block) != ProposalStatus::Open {
        return Err(ContractError::Expired {});
    }
    match update_voters(prop, voters, sender, add, &ask, ask_check, rmv) {
        Ok(_) => {},
        Err(e) => {
            return Err(e);
        },
    }
    let resp = Response { messages: Vec::new(), attributes };
    assert(resp.pairs() =~= update_voters_pairs(proposal_id, add@.len(), ask@, sender@));
    Ok(resp)
}

/// Why a vote is refused, if it is: the proposal is no longer open, the
/// sender may not vote or has voted, or the option does not exist.
pub open spec fn vote_refusal(
    prop: Proposal,
    m: VoterMap,
    block: BlockInfo,
    sender: Seq<char>,
    vote: usize,
) -> Option<ContractError> {
    if prop.status_in(block) != ProposalStatus::Open {
        Some(ContractError::Expired {})
    } else if !m.dom().contains(sender) || m[sender] == VoterStatus::NotAllowed {
        Some(ContractError::Unauthorized {})
    } else if m[sender] == VoterStatus::HasVoted {
        Some(ContractError::AlreadyVoted {})
    } else if vote >= prop.option.len() {
        Some(ContractError::InvalidOption {})
    } else {
        None
    }
}

/// The counts after one vote for option `vote`.
pub open spec fn counts_after_vote(counts: Seq<u64>, vote: usize) -> Seq<u64> {
    if vote < counts.len() {
        counts.update(vote as int, (counts[vote as int] + 1) as u64)
    } else {
        counts
    }
}

/// The attributes of an accepted vote.
pub open spec fn vote_pairs(
    sender: Seq<char>,
    proposal_id: u64,
    status: ProposalStatus,
) -> Seq<(Seq<char>, Seq<char>)> {
    seq![
        ("action"@, "vote"@),
        ("sender"@, sender),
        ("proposal_id"@, decimal(proposal_id as nat)),
        ("status"@, status_name(status)),
    ]
}

/// The sender's vote for option `vote` of proposal `proposal_id`: counted
/// once, after which the sender has voted.
pub fn execute_vote(
    prop: &mut Proposal,
    voters: &mut VoterTable,
    block: &BlockInfo,
    sender: &String,
    vote: usize,
    proposal_id: u64,
) -> (r: Result<Response, ContractError>)
    requires
        vote_refusal(*old(prop), old(voters)@, *block, sender@, vote) is None && vote < old(
            prop,
        ).votes.counts.len() ==> old(prop).votes.counts[vote as int] < u64::MAX,
    ensures
        vote_refusal(*old(prop), old(voters)@, *block, sender@, vote) matches Some(e) ==> r == Err::<
            Response,
            ContractError,
        >(e) && *final(prop) == *old(prop) && *final(voters) == *old(voters),
        vote_refusal(*old(prop), old(voters)@, *block, sender@, vote) is None ==> (r matches Ok(resp)
            && final(prop).votes.counts@ == counts_after_vote(old(prop).votes.counts@, vote)
            && *final(prop) == (Proposal { votes: final(prop).votes, ..*old(prop) })
            && final(voters)@ == old(voters)@.insert(sender@, VoterStatus::HasVoted)
            && resp.messages@.len() == 0 && resp.pairs() == vote_pairs(
            sender@,
            proposal_id,
            old(prop).status,
        )),
{
    if prop.current_status(block) != ProposalStatus::Open {
        return Err(ContractError::Expired {});
    }
    match voters.get(sender) {
        Some(VoterStatus::CanVote) => {
            if vote >= prop.option.len() {
                return Err(ContractError::InvalidOption {});
            }
            voters.set(sender.clone(), VoterStatus::HasVoted);
            prop.votes.add_vote(vote, 1);
            let mut attributes: Vec<Attribute> = Vec::new();
            attributes.push(attr_lit("action", "vote"));
            attributes.push(attr("sender", sender.clone()));
            attributes.push(attr("proposal_id", u64_to_text(proposal_id)));
            attributes.push(attr("status", status_text(prop.status)));
            let resp = Response { messages: Vec::new(), attributes };
            assert(resp.pairs() =~= vote_pairs(sender@, proposal_id, prop.status));
            Ok(resp)
        },
        Some(VoterStatus::HasVoted) => Err(ContractError::AlreadyVoted {}),
        _ => Err(ContractError::Unauthorized {}),
    }
}

/// Whether the vote would be counted and its option's count is already at
/// the largest 64-bit number, so that counting it would overflow.
pub fn vote_overflows(
    prop: &Proposal,
    voters: &VoterTable,
    block: &BlockInfo,
    sender: &String,
    vote: usize,
) -> (b: bool)
    ensures
        b == (vote_refusal(*prop, voters@, *block, sender@, vote) is None && vote
            < prop.votes.counts.len() && prop.votes.counts[vote as int] == u64::MAX),
{
    if prop.current_status(block) != ProposalStatus::Open {
        return false;
    }
    match voters.get(sender) {
        Some(VoterStatus::CanVote) => vote < prop.option.len() && vote < prop.votes.counts.len()
            && prop.votes.counts[vote] == u64::MAX,
        _ => false,
    }
}

/// The highest count, zero where there are none.
pub open spec fn max_count(s: Seq<u64>) -> u64
    decreases s.len(),
{
    if s.len() == 0 {
        0
    } else if s.last() > max_count(s.drop_last()) {
        s.last()
    } else {
        max_count(s.drop_last())
    }
}

/// The positions among the first `n` counts that hold `v`, ascending.
pub open spec fn positions_of(s: Seq<u64>, v: u64, n: int) -> Seq<int>
    decreases n,
{
    if n <= 0 {
        Seq::empty()
    } else {
        positions_of(s, v, n - 1) + (if s[n - 1] == v {
            seq![n - 1]
        } else {
            Seq::empty()
        })
    }
}

/// The options with the most votes, where that is more than none.
pub open spec fn leaders(s: Seq<u64>) -> Seq<int> {
    if max_count(s) > 0 {
        positions_of(s, max_count(s), s.len() as int)
    } else {
        Seq::empty()
    }
}

/// The options at the given positions, skipping positions past the last option.
pub open spec fn options_at(options: Seq<Seq<char>>, idx: Seq<int>) -> Seq<Seq<char>>
    decreases idx.len(),
{
    if idx.len() == 0 {
        Seq::empty()
    } else {
        options_at(options, idx.drop_last()) + (if 0 <= idx.last() < options.len() {
            seq![options[idx.last()]]
        } else {
            Seq::empty()
        })
    }
}

/// The outcome of closing: the winner to record and the winner to report.
/// Below the quorum nobody wins; otherwise the options with the most votes
/// win, a tie naming all of them, and no votes at all naming none.
pub open spec fn close_outcome(options: Seq<Seq<char>>, counts: Seq<u64>, quorum: u64) -> Result<
    (Seq<char>, Seq<char>),
    ContractError,
> {
    if sum(counts) < quorum {
        Ok(("Quorum not reached"@, "Quorum not reached"@))
    } else {
        let w = leaders(counts);
        if w.len() > 1 {
            let j = joined(options_at(options, w), ", "@);
            Ok(("Tie: "@ + j, j))
        } else if w.len() == 1 {
            if 0 <= w[0] < options.len() {
                Ok((options[w[0]], options[w[0]]))
            } else {
                Err(ContractError::InvalidWinner {})
            }
        } else {
            Ok(("No valid votes"@, "No valid votes"@))
        }
    }
}

/// The attributes of a closed proposal.
pub open spec fn close_pairs(reported: Seq<char>) -> Seq<(Seq<char>, Seq<char>)> {
    seq![("action"@, "close_proposal"@), ("status"@, "closed"@), ("winner"@, reported)]
}

fn highest(counts: &Vec<u64>) -> (m: u64)
    ensures
        m == max_count(counts@),
{
    let n = counts.len();
    let mut m: u64 = 0;
    let mut i: usize = 0;
    while i < n
        invariant
            n == counts.len(),
            i <= n,
            m == max_count(counts@.take(i as int)),
        decreases n - i,
    {
        proof {
            assert(counts@.take(i + 1).drop_last() =~= counts@.take(i as int));
        }
        if counts[i] > m {
            m = counts[i];
        }
        i = i + 1;
    }
    assert(counts@.take(n as int) =~= counts@);
    m
}

fn leader_positions(counts: &Vec<u64>) -> (w: Vec<usize>)
    ensures
        w@.map_values(|i: usize| i as int) == leaders(counts@),
{
    let m = highest(counts);
    let mut w: Vec<usize> = Vec::new();
    if m == 0 {
        assert(w@.map_values(|i: usize| i as int) =~= leaders(counts@));
        return w;
    }
    let n = counts.len();
    let mut i: usize = 0;
    while i < n
        invariant
            n == counts.len(),
            i <= n,
            w@.map_values(|k: usize| k as int) =~= positions_of(counts@, m, i as int),
        decreases n - i,
    {
        if counts[i] == m {
            w.push(i);
        }
        i = i + 1;
    }
    w
}

fn tied_options(options: &Vec<String>, w: &Vec<usize>) -> (t: Vec<String>)
    ensures
        views(t@) == options_at(views(options@), w@.map_values(|i: usize| i as int)),
{
    let n = w.len();
    let mut t: Vec<String> = Vec::new();
    let mut i: usize = 0;
    while i < n
        invariant
            n == w.len(),
            i <= n,
            views(t@) =~= options_at(views(options@), w@.map_values(|k: usize| k as int).take(i as int)),
        decreases n - i,
    {
        proof {
            let idx = w@.map_values(|k: usize| k as int);
            assert(idx.take(i + 1).drop_last() =~= idx.take(i as int));
        }
        if w[i] < options.len() {
            t.push(options[w[i]].clone());
        }
        i = i + 1;
    }
    assert(w@.map_values(|k: usize| k as int).take(n as int) =~= w@.map_values(|k: usize| k as int));
    t
}

/// Closes an expired proposal for its proposer, recording the winner:
/// below `quorum` votes nobody wins, otherwise the options with the most
/// votes do (see `close_outcome`).
pub fn execute_close(
    prop: &mut Proposal,
    block: &BlockInfo,
    sender: &String,
    quorum: u64,
) -> (r: Result<Response, ContractError>)
    requires
        old(prop).proposer@ == sender@ && old(prop).expires.reached_in(*block) ==> sum(
            old(prop).votes.counts@,
        ) <= u64::MAX,
    ensures
        old(prop).proposer@ != sender@ ==> r == Err::<Response, ContractError>(
            ContractError::Unauthorized {},
        ) && *final(prop) == *old(prop),
        old(prop).proposer@ == sender@ && !old(prop).expires.reached_in(*block) ==> r == Err::<
            Response,
            ContractError,
        >(ContractError::NotExpired {}) && *final(prop) == *old(prop),
        old(prop).proposer@ == sender@ && old(prop).expires.reached_in(*block) ==> match close_outcome(
            views(old(prop).option@),
            old(prop).votes.counts@,
            quorum,
        ) {
            Err(e) => r == Err::<Response, ContractError>(e) && *final(prop) == *old(prop),
            Ok((recorded, reported)) => (r matches Ok(resp) && resp.messages@.len() == 0
                && resp.pairs() == close_pairs(reported)) && (final(prop).winner matches Some(w)
                && w@ == recorded) && *final(prop) == (Proposal {
                status: ProposalStatus::Closed,
                winner: final(prop).winner,
                ..*old(prop)
            }),
        },
{
    if prop.proposer != *sender {
        return Err(ContractError::Unauthorized {});
    }
    if !outside_is_expired(&prop.expires, block) {
        return Err(ContractError::NotExpired {});
    }
    let total_votes = prop.votes.total();
    let recorded: String;
    let reported: String;
    if total_votes >= quorum {
        let winners = leader_positions(&prop.votes.counts);
        if winners.len() > 1 {
            let tied = tied_options(&prop.option, &winners);
            let mut concatenated = String::new();
            push_joined(&mut concatenated, &tied, ", ");
            let mut tie = "Tie: ".to_owned();
            push_joined(&mut tie, &tied, ", ");
            recorded = tie;
            reported = concatenated;
        } else if winners.len() == 1 {
            let idx = winners[0];
            if idx < prop.option.len() {
                recorded = prop.option[idx].clone();
                reported = prop.option[idx].clone();
            } else {
                return Err(ContractError::InvalidWinner {});
            }
        } else {
            recorded = "No valid votes".to_owned();
            reported = "No valid votes".to_owned();
        }
    } else {
        recorded = "Quorum not reached".to_owned();
        reported = "Quorum not reached".to_owned();
    }
    prop.status = ProposalStatus::Closed;
    prop.winner = Some(recorded);
    let ghost rep = reported@;
    let mut attributes: Vec<Attribute> = Vec::new();
    attributes.push(attr_lit("action", "close_proposal"));
    attributes.push(attr_lit("status", "closed"));
    attributes.push(attr("winner", reported));
    let resp = Response { messages: Vec::new(), attributes };
    assert(resp.pairs() =~= close_pairs(rep));
    Ok(resp)
}

/// The number of voters of a proposal who may vote and have not yet voted.
pub fn count_participants(voters: &VoterTable) -> (c: u64)
    ensures
        c == count_of(voters@, VoterStatus::CanVote),
{
    voters.count_with(VoterStatus::CanVote)
}

} // verus!
