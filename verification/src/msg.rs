//! What the contract answers: the effects of an executed message and the
//! replies to queries.
use vstd::prelude::*;
use crate::state::{Coin, Expiration, ProposalStatus};

verus! {

/// A key and value that describe an executed message.
#[derive(Clone, Debug, PartialEq, Eq)]
pub struct Attribute {
    pub key: String,
    pub value: String,
}

impl Attribute {
    /// The attribute as plain text.
    pub open spec fn pair(self) -> (Seq<char>, Seq<char>) {
        (self.key@, self.value@)
    }
}

/// A transfer of tokens from the contract to `to_address`.
#[derive(Clone, Debug, PartialEq, Eq)]
pub struct BankSend {
    pub to_address: String,
    pub amount: Vec<Coin>,
}

/// What an executed message leaves behind: transfers to make and attributes.
#[derive(Clone, Debug, PartialEq, Eq)]
pub struct Response {
    pub messages: Vec<BankSend>,
    pub attributes: Vec<Attribute>,
}

impl Response {
    /// The attributes as plain text, in order.
    pub open spec fn pairs(self) -> Seq<(Seq<char>, Seq<char>)> {
        self.attributes@.map_values(|a: Attribute| a.pair())
    }
}

/// Builds an attribute.
pub fn attr(key: &str, value: String) -> (a: Attribute)
    ensures
        a.key@ == key@,
        a.value == value,
{
    Attribute { key: key.to_owned(), value }
}

/// Builds an attribute whose value is a literal.
pub fn attr_lit(key: &str, value: &str) -> (a: Attribute)
    ensures
        a.key@ == key@,
        a.value@ == value@,
{
    Attribute { key: key.to_owned(), value: value.to_owned() }
}

/// The vote counts of a proposal.
#[derive(Clone, Debug, PartialEq, Eq)]
pub struct VotesResponse {
    pub counts: Vec<u64>,
}

/// A voter with a weight.
#[derive(Clone, Debug, PartialEq, Eq)]
pub struct Voter {
    pub addr: String,
    pub weight: u64,
}

/// Every proposal with its title and status.
#[derive(Clone, Debug, PartialEq, Eq)]
pub struct AllProposalsInfoResponse {
    pub proposals: Vec<(u64, String, ProposalStatus)>,
}

/// Every proposal with its title, in order of identifier: the reply to the
/// query for all proposals, which names each proposal by identifier and
/// title only. (The query by proposer answers with more of each proposal,
/// see `ProposalsByProposerResponse`.)
#[derive(Clone, Debug, PartialEq, Eq)]
pub struct ProposalIdsWithTitlesResponse {
    pub proposals: Vec<(u64, String)>,
}

/// A proposal of one proposer.
#[derive(Clone, Debug, PartialEq, Eq)]
pub struct ProposalsInfoByProposer {
    pub id: u64,
    pub title: String,
    pub status: ProposalStatus,
    pub winner: Option<String>,
}

/// The proposals of one proposer, in order of identifier: the reply to the
/// query by proposer, which gives each proposal's identifier, title, status
/// and recorded winner.
#[derive(Clone, Debug, PartialEq, Eq)]
pub struct ProposalsByProposerResponse {
    pub proposals: Vec<ProposalsInfoByProposer>,
}

/// A proposal as it stands.
#[derive(Clone, Debug, PartialEq, Eq)]
pub struct ProposalResponse {
    pub id: u64,
    pub title: String,
    pub description: String,
    pub status: ProposalStatus,
    pub expires: Expiration,
    pub proposer: String,
    pub options: Vec<String>,
}

/// The outcome of a proposal.
#[derive(Clone, Debug, PartialEq, Eq)]
pub struct ProposalResult {
    pub title: String,
    pub description: String,
    pub winner: Option<String>,
}

/// The voters of a proposal by standing, each list in ascending order.
#[derive(Clone, Debug, PartialEq, Eq)]
pub struct VotersResponse {
    pub allowed_voters: Vec<String>,
    pub pending_voters: Vec<String>,
    pub has_voted_voters: Vec<String>,
}

/// The contract's configuration, each commission as "amount denom".
#[derive(Clone, Debug, PartialEq, Eq)]
pub struct StatusResponse {
    pub admin: String,
    pub commissions: Vec<String>,
    pub voting_fee: u64,
}

/// The message that sets the contract up.
#[derive(Clone, Debug, PartialEq, Eq)]
pub struct InstantiateMsg {
    pub commissions: Vec<Coin>,
    pub voting_fee: u64,
}

} // verus!
