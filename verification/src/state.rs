//! What the contract keeps: its configuration, its proposals and their tallies.
use vstd::prelude::*;

verus! {

/// An amount of one token.
#[derive(Clone, Debug, PartialEq, Eq)]
pub struct Coin {
    pub denom: String,
    pub amount: u128,
}

/// The point at which a proposal stops taking part in voting.
#[derive(Clone, Copy, Debug, PartialEq, Eq)]
pub enum Expiration {
    /// Expires once the block height reaches this height.
    AtHeight(u64),
    /// Expires once the block time (nanoseconds since the epoch) reaches this time.
    AtTime(u64),
    /// Never expires.
    Never,
}

/// The block that a message is executed in.
#[derive(Clone, Debug, PartialEq, Eq)]
pub struct BlockInfo {
    pub height: u64,
    /// Nanoseconds since the epoch.
    pub time: u64,
    pub chain_id: String,
}

impl Expiration {
    /// Whether the expiration has been reached in `block`.
    pub open spec fn reached_in(self, block: BlockInfo) -> bool {
        match self {
            Expiration::AtHeight(h) => block.height >= h,
            Expiration::AtTime(t) => block.time >= t,
            Expiration::Never => false,
        }
    }
}

/// `cw_utils::Expiration::is_expired`, applied to the same expiration and
/// block: an expiration at a height is reached once the block height is at
/// least that height, one at a time once the block time is at least that
/// time, and `Never` is never reached.
#[verifier::external_body]
pub(crate) fn outside_is_expired(expires: &Expiration, block: &BlockInfo) -> (r: bool)
    ensures
        r == expires.reached_in(*block),
{
    let e = match expires {
        Expiration::AtHeight(h) => cw_utils::Expiration::AtHeight(*h),
        Expiration::AtTime(t) => cw_utils::Expiration::AtTime(cosmwasm_std::Timestamp::from_nanos(*t)),
        Expiration::Never => cw_utils::Expiration::Never {},
    };
    let b = cosmwasm_std::BlockInfo {
        height: block.height,
        time: cosmwasm_std::Timestamp::from_nanos(block.time),
        chain_id: block.chain_id.clone(),
    };
    e.is_expired(&b)
}

/// Whether a proposal still takes votes.
#[derive(Clone, Copy, Debug, PartialEq, Eq, Structural)]
pub enum ProposalStatus {
    /// The proposal was created and voting has started.
    Open,
    /// The proposal has expired.
    Closed,
}

/// The sum of a sequence of counts.
pub open spec fn sum(s: Seq<u64>) -> int
    decreases s.len(),
{
    if s.len() == 0 {
        0
    } else {
        sum(s.drop_last()) + s.last()
    }
}

/// A prefix of a sequence of counts sums to no more than the whole.
pub proof fn lemma_sum_prefix(s: Seq<u64>, i: int)
    requires
        0 <= i <= s.len(),
    ensures
        0 <= sum(s.take(i)) <= sum(s),
    decreases s.len(),
{
    if s.len() == 0 {
        assert(s.take(i) =~= s);
    } else if i == s.len() {
        assert(s.take(i) =~= s);
        lemma_sum_prefix(s.drop_last(), s.len() - 1);
        assert(s.drop_last().take(s.len() - 1) =~= s.drop_last());
    } else {
        lemma_sum_prefix(s.drop_last(), i);
        assert(s.drop_last().take(i) =~= s.take(i));
    }
}

/// Raising one count by `w` raises the sum by `w`; each count is at most the sum.
pub proof fn lemma_sum_update(s: Seq<u64>, i: int, v: u64)
    requires
        0 <= i < s.len(),
    ensures
        sum(s.update(i, v)) == sum(s) - s[i] + v,
        s[i] <= sum(s),
    decreases s.len(),
{
    let t = s.update(i, v);
    if i == s.len() - 1 {
        assert(t.drop_last() =~= s.drop_last());
        lemma_sum_prefix(s.drop_last(), s.len() - 1);
        assert(s.drop_last().take(s.len() - 1) =~= s.drop_last());
    } else {
        lemma_sum_update(s.drop_last(), i, v);
        assert(t.drop_last() =~= s.drop_last().update(i, v));
        lemma_sum_prefix(s.drop_last(), s.len() - 1);
    }
}

/// The vote counts of a proposal, one per option, in option order.
#[derive(Clone, Debug, PartialEq, Eq)]
pub struct Votes {
    pub counts: Vec<u64>,
}

impl Votes {
    /// A tally of `num_options` options, all at zero.
    pub fn start(num_options: usize) -> (v: Votes)
        ensures
            v.counts@ == Seq::new(num_options as nat, |i: int| 0u64),
    {
        let v = Votes { counts: vec![0u64; num_options] };
        assert(v.counts@ =~= Seq::new(num_options as nat, |i: int| 0u64));
        v
    }

    /// Adds `weight` to the count of option `option_index`; an index past the
    /// last option changes nothing.
    pub fn add_vote(&mut self, option_index: usize, weight: u64)
        requires
            option_index < old(self).counts.len() ==> old(self).counts[option_index as int] + weight
                <= u64::MAX,
        ensures
            final(self).counts@ == (if option_index < old(self).counts.len() {
                old(self).counts@.update(
                    option_index as int,
                    (old(self).counts[option_index as int] + weight) as u64,
                )
            } else {
                old(self).counts@
            }),
    {
        if option_index < self.counts.len() {
            let c = self.counts[option_index];
            self.counts.set(option_index, c + weight);
        }
    }

    /// The total of all votes.
    pub fn total(&self) -> (t: u64)
        requires
            sum(self.counts@) <= u64::MAX,
        ensures
            t == sum(self.counts@),
    {
        let n = self.counts.len();
        let mut acc: u64 = 0;
        let mut i: usize = 0;
        while i < n
            invariant
                n == self.counts.len(),
                i <= n,
                sum(self.counts@) <= u64::MAX,
                acc == sum(self.counts@.take(i as int)),
            decreases n - i,
        {
            proof {
                lemma_sum_prefix(self.counts@, i + 1);
                assert(self.counts@.take(i + 1).drop_last() =~= self.counts@.take(i as int));
            }
            acc = acc + self.counts[i];
            i = i + 1;
        }
        assert(self.counts@.take(n as int) =~= self.counts@);
        acc
    }

    /// The total of all votes, or `None` where it does not fit in 64 bits.
    pub fn checked_total(&self) -> (t: Option<u64>)
        ensures
            t == (if sum(self.counts@) <= u64::MAX {
                Some(sum(self.counts@) as u64)
            } else {
                None::<u64>
            }),
    {
        let n = self.counts.len();
        let mut acc: u64 = 0;
        let mut i: usize = 0;
        while i < n
            invariant
                n == self.counts.len(),
                i <= n,
                acc == sum(self.counts@.take(i as int)),
            decreases n - i,
        {
            proof {
                assert(self.counts@.take(i + 1).drop_last() =~= self.counts@.take(i as int));
            }
            match acc.checked_add(self.counts[i]) {
                Some(a) => {
                    acc = a;
                },
                None => {
                    proof {
                        lemma_sum_prefix(self.counts@, i + 1);
                    }
                    return None;
                },
            }
            i = i + 1;
        }
        assert(self.counts@.take(n as int) =~= self.counts@);
        Some(acc)
    }
}

/// Where a voter stands on a proposal.
#[derive(Clone, Copy, Debug, PartialEq, Eq, Structural)]
pub enum VoterStatus {
    /// Asked to join; may not vote.
    NotAllowed,
    /// Admitted; may vote.
    CanVote,
    /// Has voted.
    HasVoted,
}

/// A proposal and its tally.
#[derive(Clone, Debug, PartialEq, Eq)]
pub struct Proposal {
    pub title: String,
    pub description: String,
    pub option: Vec<String>,
    pub expires: Expiration,
    pub votes: Votes,
    pub status: ProposalStatus,
    pub proposer: String,
    pub winner: Option<String>,
}

impl Proposal {
    /// The status that the proposal has in `block`: an open proposal whose
    /// expiration has been reached is closed.
    pub open spec fn status_in(self, block: BlockInfo) -> ProposalStatus {
        if self.status == ProposalStatus::Open && self.expires.reached_in(block) {
            ProposalStatus::Closed
        } else {
            self.status
        }
    }

    /// The status that the proposal has in `block`.
    pub fn current_status(&self, block: &BlockInfo) -> (s: ProposalStatus)
        ensures
            s == self.status_in(*block),
    {
        let mut status = self.status;
        if status == ProposalStatus::Open && outside_is_expired(&self.expires, block) {
            status = ProposalStatus::Closed;
        }
        status
    }

    /// Sets the status to the one the proposal has in `block`.
    pub fn update_status(&mut self, block: &BlockInfo)
        ensures
            *final(self) == (Proposal { status: old(self).status_in(*block), ..*old(self) }),
    {
        self.status = self.current_status(block);
    }
}

/// The contract's configuration.
#[derive(Clone, Debug, PartialEq, Eq)]
pub struct State {
    /// Receives the commissions.
    pub admin: String,
    /// The commission for opening a proposal, one per accepted token.
    pub commissions: Vec<Coin>,
    pub voting_fee: u64,
}

/// The identifier of the next proposal, given the number of proposals made
/// so far (none stored means none made).
pub fn next_id(count: Option<u64>) -> (id: u64)
    requires
        count matches Some(c) ==> c < u64::MAX,
    ensures
        id == (match count {
            Some(c) => c + 1,
            None => 1,
        }),
{
    match count {
        Some(c) => c + 1,
        None => 1,
    }
}

/// The name of the store of proposals, as bytes ("proposals").
pub open spec fn proposals_namespace() -> Seq<u8> {
    seq![0x70u8, 0x72u8, 0x6Fu8, 0x70u8, 0x6Fu8, 0x73u8, 0x61u8, 0x6Cu8, 0x73u8]
}

/// The eight bytes of `id`, most significant first.
pub open spec fn be_bytes(id: u64) -> Seq<u8> {
    seq![
        (id / 0x100000000000000) as u8,
        ((id / 0x1000000000000) % 256) as u8,
        ((id / 0x10000000000) % 256) as u8,
        ((id / 0x100000000) % 256) as u8,
        ((id / 0x1000000) % 256) as u8,
        ((id / 0x10000) % 256) as u8,
        ((id / 0x100) % 256) as u8,
        (id % 256) as u8,
    ]
}

/// The key under which proposal `id` is stored: the length of the store's
/// name in two bytes, the name, then the identifier's bytes.
pub open spec fn proposal_key(id: u64) -> Seq<u8> {
    seq![0u8, 9u8] + proposals_namespace() + be_bytes(id)
}

/// `cosmwasm_std::storage_keys::namespace_with_key` with a namespace of one
/// component: the component's length in two bytes, most significant first,
/// then the component, then the key. The source panics on a component longer
/// than 0xFFFF bytes, which `requires` leaves out.
#[verifier::external_body]
pub(crate) fn namespace_with_key(namespace: &Vec<u8>, key: &Vec<u8>) -> (r: Vec<u8>)
    requires
        namespace.len() <= 0xFFFF,
    ensures
        r@ == seq![(namespace.len() / 256) as u8, (namespace.len() % 256) as u8] + namespace@
            + key@,
{
    cosmwasm_std::storage_keys::namespace_with_key(&[namespace.as_slice()], key.as_slice())
}

/// The key under which proposal `id` is stored.
pub fn proposal_storage_key(id: u64) -> (k: Vec<u8>)
    ensures
        k@ == proposal_key(id),
{
    let namespace: Vec<u8> = vec![0x70u8, 0x72u8, 0x6Fu8, 0x70u8, 0x6Fu8, 0x73u8, 0x61u8, 0x6Cu8, 0x73u8];
    let key: Vec<u8> = vec![
        (id / 0x100000000000000) as u8,
        ((id / 0x1000000000000) % 256) as u8,
        ((id / 0x10000000000) % 256) as u8,
        ((id / 0x100000000) % 256) as u8,
        ((id / 0x1000000) % 256) as u8,
        ((id / 0x10000) % 256) as u8,
        ((id / 0x100) % 256) as u8,
        (id % 256) as u8,
    ];
    assert(namespace@ =~= proposals_namespace());
    assert(key@ =~= be_bytes(id));
    let k = namespace_with_key(&namespace, &key);
    assert(k@ =~= proposal_key(id));
    k
}

} // verus!
