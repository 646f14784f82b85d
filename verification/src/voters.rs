//! The voters of one proposal: each address with its standing, kept in
//! ascending order of address, as the contract's storage yields them.
use vstd::prelude::*;
use vstd::string::*;
use crate::state::VoterStatus;

verus! {

/// Strict lexicographic order on texts, character by character.
pub open spec fn text_lt(a: Seq<char>, b: Seq<char>) -> bool
    decreases a.len(),
{
    if a.len() == 0 {
        b.len() > 0
    } else if b.len() == 0 {
        false
    } else if a[0] != b[0] {
        (a[0] as int) < (b[0] as int)
    } else {
        text_lt(a.drop_first(), b.drop_first())
    }
}

/// No text is below itself.
pub proof fn lemma_text_lt_irreflexive(a: Seq<char>)
    ensures
        !text_lt(a, a),
    decreases a.len(),
{
    if a.len() > 0 {
        lemma_text_lt_irreflexive(a.drop_first());
    }
}

/// Of two different texts, one is below the other, and not both.
pub proof fn lemma_text_lt_total(a: Seq<char>, b: Seq<char>)
    ensures
        a != b ==> (text_lt(a, b) || text_lt(b, a)),
        !(text_lt(a, b) && text_lt(b, a)),
    decreases a.len(),
{
    if a.len() > 0 && b.len() > 0 {
        if a[0] == b[0] {
            lemma_text_lt_total(a.drop_first(), b.drop_first());
            if a != b {
                assert(a =~= seq![a[0]] + a.drop_first());
                assert(b =~= seq![b[0]] + b.drop_first());
            }
        } else {
        }
    } else if a.len() == 0 && b.len() == 0 {
        assert(a =~= b);
    }
}

/// The order is transitive.
pub proof fn lemma_text_lt_transitive(a: Seq<char>, b: Seq<char>, c: Seq<char>)
    requires
        text_lt(a, b),
        text_lt(b, c),
    ensures
        text_lt(a, c),
    decreases a.len(),
{
    if a.len() > 0 && b.len() > 0 && c.len() > 0 {
        if a[0] == b[0] && b[0] == c[0] {
            lemma_text_lt_transitive(a.drop_first(), b.drop_first(), c.drop_first());
        } else {
        }
    }
}

/// Whether `a` comes strictly before `b`.
pub fn text_less(a: &String, b: &String) -> (r: bool)
    ensures
        r == text_lt(a@, b@),
{
    let sa = a.as_str();
    let sb = b.as_str();
    let la = sa.unicode_len();
    let lb = sb.unicode_len();
    let mut i: usize = 0;
    assert(a@.skip(0) =~= a@);
    assert(b@.skip(0) =~= b@);
    while i < la && i < lb
        invariant
            la == a@.len(),
            lb == b@.len(),
            sa@ == a@,
            sb@ == b@,
            i <= la,
            i <= lb,
            text_lt(a@, b@) == text_lt(a@.skip(i as int), b@.skip(i as int)),
        decreases la - i,
    {
        let ca = sa.get_char(i);
        let cb = sb.get_char(i);
        assert(a@.skip(i as int)[0] == ca);
        assert(b@.skip(i as int)[0] == cb);
        if ca != cb {
            return (ca as u32) < (cb as u32);
        }
        assert(a@.skip(i as int).drop_first() =~= a@.skip(i + 1));
        assert(b@.skip(i as int).drop_first() =~= b@.skip(i + 1));
        i = i + 1;
    }
    la < lb
}

/// A listing of addresses with their standing.
pub type Listing = Seq<(Seq<char>, VoterStatus)>;

/// Whether `k` is an address of the listing.
pub open spec fn has_key(l: Listing, k: Seq<char>) -> bool {
    exists|i: int| 0 <= i < l.len() && #[trigger] l[i].0 == k
}

/// The listing as a map from address to standing.
pub open spec fn listing_map(l: Listing) -> Map<Seq<char>, VoterStatus> {
    Map::new(
        |k: Seq<char>| has_key(l, k),
        |k: Seq<char>| l[choose|i: int| 0 <= i < l.len() && #[trigger] l[i].0 == k].1,
    )
}

/// The addresses of the listing are in strictly ascending order.
pub open spec fn ascending_keys(l: Listing) -> bool {
    forall|i: int, j: int| 0 <= i < j < l.len() ==> text_lt(#[trigger] l[i].0, #[trigger] l[j].0)
}

/// The addresses of a listing, in order.
pub open spec fn keys(l: Listing) -> Seq<Seq<char>> {
    l.map_values(|p: (Seq<char>, VoterStatus)| p.0)
}

/// The number of addresses that have standing `st`.
pub open spec fn count_of(m: Map<Seq<char>, VoterStatus>, st: VoterStatus) -> nat {
    with_status(m, st).len()
}

/// The addresses that have standing `st`.
pub open spec fn with_status(m: Map<Seq<char>, VoterStatus>, st: VoterStatus) -> Set<Seq<char>> {
    m.dom().filter(|k: Seq<char>| m[k] == st)
}

/// In an ascending listing, entry `i` is what the map holds for its address.
pub proof fn lemma_listing_lookup(l: Listing, i: int)
    requires
        ascending_keys(l),
        0 <= i < l.len(),
    ensures
        listing_map(l).dom().contains(l[i].0),
        listing_map(l)[l[i].0] == l[i].1,
{
    assert(has_key(l, l[i].0));
    let j = choose|j: int| 0 <= j < l.len() && #[trigger] l[j].0 == l[i].0;
    if j < i {
        lemma_text_lt_irreflexive(l[i].0);
        assert(text_lt(l[j].0, l[i].0));
    } else if i < j {
        lemma_text_lt_irreflexive(l[i].0);
        assert(text_lt(l[i].0, l[j].0));
    }
}

/// The map of an ascending listing has as many addresses as the listing has
/// entries.
pub proof fn lemma_listing_len(l: Listing)
    requires
        ascending_keys(l),
    ensures
        listing_map(l).dom() == keys(l).to_set(),
        listing_map(l).dom().finite(),
        listing_map(l).dom().len() == l.len(),
{
    let ks = keys(l);
    assert forall|k: Seq<char>| listing_map(l).dom().contains(k) <==> ks.to_set().contains(k) by {
        if listing_map(l).dom().contains(k) {
            let i = choose|i: int| 0 <= i < l.len() && #[trigger] l[i].0 == k;
            assert(ks[i] == k);
        }
        if ks.to_set().contains(k) {
            let i = choose|i: int| 0 <= i < ks.len() && ks[i] == k;
            assert(l[i].0 == k);
        }
    }
    assert(listing_map(l).dom() =~= ks.to_set());
    vstd::seq_lib::seq_to_set_is_finite(ks);
    assert forall|i: int, j: int| 0 <= i < ks.len() && 0 <= j < ks.len() && i != j implies ks[i]
        != ks[j] by {
        lemma_text_lt_irreflexive(ks[i]);
        if i < j {
            assert(text_lt(l[i].0, l[j].0));
        } else {
            assert(text_lt(l[j].0, l[i].0));
        }
    }
    ks.unique_seq_to_set();
}

/// Changing the standing of the entry at `p` changes the map at its address.
proof fn lemma_listing_update(l: Listing, p: int, v: VoterStatus)
    requires
        ascending_keys(l),
        0 <= p < l.len(),
    ensures
        ascending_keys(l.update(p, (l[p].0, v))),
        listing_map(l.update(p, (l[p].0, v))) == listing_map(l).insert(l[p].0, v),
{
    let l2 = l.update(p, (l[p].0, v));
    assert(ascending_keys(l2));
    let m = listing_map(l);
    let m2 = listing_map(l2);
    assert forall|k: Seq<char>| #[trigger] m2.dom().contains(k) <==> m.insert(l[p].0, v).dom().contains(k) by {
        if has_key(l2, k) {
            let i = choose|i: int| 0 <= i < l2.len() && #[trigger] l2[i].0 == k;
            assert(l[i].0 == k);
        }
        if has_key(l, k) {
            let i = choose|i: int| 0 <= i < l.len() && #[trigger] l[i].0 == k;
            assert(l2[i].0 == k);
        }
    }
    assert forall|k: Seq<char>| #[trigger] m2.dom().contains(k) implies m2[k] == m.insert(l[p].0, v)[k] by {
        let i = choose|i: int| 0 <= i < l2.len() && #[trigger] l2[i].0 == k;
        lemma_listing_lookup(l2, i);
        lemma_listing_lookup(l, i);
        if k == l[p].0 && i != p {
            lemma_text_lt_irreflexive(k);
            if i < p {
                assert(text_lt(l[i].0, l[p].0));
            } else {
                assert(text_lt(l[p].0, l[i].0));
            }
        }
    }
    assert(m2 =~= m.insert(l[p].0, v));
}

/// Inserting an entry at its place in the order adds its address to the map.
proof fn lemma_listing_insert(l: Listing, p: int, k0: Seq<char>, v: VoterStatus)
    requires
        ascending_keys(l),
        0 <= p <= l.len(),
        forall|j: int| 0 <= j < p ==> text_lt(#[trigger] l[j].0, k0),
        forall|j: int| p <= j < l.len() ==> text_lt(k0, #[trigger] l[j].0),
    ensures
        ascending_keys(l.insert(p, (k0, v))),
        !listing_map(l).dom().contains(k0),
        listing_map(l.insert(p, (k0, v))) == listing_map(l).insert(k0, v),
{
    let l2 = l.insert(p, (k0, v));
    assert forall|i: int, j: int| 0 <= i < j < l2.len() implies text_lt(#[trigger] l2[i].0, #[trigger] l2[j].0) by {
        if i < p && j < p {
            assert(l2[i] == l[i] && l2[j] == l[j]);
        } else if i < p && j == p {
        } else if i < p {
            assert(l2[i] == l[i] && l2[j] == l[j - 1]);
        } else if i == p {
            assert(l2[j] == l[j - 1]);
        } else {
            assert(l2[i] == l[i - 1] && l2[j] == l[j - 1]);
        }
    }
    if has_key(l, k0) {
        let i = choose|i: int| 0 <= i < l.len() && #[trigger] l[i].0 == k0;
        lemma_text_lt_irreflexive(k0);
    }
    let m = listing_map(l);
    let m2 = listing_map(l2);
    assert forall|k: Seq<char>| #[trigger] m2.dom().contains(k) <==> m.insert(k0, v).dom().contains(k) by {
        if has_key(l2, k) {
            let i = choose|i: int| 0 <= i < l2.len() && #[trigger] l2[i].0 == k;
            if i < p {
                assert(l[i].0 == k);
            } else if i > p {
                assert(l[i - 1].0 == k);
            }
        }
        if has_key(l, k) {
            let i = choose|i: int| 0 <= i < l.len() && #[trigger] l[i].0 == k;
            if i < p {
                assert(l2[i].0 == k);
            } else {
                assert(l2[i + 1].0 == k);
            }
        }
        if k == k0 {
            assert(l2[p].0 == k);
        }
    }
    assert forall|k: Seq<char>| #[trigger] m2.dom().contains(k) implies m2[k] == m.insert(k0, v)[k] by {
        let i = choose|i: int| 0 <= i < l2.len() && #[trigger] l2[i].0 == k;
        lemma_listing_lookup(l2, i);
        if i < p {
            lemma_listing_lookup(l, i);
        } else if i > p {
            lemma_listing_lookup(l, i - 1);
        }
    }
    assert(m2 =~= m.insert(k0, v));
}

/// Removing the entry at `p` removes its address from the map.
proof fn lemma_listing_remove(l: Listing, p: int)
    requires
        ascending_keys(l),
        0 <= p < l.len(),
    ensures
        ascending_keys(l.remove(p)),
        listing_map(l.remove(p)) == listing_map(l).remove(l[p].0),
{
    let l2 = l.remove(p);
    let k0 = l[p].0;
    assert forall|i: int, j: int| 0 <= i < j < l2.len() implies text_lt(#[trigger] l2[i].0, #[trigger] l2[j].0) by {
        if j < p {
            assert(l2[i] == l[i] && l2[j] == l[j]);
        } else if i < p {
            assert(l2[i] == l[i] && l2[j] == l[j + 1]);
        } else {
            assert(l2[i] == l[i + 1] && l2[j] == l[j + 1]);
        }
    }
    let m = listing_map(l);
    let m2 = listing_map(l2);
    lemma_text_lt_irreflexive(k0);
    assert forall|k: Seq<char>| #[trigger] m2.dom().contains(k) <==> m.remove(k0).dom().contains(k) by {
        if has_key(l2, k) {
            let i = choose|i: int| 0 <= i < l2.len() && #[trigger] l2[i].0 == k;
            if i < p {
                assert(l[i].0 == k);
                assert(text_lt(l[i].0, k0));
            } else {
                assert(l[i + 1].0 == k);
                assert(text_lt(k0, l[i + 1].0));
            }
        }
        if has_key(l, k) && k != k0 {
            let i = choose|i: int| 0 <= i < l.len() && #[trigger] l[i].0 == k;
            if i < p {
                assert(l2[i].0 == k);
            } else {
                assert(l2[i - 1].0 == k);
            }
        }
    }
    assert forall|k: Seq<char>| #[trigger] m2.dom().contains(k) implies m2[k] == m.remove(k0)[k] by {
        let i = choose|i: int| 0 <= i < l2.len() && #[trigger] l2[i].0 == k;
        lemma_listing_lookup(l2, i);
        if i < p {
            lemma_listing_lookup(l, i);
        } else {
            lemma_listing_lookup(l, i + 1);
        }
    }
    assert(m2 =~= m.remove(k0));
}

/// The number of entries of the listing with standing `st`.
pub open spec fn listing_count(l: Listing, st: VoterStatus) -> nat
    decreases l.len(),
{
    if l.len() == 0 {
        0
    } else {
        listing_count(l.drop_last(), st) + (if l.last().1 == st {
            1nat
        } else {
            0nat
        })
    }
}

/// The addresses of the entries with standing `st`, in listing order.
pub open spec fn addresses_with(l: Listing, st: VoterStatus) -> Seq<Seq<char>>
    decreases l.len(),
{
    if l.len() == 0 {
        Seq::empty()
    } else {
        addresses_with(l.drop_last(), st) + (if l.last().1 == st {
            seq![l.last().0]
        } else {
            Seq::empty()
        })
    }
}

/// Counting the entries of an ascending listing with a standing is counting
/// the addresses of its map with that standing.
pub proof fn lemma_listing_count(l: Listing, st: VoterStatus)
    requires
        ascending_keys(l),
    ensures
        listing_count(l, st) == count_of(listing_map(l), st),
        count_of(listing_map(l), st) <= l.len(),
    decreases l.len(),
{
    let m = listing_map(l);
    lemma_listing_len(l);
    vstd::set_lib::lemma_len_subset(with_status(m, st), m.dom());
    if l.len() == 0 {
        assert(with_status(m, st) =~= Set::empty());
    } else {
        let l0 = l.drop_last();
        let last = l.last();
        assert(ascending_keys(l0));
        lemma_listing_count(l0, st);
        lemma_listing_insert(l0, l0.len() as int, last.0, last.1);
        assert(l0.insert(l0.len() as int, last) =~= l);
        let m0 = listing_map(l0);
        lemma_listing_len(l0);
        vstd::set_lib::lemma_len_subset(with_status(m0, st), m0.dom());
        let f0 = with_status(m0, st);
        let f = with_status(m, st);
        if last.1 == st {
            assert(f =~= f0.insert(last.0));
        } else {
            assert(f =~= f0);
        }
    }
}

/// An address with its standing.
#[derive(Clone, Debug, PartialEq, Eq)]
pub struct VoterEntry {
    pub addr: String,
    pub status: VoterStatus,
}

/// The voters of one proposal, in ascending order of address.
pub struct VoterTable {
    entries: Vec<VoterEntry>,
}

impl VoterTable {
    #[verifier::type_invariant]
    spec fn ordered(self) -> bool {
        ascending_keys(self.entries@.map_values(|e: VoterEntry| (e.addr@, e.status)))
    }

    /// The entries, as plain values, in ascending order of address.
    pub closed spec fn listing(&self) -> Listing {
        self.entries@.map_values(|e: VoterEntry| (e.addr@, e.status))
    }

    /// A table with no voters.
    pub fn new() -> (t: VoterTable)
        ensures
            t.listing() == Seq::<(Seq<char>, VoterStatus)>::empty(),
            t@ == Map::<Seq<char>, VoterStatus>::empty(),
    {
        let t = VoterTable { entries: Vec::new() };
        assert(t.listing() =~= Seq::<(Seq<char>, VoterStatus)>::empty());
        assert(listing_map(t.listing()) =~= Map::<Seq<char>, VoterStatus>::empty());
        t
    }

    /// A table holds no more voters than the machine's word can count.
    pub proof fn lemma_size(&self)
        ensures
            self.listing().len() <= usize::MAX,
    {
        assert(self.entries@.len() == self.entries.len());
    }

    /// The listing of the table is in ascending order of address.
    pub fn check_ordered(&self)
        ensures
            ascending_keys(self.listing()),
    {
        proof {
            use_type_invariant(self);
        }
    }

    /// The number of voters.
    pub fn len(&self) -> (n: usize)
        ensures
            n == self.listing().len(),
    {
        self.entries.len()
    }

    /// The entry at position `i` in ascending order of address.
    pub fn entry(&self, i: usize) -> (e: &VoterEntry)
        requires
            i < self.listing().len(),
        ensures
            (e.addr@, e.status) == self.listing()[i as int],
    {
        &self.entries[i]
    }

    /// A copy of the table.
    pub fn duplicate(&self) -> (t: VoterTable)
        ensures
            t.listing() == self.listing(),
            t@ == self@,
    {
        proof {
            use_type_invariant(self);
        }
        let n = self.entries.len();
        let mut es: Vec<VoterEntry> = Vec::new();
        let mut i: usize = 0;
        while i < n
            invariant
                n == self.entries.len(),
                i <= n,
                es@.map_values(|e: VoterEntry| (e.addr@, e.status)) =~= self.listing().take(i as int),
            decreases n - i,
        {
            let e = &self.entries[i];
            let ghost before = es@;
            es.push(VoterEntry { addr: e.addr.clone(), status: e.status });
            proof {
                assert(self.listing().take(i + 1) =~= self.listing().take(i as int).push(
                    self.listing()[i as int],
                ));
                assert(es@ =~= before.push(es@[i as int]));
            }
            i = i + 1;
        }
        let t = VoterTable { entries: es };
        assert(t.listing() =~= self.listing());
        t
    }

    /// The number of voters with standing `st`.
    pub fn count_with(&self, st: VoterStatus) -> (c: u64)
        ensures
            c == count_of(self@, st),
            c == listing_count(self.listing(), st),
    {
        proof {
            use_type_invariant(self);
            lemma_listing_count(self.listing(), st);
        }
        let n = self.entries.len();
        let mut c: u64 = 0;
        let mut i: usize = 0;
        while i < n
            invariant
                n == self.entries.len(),
                i <= n,
                c == listing_count(self.listing().take(i as int), st),
                c <= i,
            decreases n - i,
        {
            proof {
                assert(self.listing().take(i + 1).drop_last() =~= self.listing().take(i as int));
            }
            if self.entries[i].status == st {
                c = c + 1;
            }
            i = i + 1;
        }
        assert(self.listing().take(n as int) =~= self.listing());
        c
    }

    /// The addresses of the voters with standing `st`, in ascending order.
    pub fn addresses_with(&self, st: VoterStatus) -> (v: Vec<String>)
        ensures
            v@.map_values(|s: String| s@) == addresses_with(self.listing(), st),
    {
        let n = self.entries.len();
        let mut v: Vec<String> = Vec::new();
        let mut i: usize = 0;
        while i < n
            invariant
                n == self.entries.len(),
                i <= n,
                v@.map_values(|s: String| s@) =~= addresses_with(self.listing().take(i as int), st),
            decreases n - i,
        {
            proof {
                assert(self.listing().take(i + 1).drop_last() =~= self.listing().take(i as int));
            }
            if self.entries[i].status == st {
                v.push(self.entries[i].addr.clone());
            }
            i = i + 1;
        }
        assert(self.listing().take(n as int) =~= self.listing());
        v
    }

    /// The position at which `addr` stands or would stand, and whether it is there.
    fn find(&self, addr: &String) -> (r: (usize, bool))
        ensures
            r.0 <= self.listing().len(),
            forall|j: int| 0 <= j < r.0 ==> text_lt(#[trigger] self.listing()[j].0, addr@),
            r.1 ==> r.0 < self.listing().len() && self.listing()[r.0 as int].0 == addr@,
            !r.1 ==> forall|j: int|
                r.0 <= j < self.listing().len() ==> text_lt(addr@, #[trigger] self.listing()[j].0),
    {
        proof {
            use_type_invariant(self);
        }
        let ghost l = self.listing();
        let n = self.entries.len();
        let mut i: usize = 0;
        while i < n && text_less(&self.entries[i].addr, addr)
            invariant
                n == l.len(),
                l == self.listing(),
                i <= n,
                forall|j: int| 0 <= j < i ==> text_lt(#[trigger] l[j].0, addr@),
            decreases n - i,
        {
            i = i + 1;
        }
        if i < n {
            let found = self.entries[i].addr == *addr;
            proof {
                if !found {
                    lemma_text_lt_total(l[i as int].0, addr@);
                    assert forall|j: int| i <= j < l.len() implies text_lt(addr@, #[trigger] l[j].0) by {
                        if j > i {
                            lemma_text_lt_transitive(addr@, l[i as int].0, l[j].0);
                        }
                    }
                }
            }
            (i, found)
        } else {
            (i, false)
        }
    }

    /// The standing of `addr`, if it is in the table.
    pub fn get(&self, addr: &String) -> (r: Option<VoterStatus>)
        ensures
            r == (if self@.dom().contains(addr@) {
                Some(self@[addr@])
            } else {
                None::<VoterStatus>
            }),
    {
        proof {
            use_type_invariant(self);
        }
        let (p, found) = self.find(addr);
        if found {
            proof {
                lemma_listing_lookup(self.listing(), p as int);
            }
            Some(self.entries[p].status)
        } else {
            proof {
                if has_key(self.listing(), addr@) {
                    let i = choose|i: int|
                        0 <= i < self.listing().len() && #[trigger] self.listing()[i].0 == addr@;
                    lemma_text_lt_irreflexive(addr@);
                }
            }
            None
        }
    }

    /// Gives `addr` the standing `status`, adding it where it is missing.
    pub fn set(&mut self, addr: String, status: VoterStatus)
        ensures
            final(self)@ == old(self)@.insert(addr@, status),
            ascending_keys(final(self).listing()),
    {
        proof {
            use_type_invariant(&*self);
        }
        let ghost l = self.listing();
        let (p, found) = self.find(&addr);
        if found {
            proof {
                lemma_listing_update(l, p as int, status);
            }
            let mut es: Vec<VoterEntry> = Vec::new();
            std::mem::swap(&mut es, &mut self.entries);
            es.set(p, VoterEntry { addr, status });
            let ghost l2 = es@.map_values(|e: VoterEntry| (e.addr@, e.status));
            assert(l2 =~= l.update(p as int, (l[p as int].0, status)));
            self.entries = es;
        } else {
            proof {
                lemma_listing_insert(l, p as int, addr@, status);
            }
            let ghost k = addr@;
            let mut es: Vec<VoterEntry> = Vec::new();
            std::mem::swap(&mut es, &mut self.entries);
            es.insert(p, VoterEntry { addr, status });
            let ghost l2 = es@.map_values(|e: VoterEntry| (e.addr@, e.status));
            assert(l2 =~= l.insert(p as int, (k, status)));
            self.entries = es;
        }
    }

    /// Takes `addr` out of the table, if it is there.
    pub fn remove(&mut self, addr: &String)
        ensures
            final(self)@ == old(self)@.remove(addr@),
            ascending_keys(final(self).listing()),
    {
        proof {
            use_type_invariant(&*self);
        }
        let ghost l = self.listing();
        let (p, found) = self.find(addr);
        if found {
            proof {
                lemma_listing_remove(l, p as int);
            }
            let mut es: Vec<VoterEntry> = Vec::new();
            std::mem::swap(&mut es, &mut self.entries);
            es.remove(p);
            let ghost l2 = es@.map_values(|e: VoterEntry| (e.addr@, e.status));
            assert(l2 =~= l.remove(p as int));
            self.entries = es;
        } else {
            proof {
                if has_key(l, addr@) {
                    let i = choose|i: int| 0 <= i < l.len() && #[trigger] l[i].0 == addr@;
                    lemma_text_lt_irreflexive(addr@);
                }
                assert(listing_map(l).remove(addr@) =~= listing_map(l));
            }
        }
    }
}

impl View for VoterTable {
    type V = Map<Seq<char>, VoterStatus>;

    open spec fn view(&self) -> Map<Seq<char>, VoterStatus> {
        listing_map(self.listing())
    }
}

} // verus!
