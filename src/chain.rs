//! Chain identifiers, the families they belong to, and sets of chains.
use vstd::prelude::*;
use crate::codec::comma_free;
use crate::order::{lemma_sorted_insert, lemma_sorted_unique, sorted_by, strict_total};
use vstd::string::*;

verus! {

/// A supported blockchain network.
#[allow(non_camel_case_types)]
#[derive(Clone, Copy, Debug, PartialEq, Eq, Structural, Hash)]
pub enum ChainId {
    ETH,
    BASE,
    ARBITRUM,
    BSC,
    BTC,
    FUEL,
    MOVEMENT,
}

/// Disjoint partition of the supported chains by execution model.
#[derive(Clone, Copy, Debug, PartialEq, Eq, Structural)]
pub enum ChainFamily {
    Evm,
    Utxo,
    ResourceVm,
    AltVm,
}

pub open spec fn family_of(c: ChainId) -> ChainFamily {
    match c {
        ChainId::ETH | ChainId::BASE | ChainId::ARBITRUM | ChainId::BSC => ChainFamily::Evm,
        ChainId::BTC => ChainFamily::Utxo,
        ChainId::MOVEMENT => ChainFamily::ResourceVm,
        ChainId::FUEL => ChainFamily::AltVm,
    }
}

/// Every chain of a family.
pub open spec fn family_chains(f: ChainFamily) -> Set<ChainId> {
    Set::new(|c: ChainId| family_of(c) == f)
}

/// The wire token of a chain, as used in query parameters.
pub open spec fn chain_token(c: ChainId) -> Seq<char> {
    match c {
        ChainId::ETH => seq!['e', 't', 'h'],
        ChainId::BASE => seq!['b', 'a', 's', 'e'],
        ChainId::ARBITRUM => seq!['a', 'r', 'b', 'i', 't', 'r', 'u', 'm'],
        ChainId::BSC => seq!['b', 's', 'c'],
        ChainId::BTC => seq!['b', 't', 'c'],
        ChainId::FUEL => seq!['f', 'u', 'e', 'l'],
        ChainId::MOVEMENT => seq!['m', 'o', 'v', 'e', 'm', 'e', 'n', 't'],
    }
}

/// The chain whose token is `t`, if any.
pub open spec fn parse_chain_token(t: Seq<char>) -> Option<ChainId> {
    if t == chain_token(ChainId::ETH) {
        Some(ChainId::ETH)
    } else if t == chain_token(ChainId::BASE) {
        Some(ChainId::BASE)
    } else if t == chain_token(ChainId::ARBITRUM) {
        Some(ChainId::ARBITRUM)
    } else if t == chain_token(ChainId::BSC) {
        Some(ChainId::BSC)
    } else if t == chain_token(ChainId::BTC) {
        Some(ChainId::BTC)
    } else if t == chain_token(ChainId::FUEL) {
        Some(ChainId::FUEL)
    } else if t == chain_token(ChainId::MOVEMENT) {
        Some(ChainId::MOVEMENT)
    } else {
        None
    }
}

/// Parsing a chain's token gives that chain back.
pub proof fn lemma_parse_chain_token(c: ChainId)
    ensures
        parse_chain_token(chain_token(c)) == Some(c),
        comma_free(chain_token(c)),
        chain_token(c).len() > 0,
{
    match c {
        ChainId::ETH => {},
        ChainId::BASE => {
            assert(chain_token(c) != chain_token(ChainId::ETH));
        },
        ChainId::ARBITRUM => {
            assert(chain_token(c) != chain_token(ChainId::ETH));
            assert(chain_token(c)[0] != chain_token(ChainId::BASE)[0]);
            assert(chain_token(c) != chain_token(ChainId::BASE));
            assert(chain_token(c) != chain_token(ChainId::BSC));
            assert(chain_token(c) != chain_token(ChainId::BTC));
        },
        ChainId::BSC => {
            assert(chain_token(c)[0] != chain_token(ChainId::ETH)[0]);
            assert(chain_token(c).len() != chain_token(ChainId::BASE).len());
            assert(chain_token(c).len() != chain_token(ChainId::ARBITRUM).len());
        },
        ChainId::BTC => {
            assert(chain_token(c)[0] != chain_token(ChainId::ETH)[0]);
            assert(chain_token(c).len() != chain_token(ChainId::BASE).len());
            assert(chain_token(c).len() != chain_token(ChainId::ARBITRUM).len());
            assert(chain_token(c)[1] != chain_token(ChainId::BSC)[1]);
        },
        ChainId::FUEL => {
            assert(chain_token(c)[0] != chain_token(ChainId::ETH)[0]);
            assert(chain_token(c)[0] != chain_token(ChainId::BASE)[0]);
            assert(chain_token(c)[0] != chain_token(ChainId::ARBITRUM)[0]);
            assert(chain_token(c)[0] != chain_token(ChainId::BSC)[0]);
            assert(chain_token(c)[0] != chain_token(ChainId::BTC)[0]);
        },
        ChainId::MOVEMENT => {
            assert(chain_token(c)[0] != chain_token(ChainId::ETH)[0]);
            assert(chain_token(c)[0] != chain_token(ChainId::BASE)[0]);
            assert(chain_token(c)[0] != chain_token(ChainId::ARBITRUM)[0]);
            assert(chain_token(c)[0] != chain_token(ChainId::BSC)[0]);
            assert(chain_token(c)[0] != chain_token(ChainId::BTC)[0]);
            assert(chain_token(c)[0] != chain_token(ChainId::FUEL)[0]);
        },
    }
}

impl ChainId {
    /// The family this chain belongs to.
    pub fn family(&self) -> (r: ChainFamily)
        ensures
            r == family_of(*self),
    {
        match self {
            ChainId::ETH | ChainId::BASE | ChainId::ARBITRUM | ChainId::BSC => ChainFamily::Evm,
            ChainId::BTC => ChainFamily::Utxo,
            ChainId::MOVEMENT => ChainFamily::ResourceVm,
            ChainId::FUEL => ChainFamily::AltVm,
        }
    }
}


impl ChainId {
    /// The wire token of this chain.
    pub fn as_str(&self) -> (r: &'static str)
        ensures
            r@ == chain_token(*self),
    {
        match self {
            ChainId::ETH => {
                proof { reveal_strlit("eth"); }
                "eth"
            },
            ChainId::BASE => {
                proof { reveal_strlit("base"); }
                "base"
            },
            ChainId::ARBITRUM => {
                proof { reveal_strlit("arbitrum"); }
                "arbitrum"
            },
            ChainId::BSC => {
                proof { reveal_strlit("bsc"); }
                "bsc"
            },
            ChainId::BTC => {
                proof { reveal_strlit("btc"); }
                "btc"
            },
            ChainId::FUEL => {
                proof { reveal_strlit("fuel"); }
                "fuel"
            },
            ChainId::MOVEMENT => {
                proof { reveal_strlit("movement"); }
                "movement"
            },
        }
    }
}

/// Whether the characters of `t` are exactly those of `s`.
fn chars_match(t: &Vec<char>, s: &str) -> (r: bool)
    ensures
        r == (t@ == s@),
{
    let n = s.unicode_len();
    if t.len() != n {
        return false;
    }
    let mut i: usize = 0;
    while i < n
        invariant
            n == s@.len(),
            t@.len() == n,
            i <= n,
            forall|j: int| 0 <= j < i ==> t@[j] == s@[j],
        decreases n - i,
    {
        if t[i] != s.get_char(i) {
            return false;
        }
        i += 1;
    }
    assert(t@ =~= s@);
    true
}

/// The chain whose token is exactly `t`, if any.
pub fn parse_chain(t: &Vec<char>) -> (r: Option<ChainId>)
    ensures
        r == parse_chain_token(t@),
{
    if chars_match(t, ChainId::ETH.as_str()) {
        Some(ChainId::ETH)
    } else if chars_match(t, ChainId::BASE.as_str()) {
        Some(ChainId::BASE)
    } else if chars_match(t, ChainId::ARBITRUM.as_str()) {
        Some(ChainId::ARBITRUM)
    } else if chars_match(t, ChainId::BSC.as_str()) {
        Some(ChainId::BSC)
    } else if chars_match(t, ChainId::BTC.as_str()) {
        Some(ChainId::BTC)
    } else if chars_match(t, ChainId::FUEL.as_str()) {
        Some(ChainId::FUEL)
    } else if chars_match(t, ChainId::MOVEMENT.as_str()) {
        Some(ChainId::MOVEMENT)
    } else {
        None
    }
}

/// The position of a chain in declaration order.
pub open spec fn chain_rank(c: ChainId) -> int {
    match c {
        ChainId::ETH => 0,
        ChainId::BASE => 1,
        ChainId::ARBITRUM => 2,
        ChainId::BSC => 3,
        ChainId::BTC => 4,
        ChainId::FUEL => 5,
        ChainId::MOVEMENT => 6,
    }
}

/// Chains ordered as declared.
pub open spec fn chain_lt() -> spec_fn(ChainId, ChainId) -> bool {
    |x: ChainId, y: ChainId| chain_rank(x) < chain_rank(y)
}

pub proof fn lemma_chain_lt_total()
    ensures
        strict_total(chain_lt()),
{
}

impl ChainId {
    /// The position of this chain in declaration order.
    pub fn rank(&self) -> (r: u8)
        ensures
            r as int == chain_rank(*self),
    {
        match self {
            ChainId::ETH => 0,
            ChainId::BASE => 1,
            ChainId::ARBITRUM => 2,
            ChainId::BSC => 3,
            ChainId::BTC => 4,
            ChainId::FUEL => 5,
            ChainId::MOVEMENT => 6,
        }
    }
}

/// A set of chains, kept in declaration order without repeats, so that equal
/// sets hold the same list.
#[derive(Clone, Debug)]
pub struct ChainSet {
    pub chains: Vec<ChainId>,
}

impl View for ChainSet {
    type V = Set<ChainId>;

    open spec fn view(&self) -> Set<ChainId> {
        self.chains@.to_set()
    }
}

impl ChainSet {
    /// No chain is listed twice.
    pub open spec fn wf(&self) -> bool {
        sorted_by(self.chains@, chain_lt())
    }

    /// The empty set.
    pub fn new() -> (r: ChainSet)
        ensures
            r.wf(),
            r@ == Set::<ChainId>::empty(),
            r.chains@ == Seq::<ChainId>::empty(),
    {
        let r = ChainSet { chains: Vec::new() };
        assert(r@ =~= Set::<ChainId>::empty());
        r
    }

    /// The set that holds `c` alone.
    pub fn singleton(c: ChainId) -> (r: ChainSet)
        ensures
            r.wf(),
            r@ == set![c],
            r.chains@ == seq![c],
    {
        let mut v: Vec<ChainId> = Vec::new();
        v.push(c);
        let r = ChainSet { chains: v };
        assert(r.chains@ =~= seq![c]);
        assert(r@ =~= set![c]) by {
            assert(r.chains@[0] == c);
        }
        r
    }

    /// Whether `c` is in the set.
    pub fn contains(&self, c: ChainId) -> (r: bool)
        ensures
            r == self@.contains(c),
    {
        let mut i: usize = 0;
        while i < self.chains.len()
            invariant
                i <= self.chains@.len(),
                forall|j: int| 0 <= j < i ==> self.chains@[j] != c,
            decreases self.chains@.len() - i,
        {
            if self.chains[i] == c {
                assert(self.chains@.contains(c));
                return true;
            }
            i += 1;
        }
        assert(!self.chains@.contains(c));
        false
    }

    /// Adds `c` at its place in declaration order; returns whether it was new.
    pub fn insert(&mut self, c: ChainId) -> (r: bool)
        requires
            old(self).wf(),
        ensures
            final(self).wf(),
            final(self)@ == old(self)@.insert(c),
            r == !old(self)@.contains(c),
    {
        let k = c.rank();
        let mut i: usize = 0;
        while i < self.chains.len() && self.chains[i].rank() < k
            invariant
                self.wf(),
                k as int == chain_rank(c),
                i <= self.chains@.len(),
                forall|j: int| 0 <= j < i ==> chain_rank(#[trigger] self.chains@[j]) < chain_rank(c),
            decreases self.chains@.len() - i,
        {
            i += 1;
        }
        proof { lemma_chain_lt_total(); }
        if i < self.chains.len() && self.chains[i] == c {
            assert(self@.contains(c));
            assert(self@.insert(c) =~= self@);
            return false;
        }
        let ghost before = self.chains@;
        assert(!before.to_set().contains(c)) by {
            if before.to_set().contains(c) {
                let j = choose|j: int| 0 <= j < before.len() && before[j] == c;
                if j > i {
                    assert(chain_lt()(before[i as int], before[j]));
                }
            }
        }
        proof { lemma_sorted_insert(before, i as int, c, chain_lt()); }
        self.chains.insert(i, c);
        true
    }

    /// Whether the set is empty.
    pub fn is_empty(&self) -> (r: bool)
        ensures
            r == (self@ == Set::<ChainId>::empty()),
    {
        if self.chains.len() == 0 {
            assert(self@ =~= Set::<ChainId>::empty());
            true
        } else {
            assert(self@.contains(self.chains@[0]));
            false
        }
    }

    /// Whether every chain of the set belongs to family `f`.
    pub fn is_within(&self, f: ChainFamily) -> (r: bool)
        ensures
            r == self@.subset_of(family_chains(f)),
    {
        let mut i: usize = 0;
        while i < self.chains.len()
            invariant
                i <= self.chains@.len(),
                forall|j: int| 0 <= j < i ==> family_of(#[trigger] self.chains@[j]) == f,
            decreases self.chains@.len() - i,
        {
            if self.chains[i].family() != f {
                assert(self@.contains(self.chains@[i as int]));
                assert(!family_chains(f).contains(self.chains@[i as int]));
                return false;
            }
            i += 1;
        }
        assert forall|c: ChainId| self@.contains(c) implies family_chains(f).contains(c) by {
            let j = choose|j: int| 0 <= j < self.chains@.len() && self.chains@[j] == c;
            assert(family_of(self.chains@[j]) == f);
        }
        true
    }
}


/// Two well-formed chain sets with the same chains hold the same list, so
/// they are sent as the same text.
pub proof fn lemma_equal_chain_sets(a: ChainSet, b: ChainSet)
    requires
        a.wf(),
        b.wf(),
        a@ == b@,
    ensures
        a.chains@ == b.chains@,
        crate::codec::encode_chains_spec(a.chains@) == crate::codec::encode_chains_spec(b.chains@),
{
    lemma_chain_lt_total();
    lemma_sorted_unique(a.chains@, b.chains@, chain_lt());
}

} // verus!
