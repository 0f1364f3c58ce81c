//! The delegating client: it wraps any backend and, before a query is
//! forwarded, enforces the chain scope of the query's resource family.
use vstd::prelude::*;
use crate::chain::{family_chains, family_of, ChainFamily, ChainId, ChainSet};
use crate::query::Query;
use crate::resource::{default_chain_of, family_of_resource, scope_of, ChainScope, Resource};

verus! {

/// Why a query was refused before anything was sent.
#[derive(Clone, Copy, Debug, PartialEq, Eq, Structural)]
pub enum ValidationError {
    /// The query names no chain.
    NoChains,
    /// The query names a chain that its resource family does not serve.
    UnsupportedChain(ChainId),
}

/// The first chain of `s` outside family `f`.
pub open spec fn first_outside(s: Seq<ChainId>, f: ChainFamily) -> ChainId
    decreases s.len(),
{
    if s.len() == 0 {
        ChainId::ETH
    } else if family_of(s[0]) != f {
        s[0]
    } else {
        first_outside(s.drop_first(), f)
    }
}

/// The outcome of checking a chain list against family `f`.
pub open spec fn check_chain_spec(s: Seq<ChainId>, f: ChainFamily) -> Result<(), ValidationError> {
    if s.len() == 0 {
        Err(ValidationError::NoChains)
    } else if s.to_set().subset_of(family_chains(f)) {
        Ok(())
    } else {
        Err(ValidationError::UnsupportedChain(first_outside(s, f)))
    }
}

/// The outcome of validating a query's chain list for `r`.
pub open spec fn validate_spec(r: Resource, s: Seq<ChainId>) -> Result<(), ValidationError> {
    match scope_of(family_of_resource(r)) {
        ChainScope::Within(f) => check_chain_spec(s, f),
        _ => Ok(()),
    }
}

/// `out` is what a transport sends for `r` when `q` was asked: `q` itself, or
/// for a family fixed to one chain, `q` with its chains replaced by that chain
/// alone.
pub open spec fn forwarded(r: Resource, q: Query, out: Query) -> bool {
    match scope_of(family_of_resource(r)) {
        ChainScope::Fixed(c) => out.chains.chains@ == seq![c] && out.from_block == q.from_block
            && out.to_block == q.to_block && out.filters == q.filters,
        _ => out == q,
    }
}

proof fn lemma_first_outside(s: Seq<ChainId>, f: ChainFamily)
    requires
        exists|i: int| 0 <= i < s.len() && family_of(s[i]) != f,
    ensures
        s.contains(first_outside(s, f)),
        family_of(first_outside(s, f)) != f,
    decreases s.len(),
{
    if family_of(s[0]) == f {
        let i = choose|i: int| 0 <= i < s.len() && family_of(s[i]) != f;
        assert(s.drop_first()[i - 1] == s[i]);
        lemma_first_outside(s.drop_first(), f);
        let j = choose|j: int| 0 <= j < s.drop_first().len() && s.drop_first()[j] == first_outside(s.drop_first(), f);
        assert(s[j + 1] == s.drop_first()[j]);
    } else {
        assert(s[0] == first_outside(s, f));
    }
}

/// Replaces the chains of `q` by `c` alone, keeping everything else.
pub fn with_fixed_chain(q: Query, c: ChainId) -> (r: Query)
    ensures
        r.chains.chains@ == seq![c],
        r.chains@ == set![c],
        r.chains.wf(),
        r.from_block == q.from_block,
        r.to_block == q.to_block,
        r.filters == q.filters,
{
    Query { chains: ChainSet::singleton(c), from_block: q.from_block, to_block: q.to_block, filters: q.filters }
}

/// Applies the scope of `r`'s family to `q` without checking it: a family
/// fixed to one chain gets that chain, any other query is kept.
pub fn scoped_query(r: Resource, q: Query) -> (out: Query)
    ensures
        match scope_of(family_of_resource(r)) {
            ChainScope::Fixed(c) => forwarded(r, q, out) && out.chains.wf(),
            _ => out == q,
        },
{
    match r.family().scope() {
        ChainScope::Fixed(c) => with_fixed_chain(q, c),
        _ => q,
    }
}

/// Wraps a backend and validates chain scope before each query is forwarded.
pub struct Client<T> {
    pub inner: T,
}

impl<T> Client<T> {
    /// A client over `inner`.
    pub fn new(inner: T) -> (r: Self)
        ensures
            r.inner == inner,
    {
        Client { inner }
    }

    /// Checks that `chains` is non-empty and lies within `family`.
    pub fn check_chain(&self, chains: &ChainSet, family: ChainFamily) -> (r: Result<(), ValidationError>)
        ensures
            r == check_chain_spec(chains.chains@, family),
    {
        if chains.chains.len() == 0 {
            return Err(ValidationError::NoChains);
        }
        let mut i: usize = 0;
        assert(chains.chains@.subrange(0, chains.chains@.len() as int) =~= chains.chains@);
        while i < chains.chains.len()
            invariant
                i <= chains.chains@.len(),
                forall|j: int| 0 <= j < i ==> family_of(#[trigger] chains.chains@[j]) == family,
                first_outside(chains.chains@.subrange(i as int, chains.chains@.len() as int), family)
                    == first_outside(chains.chains@, family),
            decreases chains.chains@.len() - i,
        {
            let c = chains.chains[i];
            let ghost rest = chains.chains@.subrange(i as int, chains.chains@.len() as int);
            assert(rest[0] == c);
            assert(rest.drop_first() =~= chains.chains@.subrange(i + 1, chains.chains@.len() as int));
            if c.family() != family {
                assert(first_outside(rest, family) == c);
                assert(chains.chains@.subrange(0, chains.chains@.len() as int) =~= chains.chains@);
                proof { lemma_first_outside(chains.chains@, family); }
                assert(!chains@.subset_of(family_chains(family))) by {
                    assert(chains@.contains(c));
                }
                return Err(ValidationError::UnsupportedChain(c));
            }
            i += 1;
        }
        assert(chains@.subset_of(family_chains(family))) by {
            assert forall|c: ChainId| chains@.contains(c) implies family_chains(family).contains(c) by {
                let j = choose|j: int| 0 <= j < chains.chains@.len() && chains.chains@[j] == c;
                assert(family_of(chains.chains@[j]) == family);
            }
        }
        Ok(())
    }

    /// Validates `q` for resource `r` and gives the query to forward, unchanged:
    /// for a family scoped to one chain family the chains must be non-empty
    /// and all of that family; other families are not checked here (the
    /// transports fix the UTXO family's chain themselves).
    pub fn prepare(&self, r: Resource, q: Query) -> (out: Result<Query, ValidationError>)
        ensures
            out.is_err() == validate_spec(r, q.chains.chains@).is_err(),
            out.is_err() ==> out == Err::<Query, ValidationError>(validate_spec(r, q.chains.chains@)->Err_0),
            out.is_ok() ==> out.unwrap() == q,
    {
        match r.family().scope() {
            ChainScope::Within(f) => {
                match self.check_chain(&q.chains, f) {
                    Ok(()) => Ok(q),
                    Err(e) => Err(e),
                }
            },
            _ => Ok(q),
        }
    }
}

/// A query of a family scoped to one chain family that names no chain is
/// refused, so nothing is forwarded.
pub proof fn lemma_scoped_empty_refused(r: Resource, q: Query)
    requires
        scope_of(family_of_resource(r)) is Within,
        q.chains@ == Set::<ChainId>::empty(),
    ensures
        validate_spec(r, q.chains.chains@) == Err::<(), ValidationError>(ValidationError::NoChains),
{
    if q.chains.chains@.len() > 0 {
        assert(q.chains@.contains(q.chains.chains@[0]));
    }
}

/// A query of a family scoped to one chain family that names a chain of
/// another family is refused with a chain outside the family, so nothing is
/// forwarded.
pub proof fn lemma_scoped_foreign_refused(r: Resource, q: Query, c: ChainId)
    requires
        q.chains@.contains(c),
        scope_of(family_of_resource(r)) is Within,
        family_of(c) != scope_of(family_of_resource(r))->Within_0,
    ensures
        validate_spec(r, q.chains.chains@) is Err,
        validate_spec(r, q.chains.chains@) matches Err(ValidationError::UnsupportedChain(d))
            && q.chains@.contains(d) && family_of(d) != scope_of(family_of_resource(r))->Within_0,
{
    let f = scope_of(family_of_resource(r))->Within_0;
    let s = q.chains.chains@;
    let i = choose|i: int| 0 <= i < s.len() && s[i] == c;
    assert(!family_chains(f).contains(c));
    lemma_first_outside(s, f);
}

/// A query that holds its family's default chains passes validation.
pub proof fn lemma_default_chains_valid(r: Resource)
    ensures
        validate_spec(r, seq![default_chain_of(family_of_resource(r))]) is Ok,
{
    let s = seq![default_chain_of(family_of_resource(r))];
    assert(s.to_set() =~= set![s[0]]) by {
        assert forall|c: ChainId| s.to_set().contains(c) <==> c == s[0] by {
            if c == s[0] {
                assert(s.contains(c));
            }
        }
    }
}

} // verus!
