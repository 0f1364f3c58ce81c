//! Requests for the alt-VM chain's AMM pools, liquidity events and swaps.
use vstd::prelude::*;
use vstd::string::*;
use crate::chain::{ChainId, ChainSet};
use crate::hash::HashFilter;
use crate::query::{Bound, Query};

verus! {

/// The chains these requests ask for when the caller names none.
pub fn default_chains() -> (r: ChainSet)
    ensures
        r.wf(),
        r@ == set![ChainId::FUEL],
        r.chains@ == seq![ChainId::FUEL],
{
    ChainSet::singleton(ChainId::FUEL)
}

/// A query for pools of the alt-VM chain's AMM.
#[allow(non_snake_case)]
#[derive(Clone, Debug)]
pub struct GetMiraPoolsRequest {
    pub chains: ChainSet,
    /// Inclusive lower block bound.
    pub from_block: Bound,
    /// Inclusive upper block bound.
    pub to_block: Bound,
    pub pool_address__in: HashFilter,
    pub asset0_address__in: HashFilter,
    pub asset1_address__in: HashFilter,
    pub assets__in: HashFilter,
}

impl Default for GetMiraPoolsRequest {
    fn default() -> (r: Self)
        ensures
            r.chains.wf(),
            r.chains@ == set![ChainId::FUEL],
            r.from_block.block.is_none(),
            r.to_block.block.is_none(),
            r.pool_address__in.items@.len() == 0,
            r.asset0_address__in.items@.len() == 0,
            r.asset1_address__in.items@.len() == 0,
            r.assets__in.items@.len() == 0,
    {
        GetMiraPoolsRequest {
            chains: default_chains(),
            from_block: Bound { block: None },
            to_block: Bound { block: None },
            pool_address__in: HashFilter::new(),
            asset0_address__in: HashFilter::new(),
            asset1_address__in: HashFilter::new(),
            assets__in: HashFilter::new(),
        }
    }
}

impl GetMiraPoolsRequest {
    /// The generic query this request is sent as, its filters named by field.
    pub fn into_query(self) -> (q: Query)
        ensures
            q.chains == self.chains,
            q.from_block == self.from_block,
            q.to_block == self.to_block,
            q.filters@.len() == 4,
            q.filters@[0].0@ == "pool_address__in"@,
            q.filters@[0].1 == self.pool_address__in,
            q.filters@[1].0@ == "asset0_address__in"@,
            q.filters@[1].1 == self.asset0_address__in,
            q.filters@[2].0@ == "asset1_address__in"@,
            q.filters@[2].1 == self.asset1_address__in,
            q.filters@[3].0@ == "assets__in"@,
            q.filters@[3].1 == self.assets__in,
    {
        let mut filters: Vec<(String, HashFilter)> = Vec::new();
        filters.push((String::from_str("pool_address__in"), self.pool_address__in));
        filters.push((String::from_str("asset0_address__in"), self.asset0_address__in));
        filters.push((String::from_str("asset1_address__in"), self.asset1_address__in));
        filters.push((String::from_str("assets__in"), self.assets__in));
        Query {
            chains: self.chains,
            from_block: self.from_block,
            to_block: self.to_block,
            filters,
        }
    }
}

/// A query for liquidity events of the alt-VM chain's AMM.
#[allow(non_snake_case)]
#[derive(Clone, Debug)]
pub struct GetMiraLiquidityRequest {
    pub chains: ChainSet,
    /// Inclusive lower block bound.
    pub from_block: Bound,
    /// Inclusive upper block bound.
    pub to_block: Bound,
    pub pool_address__in: HashFilter,
    pub asset0_address__in: HashFilter,
    pub asset1_address__in: HashFilter,
    pub assets__in: HashFilter,
}

impl Default for GetMiraLiquidityRequest {
    fn default() -> (r: Self)
        ensures
            r.chains.wf(),
            r.chains@ == set![ChainId::FUEL],
            r.from_block.block.is_none(),
            r.to_block.block.is_none(),
            r.pool_address__in.items@.len() == 0,
            r.asset0_address__in.items@.len() == 0,
            r.asset1_address__in.items@.len() == 0,
            r.assets__in.items@.len() == 0,
    {
        GetMiraLiquidityRequest {
            chains: default_chains(),
            from_block: Bound { block: None },
            to_block: Bound { block: None },
            pool_address__in: HashFilter::new(),
            asset0_address__in: HashFilter::new(),
            asset1_address__in: HashFilter::new(),
            assets__in: HashFilter::new(),
        }
    }
}

impl GetMiraLiquidityRequest {
    /// The generic query this request is sent as, its filters named by field.
    pub fn into_query(self) -> (q: Query)
        ensures
            q.chains == self.chains,
            q.from_block == self.from_block,
            q.to_block == self.to_block,
            q.filters@.len() == 4,
            q.filters@[0].0@ == "pool_address__in"@,
            q.filters@[0].1 == self.pool_address__in,
            q.filters@[1].0@ == "asset0_address__in"@,
            q.filters@[1].1 == self.asset0_address__in,
            q.filters@[2].0@ == "asset1_address__in"@,
            q.filters@[2].1 == self.asset1_address__in,
            q.filters@[3].0@ == "assets__in"@,
            q.filters@[3].1 == self.assets__in,
    {
        let mut filters: Vec<(String, HashFilter)> = Vec::new();
        filters.push((String::from_str("pool_address__in"), self.pool_address__in));
        filters.push((String::from_str("asset0_address__in"), self.asset0_address__in));
        filters.push((String::from_str("asset1_address__in"), self.asset1_address__in));
        filters.push((String::from_str("assets__in"), self.assets__in));
        Query {
            chains: self.chains,
            from_block: self.from_block,
            to_block: self.to_block,
            filters,
        }
    }
}

/// A query for swaps of the alt-VM chain's AMM.
#[allow(non_snake_case)]
#[derive(Clone, Debug)]
pub struct GetMiraSwapsRequest {
    pub chains: ChainSet,
    /// Inclusive lower block bound.
    pub from_block: Bound,
    /// Inclusive upper block bound.
    pub to_block: Bound,
    pub pool_address__in: HashFilter,
    pub asset0_address__in: HashFilter,
    pub asset1_address__in: HashFilter,
    pub assets__in: HashFilter,
}

impl Default for GetMiraSwapsRequest {
    fn default() -> (r: Self)
        ensures
            r.chains.wf(),
            r.chains@ == set![ChainId::FUEL],
            r.from_block.block.is_none(),
            r.to_block.block.is_none(),
            r.pool_address__in.items@.len() == 0,
            r.asset0_address__in.items@.len() == 0,
            r.asset1_address__in.items@.len() == 0,
            r.assets__in.items@.len() == 0,
    {
        GetMiraSwapsRequest {
            chains: default_chains(),
            from_block: Bound { block: None },
            to_block: Bound { block: None },
            pool_address__in: HashFilter::new(),
            asset0_address__in: HashFilter::new(),
            asset1_address__in: HashFilter::new(),
            assets__in: HashFilter::new(),
        }
    }
}

impl GetMiraSwapsRequest {
    /// The generic query this request is sent as, its filters named by field.
    pub fn into_query(self) -> (q: Query)
        ensures
            q.chains == self.chains,
            q.from_block == self.from_block,
            q.to_block == self.to_block,
            q.filters@.len() == 4,
            q.filters@[0].0@ == "pool_address__in"@,
            q.filters@[0].1 == self.pool_address__in,
            q.filters@[1].0@ == "asset0_address__in"@,
            q.filters@[1].1 == self.asset0_address__in,
            q.filters@[2].0@ == "asset1_address__in"@,
            q.filters@[2].1 == self.asset1_address__in,
            q.filters@[3].0@ == "assets__in"@,
            q.filters@[3].1 == self.assets__in,
    {
        let mut filters: Vec<(String, HashFilter)> = Vec::new();
        filters.push((String::from_str("pool_address__in"), self.pool_address__in));
        filters.push((String::from_str("asset0_address__in"), self.asset0_address__in));
        filters.push((String::from_str("asset1_address__in"), self.asset1_address__in));
        filters.push((String::from_str("assets__in"), self.assets__in));
        Query {
            chains: self.chains,
            from_block: self.from_block,
            to_block: self.to_block,
            filters,
        }
    }
}

} // verus!
