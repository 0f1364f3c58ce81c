//! The resources the service serves, the family each belongs to, and the
//! chain-scoping rule of each family.
use vstd::prelude::*;
use crate::chain::{ChainFamily, ChainId, ChainSet};

verus! {

/// A group of related queries that share a chain scope and request shape.
#[derive(Clone, Copy, Debug, PartialEq, Eq, Structural)]
pub enum ResourceFamily {
    /// The service's own status.
    Service,
    /// Generic chain data: blocks, logs, transactions, transfers.
    Chain,
    UniswapV2,
    UniswapV3,
    Curve,
    Erc20,
    /// Alt-VM chain data.
    Fuel,
    /// Resource-VM chain data.
    Move,
    /// UTXO chain data.
    Btc,
}

/// How a family treats the chains a request asks for.
#[derive(Clone, Copy, Debug, PartialEq, Eq, Structural)]
pub enum ChainScope {
    /// The chains are passed on as given.
    Unscoped,
    /// The chains must be non-empty and all of this family.
    Within(ChainFamily),
    /// The chains are replaced by this one chain alone.
    Fixed(ChainId),
}

pub open spec fn scope_of(f: ResourceFamily) -> ChainScope {
    match f {
        ResourceFamily::Fuel => ChainScope::Within(ChainFamily::AltVm),
        ResourceFamily::Move => ChainScope::Within(ChainFamily::ResourceVm),
        ResourceFamily::Btc => ChainScope::Fixed(ChainId::BTC),
        _ => ChainScope::Unscoped,
    }
}

/// The chain a family's requests ask for when the caller names none.
pub open spec fn default_chain_of(f: ResourceFamily) -> ChainId {
    match f {
        ResourceFamily::Fuel => ChainId::FUEL,
        ResourceFamily::Move => ChainId::MOVEMENT,
        ResourceFamily::Btc => ChainId::BTC,
        _ => ChainId::ETH,
    }
}

impl ResourceFamily {
    /// How this family treats the chains a request asks for.
    pub fn scope(&self) -> (r: ChainScope)
        ensures
            r == scope_of(*self),
    {
        match self {
            ResourceFamily::Fuel => ChainScope::Within(ChainFamily::AltVm),
            ResourceFamily::Move => ChainScope::Within(ChainFamily::ResourceVm),
            ResourceFamily::Btc => ChainScope::Fixed(ChainId::BTC),
            _ => ChainScope::Unscoped,
        }
    }

    /// The chain set a request of this family holds when the caller names none.
    pub fn default_chains(&self) -> (r: ChainSet)
        ensures
            r.wf(),
            r@ == set![default_chain_of(*self)],
            r.chains@ == seq![default_chain_of(*self)],
    {
        let c = match self {
            ResourceFamily::Fuel => ChainId::FUEL,
            ResourceFamily::Move => ChainId::MOVEMENT,
            ResourceFamily::Btc => ChainId::BTC,
            _ => ChainId::ETH,
        };
        ChainSet::singleton(c)
    }
}

/// The chain set of a request: the caller's when given, else the family's default.
pub fn chains_or_default(f: ResourceFamily, given: Option<ChainSet>) -> (r: ChainSet)
    ensures
        match given {
            Some(cs) => r == cs,
            None => r@ == set![default_chain_of(f)] && r.wf(),
        },
{
    match given {
        Some(cs) => cs,
        None => f.default_chains(),
    }
}

/// One query kind the service answers.
#[derive(Clone, Copy, Debug, PartialEq, Eq, Structural)]
pub enum Resource {
    Status,
    Blocks,
    Logs,
    Transactions,
    Transfers,
    UniswapV2Pairs,
    UniswapV2Prices,
    UniswapV3Fees,
    UniswapV3Pools,
    UniswapV3Positions,
    UniswapV3Prices,
    CurveTokens,
    CurvePools,
    CurvePrices,
    Erc20Tokens,
    Erc20Approvals,
    Erc20Transfers,
    FuelBlocks,
    FuelLogs,
    FuelLogsDecoded,
    FuelTransactions,
    FuelReceipts,
    FuelMessages,
    FuelUnspentUtxos,
    FuelSparkMarkets,
    FuelSparkOrders,
    FuelSrc20,
    FuelSrc7,
    FuelMiraPools,
    FuelMiraLiquidity,
    FuelMiraSwaps,
    MoveLogs,
    MoveLogsDecoded,
    MoveTransactions,
    MoveTransactionsDecoded,
    MoveReceipts,
    MoveReceiptsDecoded,
    MoveModules,
    MoveFaTokens,
    MoveInterestPools,
    MoveInterestLiquidity,
    MoveInterestSwaps,
    MoveArcheCollaterals,
    MoveArcheLoans,
    MoveArchePositions,
    MovePyth,
    MoveBalances,
    BtcBlocks,
    BtcTransactions,
}

/// The path of a resource under the API root.
pub open spec fn resource_path(r: Resource) -> Seq<char> {
    match r {
        Resource::Status => "status"@,
        Resource::Blocks => "blocks"@,
        Resource::Logs => "logs"@,
        Resource::Transactions => "transactions"@,
        Resource::Transfers => "transfers"@,
        Resource::UniswapV2Pairs => "uniswap/v2/pairs"@,
        Resource::UniswapV2Prices => "uniswap/v2/prices"@,
        Resource::UniswapV3Fees => "uniswap/v3/fees"@,
        Resource::UniswapV3Pools => "uniswap/v3/pools"@,
        Resource::UniswapV3Positions => "uniswap/v3/positions"@,
        Resource::UniswapV3Prices => "uniswap/v3/prices"@,
        Resource::CurveTokens => "curve/tokens"@,
        Resource::CurvePools => "curve/pools"@,
        Resource::CurvePrices => "curve/prices"@,
        Resource::Erc20Tokens => "erc20"@,
        Resource::Erc20Approvals => "erc20/approvals"@,
        Resource::Erc20Transfers => "erc20/transfers"@,
        Resource::FuelBlocks => "blocks"@,
        Resource::FuelLogs => "logs"@,
        Resource::FuelLogsDecoded => "logs/decoded"@,
        Resource::FuelTransactions => "transactions"@,
        Resource::FuelReceipts => "receipts"@,
        Resource::FuelMessages => "messages"@,
        Resource::FuelUnspentUtxos => "transactions/outputs"@,
        Resource::FuelSparkMarkets => "spark/markets"@,
        Resource::FuelSparkOrders => "spark/orders"@,
        Resource::FuelSrc20 => "src20"@,
        Resource::FuelSrc7 => "src7"@,
        Resource::FuelMiraPools => "mira/v1/pools"@,
        Resource::FuelMiraLiquidity => "mira/v1/liquidity"@,
        Resource::FuelMiraSwaps => "mira/v1/swaps"@,
        Resource::MoveLogs => "logs"@,
        Resource::MoveLogsDecoded => "logs/decoded"@,
        Resource::MoveTransactions => "transactions"@,
        Resource::MoveTransactionsDecoded => "transactions/decoded"@,
        Resource::MoveReceipts => "receipts"@,
        Resource::MoveReceiptsDecoded => "receipts/decoded"@,
        Resource::MoveModules => "modules"@,
        Resource::MoveFaTokens => "fa-tokens"@,
        Resource::MoveInterestPools => "interest/v1/pools"@,
        Resource::MoveInterestLiquidity => "interest/v1/liquidity"@,
        Resource::MoveInterestSwaps => "interest/v1/swaps"@,
        Resource::MoveArcheCollaterals => "arche/collaterals"@,
        Resource::MoveArcheLoans => "arche/loans"@,
        Resource::MoveArchePositions => "arche/positions"@,
        Resource::MovePyth => "pyth"@,
        Resource::MoveBalances => "balances"@,
        Resource::BtcBlocks => "blocks"@,
        Resource::BtcTransactions => "transactions"@,
    }
}

pub open spec fn family_of_resource(r: Resource) -> ResourceFamily {
    match r {
        Resource::Status => ResourceFamily::Service,
        Resource::Blocks => ResourceFamily::Chain,
        Resource::Logs => ResourceFamily::Chain,
        Resource::Transactions => ResourceFamily::Chain,
        Resource::Transfers => ResourceFamily::Chain,
        Resource::UniswapV2Pairs => ResourceFamily::UniswapV2,
        Resource::UniswapV2Prices => ResourceFamily::UniswapV2,
        Resource::UniswapV3Fees => ResourceFamily::UniswapV3,
        Resource::UniswapV3Pools => ResourceFamily::UniswapV3,
        Resource::UniswapV3Positions => ResourceFamily::UniswapV3,
        Resource::UniswapV3Prices => ResourceFamily::UniswapV3,
        Resource::CurveTokens => ResourceFamily::Curve,
        Resource::CurvePools => ResourceFamily::Curve,
        Resource::CurvePrices => ResourceFamily::Curve,
        Resource::Erc20Tokens => ResourceFamily::Erc20,
        Resource::Erc20Approvals => ResourceFamily::Erc20,
        Resource::Erc20Transfers => ResourceFamily::Erc20,
        Resource::FuelBlocks => ResourceFamily::Fuel,
        Resource::FuelLogs => ResourceFamily::Fuel,
        Resource::FuelLogsDecoded => ResourceFamily::Fuel,
        Resource::FuelTransactions => ResourceFamily::Fuel,
        Resource::FuelReceipts => ResourceFamily::Fuel,
        Resource::FuelMessages => ResourceFamily::Fuel,
        Resource::FuelUnspentUtxos => ResourceFamily::Fuel,
        Resource::FuelSparkMarkets => ResourceFamily::Fuel,
        Resource::FuelSparkOrders => ResourceFamily::Fuel,
        Resource::FuelSrc20 => ResourceFamily::Fuel,
        Resource::FuelSrc7 => ResourceFamily::Fuel,
        Resource::FuelMiraPools => ResourceFamily::Fuel,
        Resource::FuelMiraLiquidity => ResourceFamily::Fuel,
        Resource::FuelMiraSwaps => ResourceFamily::Fuel,
        Resource::MoveLogs => ResourceFamily::Move,
        Resource::MoveLogsDecoded => ResourceFamily::Move,
        Resource::MoveTransactions => ResourceFamily::Move,
        Resource::MoveTransactionsDecoded => ResourceFamily::Move,
        Resource::MoveReceipts => ResourceFamily::Move,
        Resource::MoveReceiptsDecoded => ResourceFamily::Move,
        Resource::MoveModules => ResourceFamily::Move,
        Resource::MoveFaTokens => ResourceFamily::Move,
        Resource::MoveInterestPools => ResourceFamily::Move,
        Resource::MoveInterestLiquidity => ResourceFamily::Move,
        Resource::MoveInterestSwaps => ResourceFamily::Move,
        Resource::MoveArcheCollaterals => ResourceFamily::Move,
        Resource::MoveArcheLoans => ResourceFamily::Move,
        Resource::MoveArchePositions => ResourceFamily::Move,
        Resource::MovePyth => ResourceFamily::Move,
        Resource::MoveBalances => ResourceFamily::Move,
        Resource::BtcBlocks => ResourceFamily::Btc,
        Resource::BtcTransactions => ResourceFamily::Btc,
    }
}

impl Resource {
    /// The path of this resource under the API root.
    pub fn path(&self) -> (r: &'static str)
        ensures
            r@ == resource_path(*self),
    {
        match self {
            Resource::Status => "status",
            Resource::Blocks => "blocks",
            Resource::Logs => "logs",
            Resource::Transactions => "transactions",
            Resource::Transfers => "transfers",
            Resource::UniswapV2Pairs => "uniswap/v2/pairs",
            Resource::UniswapV2Prices => "uniswap/v2/prices",
            Resource::UniswapV3Fees => "uniswap/v3/fees",
            Resource::UniswapV3Pools => "uniswap/v3/pools",
            Resource::UniswapV3Positions => "uniswap/v3/positions",
            Resource::UniswapV3Prices => "uniswap/v3/prices",
            Resource::CurveTokens => "curve/tokens",
            Resource::CurvePools => "curve/pools",
            Resource::CurvePrices => "curve/prices",
            Resource::Erc20Tokens => "erc20",
            Resource::Erc20Approvals => "erc20/approvals",
            Resource::Erc20Transfers => "erc20/transfers",
            Resource::FuelBlocks => "blocks",
            Resource::FuelLogs => "logs",
            Resource::FuelLogsDecoded => "logs/decoded",
            Resource::FuelTransactions => "transactions",
            Resource::FuelReceipts => "receipts",
            Resource::FuelMessages => "messages",
            Resource::FuelUnspentUtxos => "transactions/outputs",
            Resource::FuelSparkMarkets => "spark/markets",
            Resource::FuelSparkOrders => "spark/orders",
            Resource::FuelSrc20 => "src20",
            Resource::FuelSrc7 => "src7",
            Resource::FuelMiraPools => "mira/v1/pools",
            Resource::FuelMiraLiquidity => "mira/v1/liquidity",
            Resource::FuelMiraSwaps => "mira/v1/swaps",
            Resource::MoveLogs => "logs",
            Resource::MoveLogsDecoded => "logs/decoded",
            Resource::MoveTransactions => "transactions",
            Resource::MoveTransactionsDecoded => "transactions/decoded",
            Resource::MoveReceipts => "receipts",
            Resource::MoveReceiptsDecoded => "receipts/decoded",
            Resource::MoveModules => "modules",
            Resource::MoveFaTokens => "fa-tokens",
            Resource::MoveInterestPools => "interest/v1/pools",
            Resource::MoveInterestLiquidity => "interest/v1/liquidity",
            Resource::MoveInterestSwaps => "interest/v1/swaps",
            Resource::MoveArcheCollaterals => "arche/collaterals",
            Resource::MoveArcheLoans => "arche/loans",
            Resource::MoveArchePositions => "arche/positions",
            Resource::MovePyth => "pyth",
            Resource::MoveBalances => "balances",
            Resource::BtcBlocks => "blocks",
            Resource::BtcTransactions => "transactions",
        }
    }

    /// The family this resource belongs to.
    pub fn family(&self) -> (r: ResourceFamily)
        ensures
            r == family_of_resource(*self),
    {
        match self {
            Resource::Status => ResourceFamily::Service,
            Resource::Blocks => ResourceFamily::Chain,
            Resource::Logs => ResourceFamily::Chain,
            Resource::Transactions => ResourceFamily::Chain,
            Resource::Transfers => ResourceFamily::Chain,
            Resource::UniswapV2Pairs => ResourceFamily::UniswapV2,
            Resource::UniswapV2Prices => ResourceFamily::UniswapV2,
            Resource::UniswapV3Fees => ResourceFamily::UniswapV3,
            Resource::UniswapV3Pools => ResourceFamily::UniswapV3,
            Resource::UniswapV3Positions => ResourceFamily::UniswapV3,
            Resource::UniswapV3Prices => ResourceFamily::UniswapV3,
            Resource::CurveTokens => ResourceFamily::Curve,
            Resource::CurvePools => ResourceFamily::Curve,
            Resource::CurvePrices => ResourceFamily::Curve,
            Resource::Erc20Tokens => ResourceFamily::Erc20,
            Resource::Erc20Approvals => ResourceFamily::Erc20,
            Resource::Erc20Transfers => ResourceFamily::Erc20,
            Resource::FuelBlocks => ResourceFamily::Fuel,
            Resource::FuelLogs => ResourceFamily::Fuel,
            Resource::FuelLogsDecoded => ResourceFamily::Fuel,
            Resource::FuelTransactions => ResourceFamily::Fuel,
            Resource::FuelReceipts => ResourceFamily::Fuel,
            Resource::FuelMessages => ResourceFamily::Fuel,
            Resource::FuelUnspentUtxos => ResourceFamily::Fuel,
            Resource::FuelSparkMarkets => ResourceFamily::Fuel,
            Resource::FuelSparkOrders => ResourceFamily::Fuel,
            Resource::FuelSrc20 => ResourceFamily::Fuel,
            Resource::FuelSrc7 => ResourceFamily::Fuel,
            Resource::FuelMiraPools => ResourceFamily::Fuel,
            Resource::FuelMiraLiquidity => ResourceFamily::Fuel,
            Resource::FuelMiraSwaps => ResourceFamily::Fuel,
            Resource::MoveLogs => ResourceFamily::Move,
            Resource::MoveLogsDecoded => ResourceFamily::Move,
            Resource::MoveTransactions => ResourceFamily::Move,
            Resource::MoveTransactionsDecoded => ResourceFamily::Move,
            Resource::MoveReceipts => ResourceFamily::Move,
            Resource::MoveReceiptsDecoded => ResourceFamily::Move,
            Resource::MoveModules => ResourceFamily::Move,
            Resource::MoveFaTokens => ResourceFamily::Move,
            Resource::MoveInterestPools => ResourceFamily::Move,
            Resource::MoveInterestLiquidity => ResourceFamily::Move,
            Resource::MoveInterestSwaps => ResourceFamily::Move,
            Resource::MoveArcheCollaterals => ResourceFamily::Move,
            Resource::MoveArcheLoans => ResourceFamily::Move,
            Resource::MoveArchePositions => ResourceFamily::Move,
            Resource::MovePyth => ResourceFamily::Move,
            Resource::MoveBalances => ResourceFamily::Move,
            Resource::BtcBlocks => ResourceFamily::Btc,
            Resource::BtcTransactions => ResourceFamily::Btc,
        }
    }
}

} // verus!
