//! The error taxonomy of the matching engine.
//!
//! Every error aborts the call it arose in; no partial state is kept.

use vstd::prelude::*;

verus! {

/// Why a call into the engine was rejected.
#[derive(Debug, Clone, PartialEq, Eq, Structural)]
pub enum ContractError {
    /// Defensive routing case that callers are never expected to reach.
    Never,
    /// The caller is not the administrator.
    Unauthorized,
    /// A native order must attach exactly one kind of coin.
    InvalidNumberOfFunds,
    /// No market exists under this identifier.
    UnknownMarketId { id: u64 },
    /// The supplied currency is neither leg of the market.
    MismatchDenomAndMarket,
    /// The order to cancel does not exist.
    OrderDoesNotExist,
    /// A market order asked for more than the opposing side holds.
    NotEnoughLiquidityMarketOrder,
}

} // verus!
