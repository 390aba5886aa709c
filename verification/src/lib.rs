//! A limit order book matching engine.
//!
//! Each market keeps two price-ordered ledgers of resting orders (bids and
//! asks), processes incoming orders as makers (resting) or takers
//! (consuming), and emits settlement transfer instructions; it never moves
//! funds itself.

use vstd::prelude::*;

mod error;
pub mod contract_admin_execute;
pub mod contract_execute;
pub mod contract_query;
pub mod market_logic;
pub mod msg;
pub mod state;
pub mod state_utils;
pub mod structs;
pub mod utils;

pub use error::ContractError;

verus! {

/// One atomic unit of a fixed-point price: prices carry eighteen fractional
/// decimal digits, so a price of one is `1_000_000_000_000_000_000` atomics.
pub const DECIMAL_FRACTIONAL: u128 = 1_000_000_000_000_000_000;

} // verus!
