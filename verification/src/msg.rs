//! The engine's call and query surface, as plain values. The host shell
//! parses its wire formats into these and serializes the responses.

use vstd::prelude::*;

use crate::structs::{BookLevel, CurrencyInfo, SingleMarketInfo, UserOrderRecord};

verus! {

/// Instantiation carries nothing; the instantiating identity becomes the
/// administrator.
#[derive(Debug, Clone, PartialEq, Eq, Structural)]
pub struct InstantiateMsg {}

/// The administrative surface: rotating the administrator and creating
/// markets.
#[derive(Debug, Clone, PartialEq, Eq)]
pub enum AdminExecuteMsg {
    UpdateAdmin { new_admin: String },
    AddMarket { base_currency: CurrencyInfo, quote_currency: CurrencyInfo },
}

/// Orders arriving through a token-contract send, already unwrapped.
#[derive(Debug, Clone, PartialEq, Eq)]
pub enum SeleneCw20Msg {
    LimitOrder { market_id: u64, price: u128 },
    MarketOrder { market_id: u64 },
}

/// One inbound call. `Receive` carries a token deposit: the verified sender,
/// the token contract that forwarded it, the deposited amount and the
/// unwrapped order.
#[derive(Debug, Clone, PartialEq, Eq)]
pub enum ExecuteMsg {
    Receive { sender: String, token_contract: String, amount: u128, msg: SeleneCw20Msg },
    /// A limit order paid with the attached native coin.
    LimitOrder { market_id: u64, price: u128 },
    /// A market order paid with the attached native coin.
    MarketOrder { market_id: u64 },
    RemoveLimitOrder { market_id: u64, price: u128 },
    Admin(AdminExecuteMsg),
}

/// Migration carries nothing.
#[derive(Debug, Clone, PartialEq, Eq, Structural)]
pub struct MigrateMsg {}

/// One inbound query.
#[derive(Debug, Clone, PartialEq, Eq)]
pub enum QueryMsg {
    GetAdmin {},
    GetMarkets {},
    GetUserBids { user_address: String, target_market: Option<u64> },
    GetUserAsks { user_address: String, target_market: Option<u64> },
    GetUserOrders { user_address: String, target_market: Option<u64> },
    GetMarketBook { market_id: u64, nb_levels: u32 },
}

/// A book snapshot: aggregated bid and ask levels, best first.
#[derive(Debug, Clone, PartialEq, Eq)]
pub struct GetMarketBookResponse {
    pub bids: Vec<BookLevel>,
    pub asks: Vec<BookLevel>,
}

/// Every market's currency pair.
#[derive(Debug, Clone, PartialEq, Eq)]
pub struct GetMarketsResponse {
    pub markets: Vec<SingleMarketInfo>,
}

/// A user's open orders.
#[derive(Debug, Clone, PartialEq, Eq)]
pub struct GetUserOrdersResponse {
    pub orders: Vec<UserOrderRecord>,
}

/// A user's open buy orders.
#[derive(Debug, Clone, PartialEq, Eq)]
pub struct GetUserBidsResponse {
    pub orders: Vec<UserOrderRecord>,
}

/// A user's open sell orders.
#[derive(Debug, Clone, PartialEq, Eq)]
pub struct GetUserAsksResponse {
    pub orders: Vec<UserOrderRecord>,
}

/// The current administrator, if one is set.
#[derive(Debug, Clone, PartialEq, Eq)]
pub struct GetAdminResponse {
    pub admin: Option<String>,
}

} // verus!
