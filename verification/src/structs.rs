//! Core data types of the order book: sides, currencies, markets, levels and
//! resting orders.

use vstd::prelude::*;

verus! {

/// The side of an order: buyers supply the quote currency, sellers the base
/// currency.
#[derive(Debug, Clone, Copy, PartialEq, Eq, Structural)]
pub enum OrderSide {
    Buy,
    Sell,
}

/// Whether an order adds liquidity (maker) or consumes it (taker).
#[derive(Debug, Clone, Copy, PartialEq, Eq, Structural)]
pub enum OrderType {
    Maker,
    Taker,
}

/// A currency leg of a market: either a native ledger denomination or a
/// token-contract address. Compared by tag and payload only.
#[derive(Debug, Clone, PartialEq, Eq)]
pub enum CurrencyInfo {
    Native { denom: String },
    Cw20 { address: String },
}

/// Whether a currency is the base or the quote leg of a market.
///
/// On a BTC-USD market BTC is the base currency and USD the quote currency:
/// supplying the base currency sells, supplying the quote currency buys.
#[derive(Debug, Clone, Copy, PartialEq, Eq, Structural)]
pub enum CurrencyStatus {
    BaseCurrency,
    QuoteCurrency,
}

/// The currency a maker on `side` deposits (and a taker on `side` pays):
/// the quote currency when buying, the base currency when selling.
pub open spec fn side_deposit_currency(info: MarketInfo, side: OrderSide) -> CurrencyInfo {
    match side {
        OrderSide::Buy => info.quote_currency,
        OrderSide::Sell => info.base_currency,
    }
}

/// The side opposite to `side`.
pub open spec fn other_side(side: OrderSide) -> OrderSide {
    match side {
        OrderSide::Buy => OrderSide::Sell,
        OrderSide::Sell => OrderSide::Buy,
    }
}

/// Whether price `a` is strictly closer to the midprice than price `b` on
/// the given maker side: higher is better for bids, lower for asks.
pub open spec fn price_closer_to_mid(side: OrderSide, a: u128, b: u128) -> bool {
    match side {
        OrderSide::Buy => a > b,
        OrderSide::Sell => a < b,
    }
}

/// True when `c` names the currency written as `target`.
pub open spec fn currency_matches(c: CurrencyInfo, target: Seq<char>) -> bool {
    match c {
        CurrencyInfo::Native { denom } => denom@ == target,
        CurrencyInfo::Cw20 { address } => address@ == target,
    }
}

impl CurrencyInfo {
    /// Whether this currency is the one written as `target`.
    pub fn is_match(&self, target: &str) -> (r: bool)
        ensures
            r == currency_matches(*self, target@),
    {
        let target_owned: String = target.to_owned();
        match self {
            CurrencyInfo::Cw20 { address } => *address == target_owned,
            CurrencyInfo::Native { denom } => *denom == target_owned,
        }
    }

    /// A copy of this currency descriptor.
    pub fn duplicate(&self) -> (c: CurrencyInfo)
        ensures
            c == *self,
    {
        match self {
            CurrencyInfo::Cw20 { address } => CurrencyInfo::Cw20 { address: address.clone() },
            CurrencyInfo::Native { denom } => CurrencyInfo::Native { denom: denom.clone() },
        }
    }
}

/// A market: its two currency legs and the identifiers of the best level on
/// each side, if any.
#[derive(Debug, Clone, PartialEq, Eq)]
pub struct MarketInfo {
    pub market_id: u64,
    pub base_currency: CurrencyInfo,
    pub quote_currency: CurrencyInfo,
    /// Identifier of the highest-priced bid level, if bids rest.
    pub top_level_bid: Option<u64>,
    /// Identifier of the lowest-priced ask level, if asks rest.
    pub top_level_ask: Option<u64>,
}

/// The currency legs of one market, without the book pointers.
#[derive(Debug, Clone, PartialEq, Eq)]
pub struct SingleMarketInfo {
    pub market_id: u64,
    pub base_currency: CurrencyInfo,
    pub quote_currency: CurrencyInfo,
}

impl MarketInfo {
    /// Classifies a currency as the base or the quote leg of this market;
    /// a currency that is neither is rejected.
    pub fn get_currency_status(&self, target_denom: &str) -> (r: Result<
        CurrencyStatus,
        crate::ContractError,
    >)
        ensures
            currency_matches(self.base_currency, target_denom@) ==> r == Ok::<
                CurrencyStatus,
                crate::ContractError,
            >(CurrencyStatus::BaseCurrency),
            !currency_matches(self.base_currency, target_denom@) && currency_matches(
                self.quote_currency,
                target_denom@,
            ) ==> r == Ok::<CurrencyStatus, crate::ContractError>(CurrencyStatus::QuoteCurrency),
            !currency_matches(self.base_currency, target_denom@) && !currency_matches(
                self.quote_currency,
                target_denom@,
            ) ==> r == Err::<CurrencyStatus, crate::ContractError>(
                crate::ContractError::MismatchDenomAndMarket,
            ),
    {
        if self.is_base_currency(target_denom) {
            return Ok(CurrencyStatus::BaseCurrency);
        }
        if self.is_quote_currency(target_denom) {
            return Ok(CurrencyStatus::QuoteCurrency);
        }
        return Err(crate::ContractError::MismatchDenomAndMarket);
    }

    /// The side an incoming order takes when it supplies the given currency:
    /// supplying the quote currency buys, supplying the base currency sells.
    pub fn get_order_side_from_currency(&self, denom: &str) -> (r: Result<
        OrderSide,
        crate::ContractError,
    >)
        ensures
            currency_matches(self.quote_currency, denom@) ==> r == Ok::<
                OrderSide,
                crate::ContractError,
            >(OrderSide::Buy),
            !currency_matches(self.quote_currency, denom@) && currency_matches(
                self.base_currency,
                denom@,
            ) ==> r == Ok::<OrderSide, crate::ContractError>(OrderSide::Sell),
            !currency_matches(self.quote_currency, denom@) && !currency_matches(
                self.base_currency,
                denom@,
            ) ==> r == Err::<OrderSide, crate::ContractError>(
                crate::ContractError::MismatchDenomAndMarket,
            ),
    {
        if self.quote_currency.is_match(denom) {
            Ok(OrderSide::Buy)
        } else if self.base_currency.is_match(denom) {
            Ok(OrderSide::Sell)
        } else {
            Err(crate::ContractError::MismatchDenomAndMarket)
        }
    }

    /// The currency a maker on the given side supplies: buyers the quote
    /// currency, sellers the base currency.
    pub fn get_currency_info_from_side(&self, order_side: OrderSide) -> (r: CurrencyInfo)
        ensures
            r == (match order_side {
                OrderSide::Buy => self.quote_currency,
                OrderSide::Sell => self.base_currency,
            }),
    {
        match order_side {
            OrderSide::Buy => self.quote_currency.duplicate(),
            OrderSide::Sell => self.base_currency.duplicate(),
        }
    }

    /// The side whose maker supplies a currency with the given status.
    pub fn get_order_side_from_currency_status(currency_status: CurrencyStatus) -> (r: OrderSide)
        ensures
            r == (match currency_status {
                CurrencyStatus::BaseCurrency => OrderSide::Sell,
                CurrencyStatus::QuoteCurrency => OrderSide::Buy,
            }),
    {
        match currency_status {
            CurrencyStatus::BaseCurrency => OrderSide::Sell,
            CurrencyStatus::QuoteCurrency => OrderSide::Buy,
        }
    }

    /// Whether the given currency is one of this market's two legs.
    pub fn is_valid_currency(&self, target_denom: &str) -> (r: bool)
        ensures
            r == (currency_matches(self.base_currency, target_denom@) || currency_matches(
                self.quote_currency,
                target_denom@,
            )),
    {
        self.is_base_currency(target_denom) || self.is_quote_currency(target_denom)
    }

    /// Whether the given currency is the quote leg of this market.
    pub fn is_quote_currency(&self, target_denom: &str) -> (r: bool)
        ensures
            r == currency_matches(self.quote_currency, target_denom@),
    {
        self.quote_currency.is_match(target_denom)
    }

    /// Whether the given currency is the base leg of this market.
    pub fn is_base_currency(&self, target_denom: &str) -> (r: bool)
        ensures
            r == currency_matches(self.base_currency, target_denom@),
    {
        self.base_currency.is_match(target_denom)
    }
}

/// The linked-list record of one price level. Prices are fixed-point values
/// with eighteen fractional decimal digits.
#[derive(Debug, Clone, PartialEq, Eq)]
pub struct LevelData {
    /// The neighbouring level closer to the midprice (higher-priced for bids,
    /// lower-priced for asks), absent at the top of the book.
    pub id_previous: Option<u64>,
    /// The neighbouring level further from the midprice, absent at the tail.
    pub id_next: Option<u64>,
    pub price: u128,
}

impl LevelData {
    /// Whether this level is the top of its side.
    pub fn is_head(&self) -> (r: bool)
        ensures
            r == (self.id_previous is None),
    {
        self.id_previous.is_none()
    }

    /// Whether this level is the last of its side.
    pub fn is_tail(&self) -> (r: bool)
        ensures
            r == (self.id_next is None),
    {
        self.id_next.is_none()
    }
}

/// One open order of a user, as kept in the per-user index.
#[derive(Debug, Clone, Copy, PartialEq, Eq, Structural)]
pub struct UserOrderRecord {
    pub market_id: u64,
    pub order_side: OrderSide,
    /// Fixed-point price, eighteen fractional decimal digits.
    pub price: u128,
    /// Remaining quantity, in the units the maker deposited.
    pub quantity: u128,
}

/// A resting order inside a level's queue.
#[derive(Debug, Clone, PartialEq, Eq)]
pub struct LevelOrder {
    pub user: String,
    pub amount: u128,
}

/// The queue of resting orders at one price level, oldest first; the matching
/// walk consumes it from the back (last inserted first).
pub type LevelOrders = Vec<LevelOrder>;

/// One aggregated level of a market book snapshot.
#[derive(Debug, Clone, PartialEq, Eq)]
pub struct BookLevel {
    /// Fixed-point price, eighteen fractional decimal digits.
    pub price: u128,
    /// Total resting quantity at this price.
    pub quantity: u128,
}

impl BookLevel {
    /// An empty aggregate at the given price.
    pub fn new(price: u128) -> (r: BookLevel)
        ensures
            r.price == price,
            r.quantity == 0,
    {
        BookLevel { price, quantity: 0 }
    }
}

/// One attached native coin: its denomination and amount.
#[derive(Debug, Clone, PartialEq, Eq)]
pub struct CoinData {
    pub denom: String,
    pub amount: u128,
}

/// One settlement instruction: the engine only emits these and never moves
/// funds itself.
#[derive(Debug, Clone, PartialEq, Eq)]
pub struct TransferInstruction {
    pub amount: u128,
    pub currency: CurrencyInfo,
    pub recipient: String,
}

/// The spec-level image of a currency descriptor.
pub enum CurrencyV {
    Native { denom: Seq<char> },
    Cw20 { address: Seq<char> },
}

impl View for CurrencyInfo {
    type V = CurrencyV;

    open spec fn view(&self) -> CurrencyV {
        match self {
            CurrencyInfo::Native { denom } => CurrencyV::Native { denom: denom@ },
            CurrencyInfo::Cw20 { address } => CurrencyV::Cw20 { address: address@ },
        }
    }
}

/// The spec-level image of a settlement instruction.
pub struct TransferV {
    pub amount: u128,
    pub currency: CurrencyV,
    pub recipient: Seq<char>,
}

impl View for TransferInstruction {
    type V = TransferV;

    open spec fn view(&self) -> TransferV {
        TransferV { amount: self.amount, currency: self.currency@, recipient: self.recipient@ }
    }
}

/// The spec-level image of a list of settlement instructions.
pub open spec fn transfers_view(transfers: Seq<TransferInstruction>) -> Seq<TransferV> {
    transfers.map(|i: int, t: TransferInstruction| t@)
}

/// The spec-level image of a resting order.
pub struct OrderV {
    pub user: Seq<char>,
    pub amount: u128,
}

impl View for LevelOrder {
    type V = OrderV;

    open spec fn view(&self) -> OrderV {
        OrderV { user: self.user@, amount: self.amount }
    }
}

/// The spec-level image of one price level: its price and its queue, with
/// identifiers and links erased.
pub struct LevelV {
    pub price: u128,
    pub orders: Seq<OrderV>,
}

/// The spec-level image of a queue of resting orders.
pub open spec fn orders_view(orders: Seq<LevelOrder>) -> Seq<OrderV> {
    orders.map(|i: int, o: LevelOrder| o@)
}

} // verus!
