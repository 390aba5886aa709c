//! The engine's state: the market registry, the per-market price-level
//! ledgers, and the per-user order index.
//!
//! Each side of a market is an arena of level nodes carrying explicit
//! `id_previous`/`id_next` identifiers. The nodes are stored best price
//! first, and the well-formedness invariant ties the stored links and the
//! top-of-book pointers to that order, so walking `next` from the top visits
//! strictly worsening prices.

use vstd::prelude::*;

use crate::structs::{
    price_closer_to_mid, LevelData, LevelOrder, LevelV, MarketInfo, OrderSide, UserOrderRecord,
    CurrencyInfo, orders_view,
};

verus! {

/// One node of a side's ledger: its identifier, its linked-list record and
/// its queue of resting orders.
#[derive(Debug, Clone, PartialEq, Eq)]
pub struct LevelEntry {
    pub id: u64,
    pub data: LevelData,
    pub orders: Vec<LevelOrder>,
}

impl View for LevelEntry {
    type V = LevelV;

    open spec fn view(&self) -> LevelV {
        LevelV { price: self.data.price, orders: orders_view(self.orders@) }
    }
}

/// The spec-level image of one side of the book, best price first.
pub open spec fn levels_view(levels: Seq<LevelEntry>) -> Seq<LevelV> {
    levels.map(|i: int, e: LevelEntry| e@)
}

/// Whether a node with the given identifier exists.
pub open spec fn has_level(levels: Seq<LevelEntry>, id: u64) -> bool {
    exists|i: int| 0 <= i < levels.len() && levels[i].id == id
}

/// The identifier of any node of a side is present on that side.
pub proof fn lemma_has_level_at(v: Seq<LevelEntry>, i: int)
    requires
        0 <= i < v.len(),
    ensures
        has_level(v, v[i].id),
{
    assert(0 <= i < v.len() && v[i].id == v[i].id);
}

/// The index of the node with the given identifier.
pub open spec fn level_index_of(levels: Seq<LevelEntry>, id: u64) -> int {
    choose|i: int| 0 <= i < levels.len() && levels[i].id == id
}

/// A side is well formed when its prices strictly improve toward index zero,
/// its stored links mirror the storage order, its top pointer names its first
/// node, and its identifiers are distinct and below the allocator bound.
pub open spec fn wf_side(
    levels: Seq<LevelEntry>,
    top: Option<u64>,
    bound: u64,
    side: OrderSide,
) -> bool {
    &&& forall|i: int, j: int|
        0 <= i < j < levels.len() ==> price_closer_to_mid(
            side,
            #[trigger] levels[i].data.price,
            #[trigger] levels[j].data.price,
        )
    &&& forall|i: int| 0 <= i < levels.len() ==> (#[trigger] levels[i].id) < bound
    &&& forall|i: int, j: int|
        0 <= i < levels.len() && 0 <= j < levels.len() && i != j ==> (#[trigger] levels[i].id)
            != (#[trigger] levels[j].id)
    &&& forall|i: int|
        0 <= i < levels.len() ==> (#[trigger] levels[i].data.id_previous) == (if i == 0 {
            None::<u64>
        } else {
            Some(levels[i - 1].id)
        })
    &&& forall|i: int|
        0 <= i < levels.len() ==> (#[trigger] levels[i].data.id_next) == (if i == levels.len() - 1 {
            None::<u64>
        } else {
            Some(levels[i + 1].id)
        })
    &&& top == (if levels.len() == 0 {
        None::<u64>
    } else {
        Some(levels[0].id)
    })
}

/// One market: its registry record and the two ledgers.
#[derive(Debug, Clone, PartialEq, Eq)]
pub struct Market {
    pub info: MarketInfo,
    /// Bid levels, highest price first.
    pub bids: Vec<LevelEntry>,
    /// Ask levels, lowest price first.
    pub asks: Vec<LevelEntry>,
    /// The identifier the next created level will get.
    pub next_level_id: u64,
}

impl Market {
    /// The ledger of the maker side `side`.
    pub open spec fn side_levels(self, side: OrderSide) -> Seq<LevelEntry> {
        match side {
            OrderSide::Buy => self.bids@,
            OrderSide::Sell => self.asks@,
        }
    }

    /// The top-of-book pointer of the maker side `side`.
    pub open spec fn side_top(self, side: OrderSide) -> Option<u64> {
        match side {
            OrderSide::Buy => self.info.top_level_bid,
            OrderSide::Sell => self.info.top_level_ask,
        }
    }

    /// The book never crosses: when both sides rest, the best bid is
    /// strictly below the best ask. Maker insertion alone does not keep
    /// this — crossing avoidance is its caller's duty — but every complete
    /// order-placement and cancellation call does.
    pub open spec fn not_crossed(self) -> bool {
        self.bids@.len() > 0 && self.asks@.len() > 0 ==> self.bids@[0].data.price
            < self.asks@[0].data.price
    }

    /// Both ledgers are well formed and no identifier names a level on both
    /// sides.
    pub open spec fn wf(self) -> bool {
        &&& wf_side(self.bids@, self.info.top_level_bid, self.next_level_id, OrderSide::Buy)
        &&& wf_side(self.asks@, self.info.top_level_ask, self.next_level_id, OrderSide::Sell)
        &&& forall|i: int, j: int|
            0 <= i < self.bids@.len() && 0 <= j < self.asks@.len() ==> (
            #[trigger] self.bids@[i].id) != (#[trigger] self.asks@[j].id)
    }

    /// The linked-list record of the level with the given identifier, on
    /// either side.
    pub open spec fn level_data_spec(self, level_id: u64) -> Option<LevelData> {
        if has_level(self.bids@, level_id) {
            Some(self.bids@[level_index_of(self.bids@, level_id)].data)
        } else if has_level(self.asks@, level_id) {
            Some(self.asks@[level_index_of(self.asks@, level_id)].data)
        } else {
            None
        }
    }

    /// The queue of the level with the given identifier, on either side.
    pub open spec fn level_orders_spec(self, level_id: u64) -> Option<Seq<LevelOrder>> {
        if has_level(self.bids@, level_id) {
            Some(self.bids@[level_index_of(self.bids@, level_id)].orders@)
        } else if has_level(self.asks@, level_id) {
            Some(self.asks@[level_index_of(self.asks@, level_id)].orders@)
        } else {
            None
        }
    }

    /// Which currency leg a price refers to, judged from the tops of the
    /// book alone: at or under the best bid it is the quote leg, at or over
    /// the best ask the base leg, with the base leg winning where both
    /// apply; a price between the tops of the book matches neither.
    pub open spec fn currency_status_from_price_spec(self, price: u128) -> Result<
        CurrencyInfo,
        crate::ContractError,
    > {
        let is_quote = self.bids@.len() > 0 && self.bids@[0].data.price >= price;
        let is_base = self.asks@.len() > 0 && self.asks@[0].data.price <= price;
        if is_base {
            Ok(self.info.base_currency)
        } else if is_quote {
            Ok(self.info.quote_currency)
        } else {
            Err(crate::ContractError::MismatchDenomAndMarket)
        }
    }

    /// The currency leg a resting order at `price` must have deposited,
    /// judged from the tops of the book.
    pub fn get_currency_status_from_price(&self, price: u128) -> (r: Result<
        CurrencyInfo,
        crate::ContractError,
    >)
        requires
            self.wf(),
        ensures
            r == self.currency_status_from_price_spec(price),
    {
        let is_quote = self.bids.len() > 0 && self.bids[0].data.price >= price;
        let is_base = self.asks.len() > 0 && self.asks[0].data.price <= price;
        if is_base {
            Ok(self.info.base_currency.duplicate())
        } else if is_quote {
            Ok(self.info.quote_currency.duplicate())
        } else {
            Err(crate::ContractError::MismatchDenomAndMarket)
        }
    }

    /// Looks a level up by identifier and returns its linked-list record.
    pub fn level_data(&self, level_id: u64) -> (r: Option<LevelData>)
        requires
            self.wf(),
        ensures
            r == self.level_data_spec(level_id),
    {
        match find_level_index(&self.bids, level_id) {
            Some(i) => Some(
                LevelData {
                    id_previous: self.bids[i].data.id_previous,
                    id_next: self.bids[i].data.id_next,
                    price: self.bids[i].data.price,
                },
            ),
            None => match find_level_index(&self.asks, level_id) {
                Some(i) => Some(
                    LevelData {
                        id_previous: self.asks[i].data.id_previous,
                        id_next: self.asks[i].data.id_next,
                        price: self.asks[i].data.price,
                    },
                ),
                None => None,
            },
        }
    }

    /// Looks a level up by identifier and returns its queue of resting
    /// orders.
    pub fn level_orders(&self, level_id: u64) -> (r: Option<&Vec<LevelOrder>>)
        requires
            self.wf(),
        ensures
            match r {
                Some(orders) => self.level_orders_spec(level_id) == Some(orders@),
                None => self.level_orders_spec(level_id) is None,
            },
    {
        match find_level_index(&self.bids, level_id) {
            Some(i) => Some(&self.bids[i].orders),
            None => match find_level_index(&self.asks, level_id) {
                Some(i) => Some(&self.asks[i].orders),
                None => None,
            },
        }
    }
}

/// In a well-formed market — and every mutation of the ledger keeps a market
/// well formed, so after any sequence of inserts — walking `next` from a
/// side's top pointer visits the stored levels in order, and their prices
/// are strictly monotonic in the side's own order: each step moves strictly
/// away from the midprice.
pub proof fn lemma_walk_next_strictly_ordered(m: Market, side: OrderSide)
    requires
        m.wf(),
    ensures
        ({
            let v = m.side_levels(side);
            &&& m.side_top(side) == (if v.len() == 0 {
                None::<u64>
            } else {
                Some(v[0].id)
            })
            &&& forall|i: int|
                0 <= i < v.len() ==> (#[trigger] v[i]).data.id_next == (if i == v.len() - 1 {
                    None::<u64>
                } else {
                    Some(v[i + 1].id)
                })
            &&& forall|i: int, j: int|
                0 <= i < j < v.len() ==> price_closer_to_mid(
                    side,
                    (#[trigger] v[i]).data.price,
                    (#[trigger] v[j]).data.price,
                )
        }),
{
    match side {
        OrderSide::Buy => {},
        OrderSide::Sell => {},
    }
}

/// Finds the storage index of the node with the given identifier.
pub fn find_level_index(levels: &Vec<LevelEntry>, id: u64) -> (r: Option<usize>)
    ensures
        match r {
            Some(i) => i < levels@.len() && levels@[i as int].id == id,
            None => !has_level(levels@, id),
        },
{
    let mut i: usize = 0;
    while i < levels.len()
        invariant
            i <= levels@.len(),
            forall|j: int| 0 <= j < i ==> (#[trigger] levels@[j].id) != id,
        decreases levels@.len() - i,
    {
        if levels[i].id == id {
            return Some(i);
        }
        i = i + 1;
    }
    None
}

/// The per-user slice of the order index.
#[derive(Debug, Clone, PartialEq, Eq)]
pub struct UserOrdersEntry {
    pub user: String,
    pub orders: Vec<UserOrderRecord>,
}

/// The spec-level image of one user's slice of the order index.
pub struct UserOrdersV {
    pub user: Seq<char>,
    pub orders: Seq<UserOrderRecord>,
}

impl View for UserOrdersEntry {
    type V = UserOrdersV;

    open spec fn view(&self) -> UserOrdersV {
        UserOrdersV { user: self.user@, orders: self.orders@ }
    }
}

/// The spec-level image of the whole order index.
pub open spec fn user_orders_view(s: Seq<UserOrdersEntry>) -> Seq<UserOrdersV> {
    s.map(|i: int, e: UserOrdersEntry| e@)
}

/// One record list after consuming `amount` against the records of
/// (`market_id`, `side`, `price`): each matching record loses up to `amount`
/// and disappears when nothing is left of it.
pub open spec fn dec_records(
    s: Seq<UserOrderRecord>,
    market_id: u64,
    side: OrderSide,
    price: u128,
    amount: u128,
) -> Seq<UserOrderRecord>
    decreases s.len(),
{
    if s.len() == 0 {
        s
    } else {
        let rest = dec_records(s.drop_first(), market_id, side, price, amount);
        let r0 = s[0];
        if r0.market_id == market_id && r0.order_side == side && r0.price == price {
            if r0.quantity > amount {
                seq![
                    UserOrderRecord {
                        market_id: r0.market_id,
                        order_side: r0.order_side,
                        price: r0.price,
                        quantity: (r0.quantity - amount) as u128,
                    },
                ] + rest
            } else {
                rest
            }
        } else {
            seq![r0] + rest
        }
    }
}

/// The order index after one consumed slice: only the consumed maker's
/// records change, as `dec_records` says.
pub open spec fn dec_user_spec(
    entries: Seq<UserOrdersV>,
    user: Seq<char>,
    market_id: u64,
    side: OrderSide,
    price: u128,
    amount: u128,
) -> Seq<UserOrdersV> {
    entries.map(
        |i: int, e: UserOrdersV|
            if e.user == user {
                UserOrdersV { user: e.user, orders: dec_records(e.orders, market_id, side, price, amount) }
            } else {
                e
            },
    )
}

/// Finds a user's slice of the order index.
pub fn find_user_index(entries: &Vec<UserOrdersEntry>, user: &String) -> (r: Option<usize>)
    ensures
        match r {
            Some(i) => i < entries@.len() && entries@[i as int].user@ == user@,
            None => forall|j: int|
                0 <= j < entries@.len() ==> (#[trigger] entries@[j].user)@ != user@,
        },
{
    let mut i: usize = 0;
    while i < entries.len()
        invariant
            i <= entries@.len(),
            forall|j: int| 0 <= j < i ==> (#[trigger] entries@[j].user)@ != user@,
        decreases entries@.len() - i,
    {
        if entries[i].user == *user {
            return Some(i);
        }
        i = i + 1;
    }
    None
}

/// Consumes `amount` against one maker's records of (`market_id`, `side`,
/// `price`): each matching record loses up to `amount` and is dropped when
/// nothing is left; a maker without a slice in the index is left without
/// one.
pub fn decrement_user_records(
    entries: &mut Vec<UserOrdersEntry>,
    user: &String,
    market_id: u64,
    side: OrderSide,
    price: u128,
    amount: u128,
)
    requires
        forall|i: int, j: int|
            0 <= i < old(entries)@.len() && 0 <= j < old(entries)@.len() && i != j ==> (
            #[trigger] old(entries)@[i].user)@ != (#[trigger] old(entries)@[j].user)@,
    ensures
        user_orders_view(final(entries)@) == dec_user_spec(
            user_orders_view(old(entries)@),
            user@,
            market_id,
            side,
            price,
            amount,
        ),
        final(entries)@.len() == old(entries)@.len(),
        forall|i: int|
            0 <= i < old(entries)@.len() ==> (#[trigger] final(entries)@[i]).user
                == old(entries)@[i].user,
        forall|i: int|
            0 <= i < old(entries)@.len() && old(entries)@[i].user@ != user@ ==> (
            #[trigger] final(entries)@[i]) == old(entries)@[i],
{
    let ghost e0 = entries@;
    let idx = match find_user_index(entries, user) {
        None => {
            proof {
                assert(user_orders_view(entries@) =~= dec_user_spec(
                    user_orders_view(e0),
                    user@,
                    market_id,
                    side,
                    price,
                    amount,
                ));
            }
            return ;
        },
        Some(i) => i,
    };
    let mut entry = entries.remove(idx);
    let ghost r0 = entry.orders@;
    let mut kept: Vec<UserOrderRecord> = Vec::new();
    proof {
        assert(r0.skip(0) =~= r0);
        assert(Seq::<UserOrderRecord>::empty() + dec_records(r0, market_id, side, price, amount)
            =~= dec_records(r0, market_id, side, price, amount));
    }
    let mut j: usize = 0;
    while j < entry.orders.len()
        invariant
            j <= entry.orders@.len(),
            entry.orders@ == r0,
            dec_records(r0, market_id, side, price, amount) == kept@ + dec_records(
                r0.skip(j as int),
                market_id,
                side,
                price,
                amount,
            ),
        decreases entry.orders@.len() - j,
    {
        let ghost pre_kept = kept@;
        let r = &entry.orders[j];
        proof {
            assert(r0.skip(j as int).drop_first() =~= r0.skip(j as int + 1));
            assert(r0.skip(j as int)[0] == r0[j as int]);
        }
        if r.market_id == market_id && r.order_side == side && r.price == price {
            if r.quantity > amount {
                let nr = UserOrderRecord {
                    market_id: r.market_id,
                    order_side: r.order_side,
                    price: r.price,
                    quantity: r.quantity - amount,
                };
                kept.push(nr);
                proof {
                    assert(pre_kept + (seq![nr] + dec_records(
                        r0.skip(j as int + 1),
                        market_id,
                        side,
                        price,
                        amount,
                    )) =~= pre_kept.push(nr) + dec_records(
                        r0.skip(j as int + 1),
                        market_id,
                        side,
                        price,
                        amount,
                    ));
                }
            }
        } else {
            kept.push(entry.orders[j]);
            proof {
                assert(pre_kept + (seq![r0[j as int]] + dec_records(
                    r0.skip(j as int + 1),
                    market_id,
                    side,
                    price,
                    amount,
                )) =~= pre_kept.push(r0[j as int]) + dec_records(
                    r0.skip(j as int + 1),
                    market_id,
                    side,
                    price,
                    amount,
                ));
            }
        }
        j = j + 1;
    }
    proof {
        assert(r0.skip(r0.len() as int) =~= Seq::<UserOrderRecord>::empty());
        assert(kept@ + Seq::<UserOrderRecord>::empty() =~= kept@);
    }
    entry.orders = kept;
    entries.insert(idx, entry);
    proof {
        assert(user_orders_view(entries@) =~= dec_user_spec(
            user_orders_view(e0),
            user@,
            market_id,
            side,
            price,
            amount,
        ));
    }
}

/// Whether a user owns a slice of the order index.
pub open spec fn has_user(entries: Seq<UserOrdersV>, user: Seq<char>) -> bool {
    exists|i: int| 0 <= i < entries.len() && entries[i].user == user
}

/// The position of a user's slice of the order index.
pub open spec fn user_index_of(entries: Seq<UserOrdersV>, user: Seq<char>) -> int {
    choose|i: int| 0 <= i < entries.len() && entries[i].user == user
}

/// The order index after appending one record for `user`: added to the
/// user's slice, or to a fresh slice when the user has none.
pub open spec fn push_record_spec(
    entries: Seq<UserOrdersV>,
    user: Seq<char>,
    r: UserOrderRecord,
) -> Seq<UserOrdersV> {
    if has_user(entries, user) {
        let i = user_index_of(entries, user);
        entries.update(i, UserOrdersV { user, orders: entries[i].orders.push(r) })
    } else {
        entries.push(UserOrdersV { user, orders: seq![r] })
    }
}

/// Appends one record to `user`'s slice of the order index, creating the
/// slice when none exists.
pub fn push_user_record(entries: &mut Vec<UserOrdersEntry>, user: &String, r: UserOrderRecord)
    requires
        forall|i: int, j: int|
            0 <= i < old(entries)@.len() && 0 <= j < old(entries)@.len() && i != j ==> (
            #[trigger] old(entries)@[i].user)@ != (#[trigger] old(entries)@[j].user)@,
    ensures
        user_orders_view(final(entries)@) == push_record_spec(
            user_orders_view(old(entries)@),
            user@,
            r,
        ),
        forall|i: int, j: int|
            0 <= i < final(entries)@.len() && 0 <= j < final(entries)@.len() && i != j ==> (
            #[trigger] final(entries)@[i].user)@ != (#[trigger] final(entries)@[j].user)@,
{
    let ghost e0 = user_orders_view(entries@);
    match find_user_index(entries, user) {
        Some(i) => {
            let mut entry = entries.remove(i);
            entry.orders.push(r);
            entries.insert(i, entry);
            proof {
                assert(has_user(e0, user@)) by {
                    assert(0 <= i < e0.len() && e0[i as int].user == user@);
                }
                let k = user_index_of(e0, user@);
                assert(0 <= k < e0.len() && e0[k].user == user@);
                assert(k == i);
                assert(user_orders_view(entries@) =~= push_record_spec(e0, user@, r));
            }
        },
        None => {
            let entry = UserOrdersEntry { user: user.clone(), orders: vec_single(r) };
            entries.push(entry);
            proof {
                assert(!has_user(e0, user@));
                assert(user_orders_view(entries@) =~= push_record_spec(e0, user@, r));
            }
        },
    }
}

/// A one-element vector.
fn vec_single<T>(x: T) -> (v: Vec<T>)
    ensures
        v@ =~= seq![x],
{
    let mut v: Vec<T> = Vec::new();
    v.push(x);
    v
}

/// The whole engine state: administrator, market registry and user order
/// index. Market identifiers are positions in the registry.
#[derive(Debug)]
pub struct State {
    pub admin: Option<String>,
    pub markets: Vec<Market>,
    pub user_orders: Vec<UserOrdersEntry>,
}

impl State {
    /// Every market is well formed and registered under its own identifier,
    /// and no user owns two slices of the index.
    pub open spec fn wf(self) -> bool {
        &&& forall|k: int|
            0 <= k < self.markets@.len() ==> (#[trigger] self.markets@[k]).wf()
        &&& forall|k: int|
            0 <= k < self.markets@.len() ==> (#[trigger] self.markets@[k]).info.market_id == k
        &&& forall|i: int, j: int|
            0 <= i < self.user_orders@.len() && 0 <= j < self.user_orders@.len() && i != j ==> (
            #[trigger] self.user_orders@[i].user)@ != (#[trigger] self.user_orders@[j].user)@
    }

    /// A fresh state whose administrator is the instantiating identity: no
    /// markets, no orders.
    pub fn new(admin: String) -> (s: State)
        ensures
            s.wf(),
            s.admin == Some(admin),
            s.markets@.len() == 0,
            s.user_orders@.len() == 0,
    {
        State { admin: Some(admin), markets: Vec::new(), user_orders: Vec::new() }
    }

    /// Creates a market over the given currency pair and returns its
    /// identifier. Identifiers are sequential; nothing forbids two markets
    /// over one pair.
    pub fn add_market(&mut self, base_currency: CurrencyInfo, quote_currency: CurrencyInfo) -> (r:
        Result<u64, crate::ContractError>)
        requires
            old(self).wf(),
        ensures
            final(self).wf(),
            final(self).user_orders == old(self).user_orders,
            final(self).admin == old(self).admin,
            match r {
                Ok(id) => {
                    &&& id == old(self).markets@.len()
                    &&& old(self).markets@.len() < u64::MAX
                    &&& final(self).markets@.len() == old(self).markets@.len() + 1
                    &&& final(self).markets@.subrange(0, old(self).markets@.len() as int) == old(
                        self,
                    ).markets@
                    &&& final(self).markets@.last().info == (MarketInfo {
                        market_id: id,
                        base_currency,
                        quote_currency,
                        top_level_bid: None,
                        top_level_ask: None,
                    })
                    &&& final(self).markets@.last().bids@.len() == 0
                    &&& final(self).markets@.last().asks@.len() == 0
                },
                Err(e) => {
                    &&& e == crate::ContractError::Never
                    &&& old(self).markets@.len() >= u64::MAX
                    &&& *final(self) == *old(self)
                },
            },
    {
        if self.markets.len() as u64 == u64::MAX {
            return Err(crate::ContractError::Never);
        }
        let id = self.markets.len() as u64;
        let market = Market {
            info: MarketInfo {
                market_id: id,
                base_currency,
                quote_currency,
                top_level_bid: None,
                top_level_ask: None,
            },
            bids: Vec::new(),
            asks: Vec::new(),
            next_level_id: 0,
        };
        self.markets.push(market);
        proof {
            assert(self.markets@.subrange(0, old(self).markets@.len() as int) =~= old(
                self,
            ).markets@);
        }
        Ok(id)
    }
}

} // verus!
