//! Read-only views of the engine state: book snapshots, per-user orders,
//! the market list and the administrator.

use vstd::prelude::*;

use crate::market_logic::liquidity_consumer::{
    lemma_orders_total_append, lemma_orders_total_nonneg, lemma_orders_total_push, orders_total,
};
use crate::msg::{
    GetAdminResponse, GetMarketBookResponse, GetMarketsResponse, GetUserAsksResponse,
    GetUserBidsResponse, GetUserOrdersResponse,
};
use crate::state::{levels_view, user_orders_view, State, UserOrdersV};
use crate::structs::{orders_view, BookLevel, LevelOrder, LevelV, OrderSide, SingleMarketInfo, UserOrderRecord};
use crate::ContractError;

verus! {

/// The total resting quantity of one level's queue; the caller must know it
/// fits.
fn orders_total_exec(orders: &Vec<LevelOrder>) -> (r: u128)
    requires
        orders_total(orders_view(orders@)) <= u128::MAX,
    ensures
        r == orders_total(orders_view(orders@)),
{
    let ghost c = orders_view(orders@);
    let mut acc: u128 = 0;
    let mut j: usize = 0;
    proof {
        assert(c.take(0) =~= Seq::<crate::structs::OrderV>::empty());
    }
    while j < orders.len()
        invariant
            j <= orders@.len(),
            c == orders_view(orders@),
            orders_total(c) <= u128::MAX,
            acc == orders_total(c.take(j as int)),
        decreases orders@.len() - j,
    {
        let ghost jj = j as int;
        proof {
            assert(c.take(jj + 1) =~= c.take(jj).push(c[jj]));
            lemma_orders_total_push(c.take(jj), c[jj]);
            assert(c[jj] == orders@[jj]@);
            assert(c.take(jj + 1) + c.skip(jj + 1) =~= c);
            lemma_orders_total_append(c.take(jj + 1), c.skip(jj + 1));
            lemma_orders_total_nonneg(c.skip(jj + 1));
        }
        acc = acc + orders[j].amount;
        j = j + 1;
    }
    proof {
        assert(c.take(c.len() as int) =~= c);
    }
    acc
}

/// The first `nb_levels` levels of one side, aggregated to price and total
/// quantity.
fn book_of_side(levels: &Vec<crate::state::LevelEntry>, nb_levels: u32) -> (r: Vec<BookLevel>)
    requires
        forall|i: int|
            0 <= i < levels@.len() ==> orders_total(
                (#[trigger] levels_view(levels@)[i]).orders,
            ) <= u128::MAX,
    ensures
        r@.len() == (if nb_levels as int <= levels@.len() {
            nb_levels as int
        } else {
            levels@.len() as int
        }),
        forall|i: int|
            0 <= i < r@.len() ==> (#[trigger] r@[i]) == (BookLevel {
                price: levels_view(levels@)[i].price,
                quantity: orders_total(levels_view(levels@)[i].orders) as u128,
            }),
{
    let ghost v = levels_view(levels@);
    let mut out: Vec<BookLevel> = Vec::new();
    let mut i: usize = 0;
    while i < levels.len() && (i as u64) < (nb_levels as u64)
        invariant
            i <= levels@.len(),
            v == levels_view(levels@),
            i <= nb_levels,
            out@.len() == i,
            forall|k: int|
                0 <= k < levels@.len() ==> orders_total((#[trigger] v[k]).orders) <= u128::MAX,
            forall|k: int|
                0 <= k < i ==> (#[trigger] out@[k]) == (BookLevel {
                    price: v[k].price,
                    quantity: orders_total(v[k].orders) as u128,
                }),
        decreases levels@.len() - i,
    {
        proof {
            assert(orders_view(levels@[i as int].orders@) == v[i as int].orders);
            lemma_orders_total_nonneg(v[i as int].orders);
        }
        let quantity = orders_total_exec(&levels[i].orders);
        out.push(BookLevel { price: levels[i].data.price, quantity });
        i = i + 1;
    }
    out
}

/// A snapshot of the first `nb_levels` levels of each side of a market,
/// best price first.
pub fn get_market_book(state: &State, market_id: u64, nb_levels: u32) -> (r: Result<
    GetMarketBookResponse,
    ContractError,
>)
    requires
        state.wf(),
        (market_id as int) < state.markets@.len() ==> ({
            let m = state.markets@[market_id as int];
            &&& forall|i: int|
                0 <= i < m.bids@.len() ==> orders_total(
                    (#[trigger] levels_view(m.bids@)[i]).orders,
                ) <= u128::MAX
            &&& forall|i: int|
                0 <= i < m.asks@.len() ==> orders_total(
                    (#[trigger] levels_view(m.asks@)[i]).orders,
                ) <= u128::MAX
        }),
    ensures
        match r {
            Ok(resp) => ({
                let m = state.markets@[market_id as int];
                let bv = levels_view(m.bids@);
                let av = levels_view(m.asks@);
                &&& (market_id as int) < state.markets@.len()
                &&& resp.bids@.len() == (if nb_levels as int <= bv.len() {
                    nb_levels as int
                } else {
                    bv.len() as int
                })
                &&& forall|i: int|
                    0 <= i < resp.bids@.len() ==> (#[trigger] resp.bids@[i]) == (BookLevel {
                        price: bv[i].price,
                        quantity: orders_total(bv[i].orders) as u128,
                    })
                &&& resp.asks@.len() == (if nb_levels as int <= av.len() {
                    nb_levels as int
                } else {
                    av.len() as int
                })
                &&& forall|i: int|
                    0 <= i < resp.asks@.len() ==> (#[trigger] resp.asks@[i]) == (BookLevel {
                        price: av[i].price,
                        quantity: orders_total(av[i].orders) as u128,
                    })
            }),
            Err(e) => e == (ContractError::UnknownMarketId { id: market_id }) && (
            market_id as int) >= state.markets@.len(),
        },
{
    if market_id >= state.markets.len() as u64 {
        return Err(ContractError::UnknownMarketId { id: market_id });
    }
    let idx = market_id as usize;
    let bids = book_of_side(&state.markets[idx].bids, nb_levels);
    let asks = book_of_side(&state.markets[idx].asks, nb_levels);
    Ok(GetMarketBookResponse { bids, asks })
}

/// The records of one user kept by a market filter and a side filter.
pub open spec fn filter_records(
    orders: Seq<UserOrderRecord>,
    target_market: Option<u64>,
    target_side: Option<OrderSide>,
) -> Seq<UserOrderRecord>
    decreases orders.len(),
{
    if orders.len() == 0 {
        orders
    } else {
        let rest = filter_records(orders.drop_first(), target_market, target_side);
        let keep = (match target_market {
            Some(m) => orders[0].market_id == m,
            None => true,
        }) && (match target_side {
            Some(s) => orders[0].order_side == s,
            None => true,
        });
        if keep {
            seq![orders[0]] + rest
        } else {
            rest
        }
    }
}

/// The records of `user_address` kept by the given filters.
fn user_records_filtered(
    state: &State,
    user_address: &String,
    target_market: Option<u64>,
    target_side: Option<OrderSide>,
) -> (r: Vec<UserOrderRecord>)
    requires
        state.wf(),
    ensures
        ({
            let ev = user_orders_view(state.user_orders@);
            if crate::state::has_user(ev, user_address@) {
                r@ == filter_records(
                    ev[crate::state::user_index_of(ev, user_address@)].orders,
                    target_market,
                    target_side,
                )
            } else {
                r@.len() == 0
            }
        }),
{
    let ghost ev = user_orders_view(state.user_orders@);
    let ui = match crate::state::find_user_index(&state.user_orders, user_address) {
        Some(i) => i,
        None => {
            proof {
                assert(!crate::state::has_user(ev, user_address@)) by {
                    assert(forall|i: int|
                        0 <= i < ev.len() ==> (#[trigger] ev[i]).user != user_address@);
                }
            }
            return Vec::new();
        },
    };
    proof {
        assert(ev[ui as int].user == user_address@);
        assert(crate::state::has_user(ev, user_address@));
        let k = crate::state::user_index_of(ev, user_address@);
        assert(0 <= k < ev.len() && ev[k].user == user_address@);
        assert(k == ui as int);
    }
    let orders = &state.user_orders[ui].orders;
    let ghost r0 = orders@;
    let mut out: Vec<UserOrderRecord> = Vec::new();
    proof {
        assert(r0.skip(0) =~= r0);
        assert(Seq::<UserOrderRecord>::empty() + filter_records(r0, target_market, target_side)
            =~= filter_records(r0, target_market, target_side));
    }
    let mut j: usize = 0;
    while j < orders.len()
        invariant
            j <= orders@.len(),
            orders@ == r0,
            filter_records(r0, target_market, target_side) == out@ + filter_records(
                r0.skip(j as int),
                target_market,
                target_side,
            ),
        decreases orders@.len() - j,
    {
        let ghost jj = j as int;
        let ghost pre_out = out@;
        proof {
            assert(r0.skip(jj).drop_first() =~= r0.skip(jj + 1));
            assert(r0.skip(jj)[0] == r0[jj]);
        }
        let rec = orders[j];
        let keep_market = match target_market {
            Some(m) => rec.market_id == m,
            None => true,
        };
        let keep_side = match target_side {
            Some(s) => rec.order_side == s,
            None => true,
        };
        if keep_market && keep_side {
            out.push(rec);
            proof {
                assert(pre_out + (seq![r0[jj]] + filter_records(
                    r0.skip(jj + 1),
                    target_market,
                    target_side,
                )) =~= pre_out.push(r0[jj]) + filter_records(
                    r0.skip(jj + 1),
                    target_market,
                    target_side,
                ));
            }
        }
        j = j + 1;
    }
    proof {
        assert(r0.skip(r0.len() as int) =~= Seq::<UserOrderRecord>::empty());
        assert(out@ + Seq::<UserOrderRecord>::empty() =~= out@);
    }
    out
}

/// All open orders of a user, optionally restricted to one market.
pub fn get_user_orders(state: &State, user_address: &String, target_market: Option<u64>) -> (r:
    GetUserOrdersResponse)
    requires
        state.wf(),
    ensures
        ({
            let ev = user_orders_view(state.user_orders@);
            if crate::state::has_user(ev, user_address@) {
                r.orders@ == filter_records(
                    ev[crate::state::user_index_of(ev, user_address@)].orders,
                    target_market,
                    None::<OrderSide>,
                )
            } else {
                r.orders@.len() == 0
            }
        }),
{
    GetUserOrdersResponse {
        orders: user_records_filtered(state, user_address, target_market, None),
    }
}

/// A user's open buy orders, optionally restricted to one market.
pub fn get_user_bids(state: &State, user_address: &String, target_market: Option<u64>) -> (r:
    GetUserBidsResponse)
    requires
        state.wf(),
    ensures
        ({
            let ev = user_orders_view(state.user_orders@);
            if crate::state::has_user(ev, user_address@) {
                r.orders@ == filter_records(
                    ev[crate::state::user_index_of(ev, user_address@)].orders,
                    target_market,
                    Some(OrderSide::Buy),
                )
            } else {
                r.orders@.len() == 0
            }
        }),
{
    GetUserBidsResponse {
        orders: user_records_filtered(state, user_address, target_market, Some(OrderSide::Buy)),
    }
}

/// A user's open sell orders, optionally restricted to one market.
pub fn get_user_asks(state: &State, user_address: &String, target_market: Option<u64>) -> (r:
    GetUserAsksResponse)
    requires
        state.wf(),
    ensures
        ({
            let ev = user_orders_view(state.user_orders@);
            if crate::state::has_user(ev, user_address@) {
                r.orders@ == filter_records(
                    ev[crate::state::user_index_of(ev, user_address@)].orders,
                    target_market,
                    Some(OrderSide::Sell),
                )
            } else {
                r.orders@.len() == 0
            }
        }),
{
    GetUserAsksResponse {
        orders: user_records_filtered(state, user_address, target_market, Some(OrderSide::Sell)),
    }
}

/// The currency pair of every market, in identifier order.
pub fn get_markets(state: &State) -> (r: GetMarketsResponse)
    requires
        state.wf(),
    ensures
        r.markets@.len() == state.markets@.len(),
        forall|i: int|
            0 <= i < state.markets@.len() ==> (#[trigger] r.markets@[i]) == (SingleMarketInfo {
                market_id: state.markets@[i].info.market_id,
                base_currency: state.markets@[i].info.base_currency,
                quote_currency: state.markets@[i].info.quote_currency,
            }),
{
    let mut out: Vec<SingleMarketInfo> = Vec::new();
    let mut i: usize = 0;
    while i < state.markets.len()
        invariant
            i <= state.markets@.len(),
            out@.len() == i,
            forall|k: int|
                0 <= k < i ==> (#[trigger] out@[k]) == (SingleMarketInfo {
                    market_id: state.markets@[k].info.market_id,
                    base_currency: state.markets@[k].info.base_currency,
                    quote_currency: state.markets@[k].info.quote_currency,
                }),
        decreases state.markets@.len() - i,
    {
        out.push(
            SingleMarketInfo {
                market_id: state.markets[i].info.market_id,
                base_currency: state.markets[i].info.base_currency.duplicate(),
                quote_currency: state.markets[i].info.quote_currency.duplicate(),
            },
        );
        i = i + 1;
    }
    GetMarketsResponse { markets: out }
}

/// The current administrator, if one is set.
pub fn get_admin(state: &State) -> (r: GetAdminResponse)
    ensures
        r.admin == state.admin,
{
    let admin = match &state.admin {
        Some(a) => Some(a.clone()),
        None => None,
    };
    GetAdminResponse { admin }
}

} // verus!
