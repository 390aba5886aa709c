//! Order routing: classifying an inbound order by its currency, topping an
//! existing resting order up, or handing it to the maker or taker path.

use vstd::prelude::*;

use crate::market_logic::liquidity_consumer::{
    consume_walk_spec, lemma_limit_walk_respects_limit, lemma_walk_head_price, price_consumable,
    side_settlement, side_total, taker_ok, process_liquidity_taker,
};
use crate::market_logic::liquidity_provider::{
    lemma_insert_head_price, maker_ok, process_limit_maker,
};
use crate::market_logic::liquidity_remover::{
    cancel_spec, has_price, price_index_of, remove_order,
};
use crate::msg::{ExecuteMsg, SeleneCw20Msg};
use crate::state::{
    find_user_index, has_user, levels_view, push_record_spec, push_user_record, user_index_of,
    user_orders_view, wf_side, LevelEntry, Market, State, UserOrdersEntry, UserOrdersV,
};
use crate::structs::{
    currency_matches, orders_view, other_side, price_closer_to_mid, transfers_view, CoinData,
    LevelOrder, LevelV, OrderSide, OrderV, TransferInstruction, UserOrderRecord,
};
use crate::utils::check_only_one_fund;
use crate::ContractError;

verus! {

/// Whether a record belongs to (`market_id`, `side`, `price`).
pub open spec fn record_matches(
    r: UserOrderRecord,
    market_id: u64,
    side: OrderSide,
    price: u128,
) -> bool {
    r.market_id == market_id && r.order_side == side && r.price == price
}

/// Whether `user` already has a record at (`market_id`, `side`, `price`).
pub open spec fn has_matching_record(
    entries: Seq<UserOrdersV>,
    user: Seq<char>,
    market_id: u64,
    side: OrderSide,
    price: u128,
) -> bool {
    exists|i: int, j: int|
        0 <= i < entries.len() && entries[i].user == user && 0 <= j < entries[i].orders.len()
            && record_matches(#[trigger] entries[i].orders[j], market_id, side, price)
}

/// One record list with `qty` added to every record of (`market_id`,
/// `side`, `price`).
pub open spec fn bump_records(
    orders: Seq<UserOrderRecord>,
    market_id: u64,
    side: OrderSide,
    price: u128,
    qty: u128,
) -> Seq<UserOrderRecord> {
    orders.map(
        |i: int, r: UserOrderRecord|
            if record_matches(r, market_id, side, price) {
                UserOrderRecord {
                    market_id: r.market_id,
                    order_side: r.order_side,
                    price: r.price,
                    quantity: (r.quantity + qty) as u128,
                }
            } else {
                r
            },
    )
}

/// The order index after one user's matching records are topped up.
pub open spec fn bump_user_records(
    entries: Seq<UserOrdersV>,
    user: Seq<char>,
    market_id: u64,
    side: OrderSide,
    price: u128,
    qty: u128,
) -> Seq<UserOrdersV> {
    entries.map(
        |i: int, e: UserOrdersV|
            if e.user == user {
                UserOrdersV { user: e.user, orders: bump_records(e.orders, market_id, side, price, qty) }
            } else {
                e
            },
    )
}

/// One level queue with `qty` added to every entry of `user`.
pub open spec fn bump_level_orders(orders: Seq<OrderV>, user: Seq<char>, qty: u128) -> Seq<
    OrderV,
> {
    orders.map(
        |i: int, o: OrderV|
            if o.user == user {
                OrderV { user: o.user, amount: (o.amount + qty) as u128 }
            } else {
                o
            },
    )
}

/// No top-up of `qty` for `user` at (`market_id`, `side`, `price`) would
/// overflow a record or a queue entry.
pub open spec fn aggregation_fits(
    st: State,
    user: Seq<char>,
    market_id: u64,
    side: OrderSide,
    price: u128,
    qty: u128,
) -> bool {
    &&& forall|i: int, j: int|
        0 <= i < st.user_orders@.len() && st.user_orders@[i].user@ == user && 0 <= j
            < st.user_orders@[i].orders@.len() && record_matches(
            #[trigger] st.user_orders@[i].orders@[j],
            market_id,
            side,
            price,
        ) ==> st.user_orders@[i].orders@[j].quantity + qty <= u128::MAX
    &&& ((market_id as int) < st.markets@.len() ==> forall|i: int, j: int|
        0 <= i < st.markets@[market_id as int].side_levels(side).len()
            && st.markets@[market_id as int].side_levels(side)[i].data.price == price && 0 <= j
            < st.markets@[market_id as int].side_levels(side)[i].orders@.len() && (
        #[trigger] st.markets@[market_id as int].side_levels(side)[i].orders@[j]).user@ == user
            ==> st.markets@[market_id as int].side_levels(side)[i].orders@[j].amount + qty
            <= u128::MAX)
}

/// How a top-up of an existing resting order relates the state after it to
/// the one before it: the user's matching records grow by the quantity, as
/// do the user's entries in the queue of the level at that price; nothing
/// else moves.
pub open spec fn aggregate_ok(
    pre: State,
    post: State,
    user: Seq<char>,
    market_id: u64,
    side: OrderSide,
    price: u128,
    qty: u128,
) -> bool {
    let om = pre.markets@[market_id as int];
    let nm = post.markets@[market_id as int];
    let v = levels_view(om.side_levels(side));
    &&& user_orders_view(post.user_orders@) == bump_user_records(
        user_orders_view(pre.user_orders@),
        user,
        market_id,
        side,
        price,
        qty,
    )
    &&& post.markets@.len() == pre.markets@.len()
    &&& forall|k: int|
        0 <= k < pre.markets@.len() && k != market_id ==> (#[trigger] post.markets@[k])
            == pre.markets@[k]
    &&& nm.info == om.info
    &&& nm.side_levels(other_side(side)) == om.side_levels(other_side(side))
    &&& if has_price(v, price) {
        levels_view(nm.side_levels(side)) == v.update(
            price_index_of(v, price),
            LevelV {
                price: v[price_index_of(v, price)].price,
                orders: bump_level_orders(v[price_index_of(v, price)].orders, user, qty),
            },
        )
    } else {
        levels_view(nm.side_levels(side)) == levels_view(om.side_levels(side))
    }
}

/// Whether a limit order at `price` on `side` rests as a maker: the
/// opposite side is empty, or its top is strictly worse than the price.
pub open spec fn rests_as_maker(m: Market, side: OrderSide, price: u128) -> bool {
    let opp = m.side_levels(other_side(side));
    opp.len() == 0 || price_closer_to_mid(other_side(side), price, opp[0].data.price)
}

/// How a successful limit order relates the state after it to the one
/// before it: a top-up when the user already rests at that price and side,
/// otherwise a plain maker insertion when the order does not cross, and the
/// taker walk when it does. Only the first two leave the settlement list
/// empty.
pub open spec fn limit_order_ok(
    pre: State,
    post: State,
    transfers: Seq<crate::structs::TransferV>,
    sender: Seq<char>,
    market_id: u64,
    side: OrderSide,
    price: u128,
    qty: u128,
) -> bool {
    if has_matching_record(user_orders_view(pre.user_orders@), sender, market_id, side, price) {
        &&& transfers.len() == 0
        &&& aggregate_ok(pre, post, sender, market_id, side, price, qty)
    } else if rests_as_maker(pre.markets@[market_id as int], side, price) {
        &&& transfers.len() == 0
        &&& maker_ok(pre, post, sender, market_id, price, qty, side)
        &&& user_orders_view(post.user_orders@) == push_record_spec(
            user_orders_view(pre.user_orders@),
            sender,
            UserOrderRecord { market_id, order_side: side, price, quantity: qty },
        )
    } else {
        taker_ok(pre, post, transfers, sender, market_id, Some(price), qty, side)
    }
}

/// Whether `user` already has a record at (`market_id`, `side`, `price`).
fn find_matching_record(
    entries: &Vec<UserOrdersEntry>,
    user: &String,
    market_id: u64,
    side: OrderSide,
    price: u128,
) -> (r: bool)
    requires
        forall|i: int, j: int|
            0 <= i < entries@.len() && 0 <= j < entries@.len() && i != j ==> (
            #[trigger] entries@[i].user)@ != (#[trigger] entries@[j].user)@,
    ensures
        r == has_matching_record(user_orders_view(entries@), user@, market_id, side, price),
{
    let ghost ev = user_orders_view(entries@);
    let idx = match find_user_index(entries, user) {
        None => {
            proof {
                assert(!has_matching_record(ev, user@, market_id, side, price)) by {
                    assert(forall|i: int|
                        0 <= i < ev.len() ==> (#[trigger] ev[i]).user != user@);
                }
            }
            return false;
        },
        Some(i) => i,
    };
    let orders = &entries[idx].orders;
    let mut j: usize = 0;
    while j < orders.len()
        invariant
            j <= orders@.len(),
            idx < entries@.len(),
            ev == user_orders_view(entries@),
            orders@ == entries@[idx as int].orders@,
            entries@[idx as int].user@ == user@,
            forall|jj: int|
                0 <= jj < j ==> !record_matches(
                    #[trigger] ev[idx as int].orders[jj],
                    market_id,
                    side,
                    price,
                ),
        decreases orders@.len() - j,
    {
        let rec = &orders[j];
        if rec.market_id == market_id && rec.order_side == side && rec.price == price {
            proof {
                assert(ev[idx as int].orders[j as int] == orders@[j as int]);
                assert(has_matching_record(ev, user@, market_id, side, price));
            }
            return true;
        }
        j = j + 1;
    }
    // One slice per user: no other slice can hold a record of this user.
    proof {
        assert forall|i: int, jj: int|
            !(0 <= i < ev.len() && ev[i].user == user@ && 0 <= jj < ev[i].orders.len()
                && record_matches(#[trigger] ev[i].orders[jj], market_id, side, price)) by {
            if 0 <= i < ev.len() && ev[i].user == user@ && i != idx as int {
                assert(entries@[i].user@ != entries@[idx as int].user@);
            }
        }
    }
    false
}

/// Adds `qty` to every record of `user` at (`market_id`, `side`, `price`).
fn bump_user_records_exec(
    entries: &mut Vec<UserOrdersEntry>,
    user: &String,
    market_id: u64,
    side: OrderSide,
    price: u128,
    qty: u128,
)
    requires
        forall|i: int, j: int|
            0 <= i < old(entries)@.len() && old(entries)@[i].user@ == user@ && 0 <= j < old(
                entries,
            )@[i].orders@.len() && record_matches(
                #[trigger] old(entries)@[i].orders@[j],
                market_id,
                side,
                price,
            ) ==> old(entries)@[i].orders@[j].quantity + qty <= u128::MAX,
        forall|i: int, j: int|
            0 <= i < old(entries)@.len() && 0 <= j < old(entries)@.len() && i != j ==> (
            #[trigger] old(entries)@[i].user)@ != (#[trigger] old(entries)@[j].user)@,
    ensures
        user_orders_view(final(entries)@) == bump_user_records(
            user_orders_view(old(entries)@),
            user@,
            market_id,
            side,
            price,
            qty,
        ),
        final(entries)@.len() == old(entries)@.len(),
        forall|i: int|
            0 <= i < old(entries)@.len() ==> (#[trigger] final(entries)@[i]).user
                == old(entries)@[i].user,
{
    let ghost e0 = entries@;
    let idx = match find_user_index(entries, user) {
        None => {
            proof {
                assert(user_orders_view(entries@) =~= bump_user_records(
                    user_orders_view(e0),
                    user@,
                    market_id,
                    side,
                    price,
                    qty,
                ));
            }
            return ;
        },
        Some(i) => i,
    };
    let mut entry = entries.remove(idx);
    let ghost r0 = entry.orders@;
    proof {
        assert(entry.user@ == user@);
    }
    let mut bumped: Vec<UserOrderRecord> = Vec::new();
    let mut j: usize = 0;
    while j < entry.orders.len()
        invariant
            j <= entry.orders@.len(),
            entry.orders@ == r0,
            idx < e0.len(),
            entry.user == e0[idx as int].user,
            entry.user@ == user@,
            bumped@.len() == j,
            forall|k: int|
                0 <= k < r0.len() && record_matches(#[trigger] r0[k], market_id, side, price)
                    ==> r0[k].quantity + qty <= u128::MAX,
            forall|k: int|
                0 <= k < j ==> (#[trigger] bumped@[k]) == bump_records(
                    r0,
                    market_id,
                    side,
                    price,
                    qty,
                )[k],
        decreases entry.orders@.len() - j,
    {
        let r = entry.orders[j];
        if r.market_id == market_id && r.order_side == side && r.price == price {
            bumped.push(
                UserOrderRecord {
                    market_id: r.market_id,
                    order_side: r.order_side,
                    price: r.price,
                    quantity: r.quantity + qty,
                },
            );
        } else {
            bumped.push(r);
        }
        j = j + 1;
    }
    proof {
        assert(bumped@ =~= bump_records(r0, market_id, side, price, qty));
    }
    entry.orders = bumped;
    entries.insert(idx, entry);
    proof {
        assert(user_orders_view(entries@) =~= bump_user_records(
            user_orders_view(e0),
            user@,
            market_id,
            side,
            price,
            qty,
        ));
    }
}

/// Adds `qty` to every entry of `user` in the queue of the level at
/// `price`, if such a level rests on this side.
fn bump_level_orders_exec(levels: &mut Vec<LevelEntry>, user: &String, price: u128, qty: u128)
    requires
        forall|i: int, j: int|
            0 <= i < j < old(levels)@.len() ==> (#[trigger] old(levels)@[i]).data.price != (
            #[trigger] old(levels)@[j]).data.price,
        forall|i: int, j: int|
            0 <= i < old(levels)@.len() && old(levels)@[i].data.price == price && 0 <= j < old(
                levels,
            )@[i].orders@.len() && (#[trigger] old(levels)@[i].orders@[j]).user@ == user@ ==> old(
                levels,
            )@[i].orders@[j].amount + qty <= u128::MAX,
    ensures
        final(levels)@.len() == old(levels)@.len(),
        forall|i: int|
            0 <= i < old(levels)@.len() ==> (#[trigger] final(levels)@[i]).id == old(levels)@[i].id
                && final(levels)@[i].data == old(levels)@[i].data,
        ({
            let v = levels_view(old(levels)@);
            let vf = levels_view(final(levels)@);
            if has_price(v, price) {
                vf == v.update(
                    price_index_of(v, price),
                    LevelV {
                        price: v[price_index_of(v, price)].price,
                        orders: bump_level_orders(
                            v[price_index_of(v, price)].orders,
                            user@,
                            qty,
                        ),
                    },
                )
            } else {
                vf == v
            }
        }),
{
    let ghost v0 = levels@;
    let ghost v = levels_view(v0);
    let pos = {
        let mut i: usize = 0;
        loop
            invariant
                i <= levels@.len(),
                levels@ == v0,
                v == levels_view(v0),
                forall|j: int| 0 <= j < i ==> (#[trigger] v0[j]).data.price != price,
            ensures
                i <= levels@.len(),
                levels@ == v0,
                i < levels@.len() ==> v0[i as int].data.price == price,
                i == levels@.len() ==> !has_price(v, price),
            decreases levels@.len() - i,
        {
            if i >= levels.len() {
                proof {
                    assert(v.len() == v0.len());
                    assert forall|j: int| 0 <= j < v.len() implies (#[trigger] v[j]).price
                        != price by {
                        assert(v[j] == v0[j]@);
                        assert(v0[j].data.price != price);
                    }
                }
                break ;
            }
            if levels[i].data.price == price {
                break ;
            }
            i = i + 1;
        }
        i
    };
    if pos >= levels.len() {
        proof {
            assert(levels_view(levels@) =~= v);
        }
        return ;
    }
    proof {
        assert(v[pos as int].price == price);
        assert(has_price(v, price));
    }
    let mut e = levels.remove(pos);
    let ghost r0 = orders_view(e.orders@);
    let mut bumped: Vec<LevelOrder> = Vec::new();
    let mut j: usize = 0;
    while j < e.orders.len()
        invariant
            j <= e.orders@.len(),
            r0 == orders_view(e.orders@),
            bumped@.len() == j,
            forall|k: int|
                0 <= k < r0.len() && (#[trigger] r0[k]).user == user@ ==> r0[k].amount + qty
                    <= u128::MAX,
            forall|k: int|
                0 <= k < j ==> (#[trigger] orders_view(bumped@)[k]) == bump_level_orders(
                    r0,
                    user@,
                    qty,
                )[k],
        decreases e.orders@.len() - j,
    {
        let o = &e.orders[j];
        proof {
            assert(o@ == r0[j as int]);
        }
        let ghost pre_bumped = bumped@;
        if o.user == *user {
            bumped.push(LevelOrder { user: o.user.clone(), amount: o.amount + qty });
        } else {
            bumped.push(LevelOrder { user: o.user.clone(), amount: o.amount });
        }
        proof {
            assert(orders_view(bumped@) =~= orders_view(pre_bumped).push(bumped@.last()@));
            assert(bumped@.last()@ == bump_level_orders(r0, user@, qty)[j as int]);
        }
        j = j + 1;
    }
    proof {
        assert(orders_view(bumped@) =~= bump_level_orders(r0, user@, qty));
    }
    e.orders = bumped;
    levels.insert(pos, e);
    proof {
        let p = price_index_of(v, price);
        assert(0 <= p < v.len() && v[p].price == price);
        assert(p == pos as int) by {
            if p != pos as int {
                assert(v0[p].data.price == price);
                assert(v0[pos as int].data.price == price);
            }
        }
        assert(levels@ =~= v0.update(pos as int, levels@[pos as int]));
        assert(levels_view(levels@) =~= v.update(
            p,
            LevelV { price: v[p].price, orders: bump_level_orders(v[p].orders, user@, qty) },
        ));
    }
}

/// What a limit order call must be able to assume of the state: settlement
/// over the side it may walk stays representable, and a top-up cannot
/// overflow.
pub open spec fn limit_order_requires(
    st: State,
    sender: Seq<char>,
    currency: Seq<char>,
    qty: u128,
    market_id: u64,
    price: u128,
) -> bool {
    (market_id as int) < st.markets@.len() ==> ({
        let om = st.markets@[market_id as int];
        &&& (currency_matches(om.info.base_currency, currency) ==> side_settlement(
            levels_view(om.bids@),
        ) <= u128::MAX && aggregation_fits(st, sender, market_id, OrderSide::Sell, price, qty))
        &&& (!currency_matches(om.info.base_currency, currency) && currency_matches(
            om.info.quote_currency,
            currency,
        ) ==> side_settlement(levels_view(om.asks@)) <= u128::MAX && aggregation_fits(
            st,
            sender,
            market_id,
            OrderSide::Buy,
            price,
            qty,
        ))
    })
}

/// The complete result of a limit order call.
pub open spec fn limit_order_post(
    pre: State,
    post: State,
    r: Result<Seq<crate::structs::TransferV>, ContractError>,
    sender: Seq<char>,
    currency: Seq<char>,
    qty: u128,
    market_id: u64,
    price: u128,
) -> bool {
    let known = (market_id as int) < pre.markets@.len();
    let om = pre.markets@[market_id as int];
    let is_base = currency_matches(om.info.base_currency, currency);
    let is_quote = currency_matches(om.info.quote_currency, currency);
    let side = if is_base {
        OrderSide::Sell
    } else {
        OrderSide::Buy
    };
    match r {
        Ok(transfers) => known && (is_base || is_quote) && limit_order_ok(
            pre,
            post,
            transfers,
            sender,
            market_id,
            side,
            price,
            qty,
        ),
        Err(e) => {
            if !known {
                &&& e == (ContractError::UnknownMarketId { id: market_id })
                &&& post.markets@ == pre.markets@
                &&& post.user_orders == pre.user_orders
            } else if !is_base && !is_quote {
                &&& e == ContractError::MismatchDenomAndMarket
                &&& post.markets@ == pre.markets@
                &&& post.user_orders == pre.user_orders
            } else {
                &&& e == ContractError::Never
                &&& om.next_level_id == u64::MAX
                &&& !has_price(levels_view(om.side_levels(side)), price)
                &&& post.markets@ == pre.markets@
                &&& post.user_orders == pre.user_orders
            }
        },
    }
}

/// What a market order call must be able to assume of the state: settlement
/// over the side it walks stays representable.
pub open spec fn market_order_requires(st: State, currency: Seq<char>, market_id: u64) -> bool {
    (market_id as int) < st.markets@.len() ==> ({
        let om = st.markets@[market_id as int];
        &&& (currency_matches(om.info.quote_currency, currency) ==> side_settlement(
            levels_view(om.asks@),
        ) <= u128::MAX)
        &&& (!currency_matches(om.info.quote_currency, currency) && currency_matches(
            om.info.base_currency,
            currency,
        ) ==> side_settlement(levels_view(om.bids@)) <= u128::MAX)
    })
}

/// The complete result of a market order call.
pub open spec fn market_order_post(
    pre: State,
    post: State,
    r: Result<Seq<crate::structs::TransferV>, ContractError>,
    sender: Seq<char>,
    currency: Seq<char>,
    qty: u128,
    market_id: u64,
) -> bool {
    let known = (market_id as int) < pre.markets@.len();
    let om = pre.markets@[market_id as int];
    let is_quote = currency_matches(om.info.quote_currency, currency);
    let is_base = currency_matches(om.info.base_currency, currency);
    let side = if is_quote {
        OrderSide::Buy
    } else {
        OrderSide::Sell
    };
    match r {
        Ok(transfers) => known && (is_quote || is_base) && taker_ok(
            pre,
            post,
            transfers,
            sender,
            market_id,
            None,
            qty,
            side,
        ),
        Err(e) => {
            &&& post.markets@ == pre.markets@
            &&& post.user_orders == pre.user_orders
            &&& if !known {
                e == (ContractError::UnknownMarketId { id: market_id })
            } else if !is_quote && !is_base {
                e == ContractError::MismatchDenomAndMarket
            } else {
                &&& e == ContractError::NotEnoughLiquidityMarketOrder
                &&& qty > side_total(levels_view(om.side_levels(other_side(side))))
            }
        },
    }
}

/// Processes a limit order deposited in `currency`: tops up the sender's
/// existing resting order at that price when one exists, otherwise rests it
/// as a maker when it does not cross the book, and otherwise hands it to the
/// taker path at its limit price.
pub fn execute_limit_order_core(
    state: &mut State,
    sender: String,
    currency: &str,
    order_quantity: u128,
    market_id: u64,
    order_price: u128,
) -> (r: Result<Vec<TransferInstruction>, ContractError>)
    requires
        old(state).wf(),
        limit_order_requires(
            *old(state),
            sender@,
            currency@,
            order_quantity,
            market_id,
            order_price,
        ),
    ensures
        final(state).wf(),
        final(state).admin == old(state).admin,
        final(state).markets@.len() == old(state).markets@.len(),
        limit_order_post(
            *old(state),
            *final(state),
            match r {
                Ok(transfers) => Ok(transfers_view(transfers@)),
                Err(e) => Err(e),
            },
            sender@,
            currency@,
            order_quantity,
            market_id,
            order_price,
        ),
{
    if market_id >= state.markets.len() as u64 {
        return Err(ContractError::UnknownMarketId { id: market_id });
    }
    let idx = market_id as usize;
    let ghost om = state.markets@[idx as int];

    let currency_status = match state.markets[idx].info.get_currency_status(currency) {
        Ok(s) => s,
        Err(e) => {
            return Err(e);
        },
    };
    let order_side = crate::structs::MarketInfo::get_order_side_from_currency_status(
        currency_status,
    );

    // A user already resting at this price and side tops the order up.
    if find_matching_record(&state.user_orders, &sender, market_id, order_side, order_price) {
        bump_user_records_exec(
            &mut state.user_orders,
            &sender,
            market_id,
            order_side,
            order_price,
            order_quantity,
        );
        let ghost ms0 = state.markets@;
        let mut m = state.markets.remove(idx);
        match order_side {
            OrderSide::Buy => bump_level_orders_exec(
                &mut m.bids,
                &sender,
                order_price,
                order_quantity,
            ),
            OrderSide::Sell => bump_level_orders_exec(
                &mut m.asks,
                &sender,
                order_price,
                order_quantity,
            ),
        }
        proof {
            assert(m.wf()) by {
                assert(om.wf());
                match order_side {
                    OrderSide::Buy => {
                        assert(wf_side(
                            m.bids@,
                            m.info.top_level_bid,
                            m.next_level_id,
                            OrderSide::Buy,
                        )) by {
                            assert(forall|i: int|
                                0 <= i < m.bids@.len() ==> (#[trigger] m.bids@[i]).id
                                    == om.bids@[i].id && m.bids@[i].data == om.bids@[i].data);
                        }
                    },
                    OrderSide::Sell => {
                        assert(wf_side(
                            m.asks@,
                            m.info.top_level_ask,
                            m.next_level_id,
                            OrderSide::Sell,
                        )) by {
                            assert(forall|i: int|
                                0 <= i < m.asks@.len() ==> (#[trigger] m.asks@[i]).id
                                    == om.asks@[i].id && m.asks@[i].data == om.asks@[i].data);
                        }
                    },
                }
                assert(forall|i: int, j: int|
                    0 <= i < m.bids@.len() && 0 <= j < m.asks@.len() ==> (
                    #[trigger] m.bids@[i].id) != (#[trigger] m.asks@[j].id));
            }
        }
        state.markets.insert(idx, m);
        proof {
            assert(state.markets@ =~= ms0.update(idx as int, m));
        }
        return Ok(Vec::new());
    }

    // No resting order yet: rest it when it does not cross, match otherwise.
    let maker = match order_side {
        OrderSide::Sell => state.markets[idx].bids.len() == 0 || state.markets[idx].bids[0].data.price
            < order_price,
        OrderSide::Buy => state.markets[idx].asks.len() == 0 || state.markets[idx].asks[0].data.price
            > order_price,
    };
    if maker {
        match process_limit_maker(
            state,
            sender.clone(),
            market_id,
            order_price,
            order_quantity,
            order_side,
        ) {
            Ok(()) => {},
            Err(e) => {
                return Err(e);
            },
        }
        push_user_record(
            &mut state.user_orders,
            &sender,
            UserOrderRecord {
                market_id,
                order_side,
                price: order_price,
                quantity: order_quantity,
            },
        );
        return Ok(Vec::new());
    }
    process_liquidity_taker(
        state,
        sender,
        market_id,
        Some(order_price),
        order_quantity,
        order_side,
    )
}

/// Processes a market order deposited in `currency`: the whole quantity is
/// matched against the opposing side, and the order fails when that side
/// holds less than the quantity.
pub fn execute_market_order_core(
    state: &mut State,
    sender: String,
    currency: &str,
    order_quantity: u128,
    market_id: u64,
) -> (r: Result<Vec<TransferInstruction>, ContractError>)
    requires
        old(state).wf(),
        market_order_requires(*old(state), currency@, market_id),
    ensures
        final(state).wf(),
        final(state).admin == old(state).admin,
        final(state).markets@.len() == old(state).markets@.len(),
        market_order_post(
            *old(state),
            *final(state),
            match r {
                Ok(transfers) => Ok(transfers_view(transfers@)),
                Err(e) => Err(e),
            },
            sender@,
            currency@,
            order_quantity,
            market_id,
        ),
{
    if market_id >= state.markets.len() as u64 {
        return Err(ContractError::UnknownMarketId { id: market_id });
    }
    let idx = market_id as usize;
    let order_side = match state.markets[idx].info.get_order_side_from_currency(currency) {
        Ok(s) => s,
        Err(e) => {
            return Err(e);
        },
    };
    process_liquidity_taker(state, sender, market_id, None, order_quantity, order_side)
}

/// A taker call never leaves the book crossed: consumption only worsens the
/// opposing top, and a remainder rests only at a limit the opposing top is
/// already strictly worse than.
#[verifier::rlimit(100)]
pub proof fn lemma_taker_keeps_uncrossed(
    pre: State,
    post: State,
    transfers: Seq<crate::structs::TransferV>,
    sender: Seq<char>,
    market_id: u64,
    opt_order_price: Option<u128>,
    qty: u128,
    side: OrderSide,
)
    requires
        pre.wf(),
        (market_id as int) < pre.markets@.len(),
        (market_id as int) < post.markets@.len(),
        pre.markets@[market_id as int].not_crossed(),
        taker_ok(pre, post, transfers, sender, market_id, opt_order_price, qty, side),
    ensures
        post.markets@[market_id as int].not_crossed(),
{
    let om = pre.markets@[market_id as int];
    let nm = post.markets@[market_id as int];
    let opp = other_side(side);
    let v = levels_view(om.side_levels(opp));
    let walk = consume_walk_spec(v, qty, opt_order_price, side);
    lemma_walk_head_price(v, qty, opt_order_price, side);
    lemma_limit_walk_respects_limit(v, qty, opt_order_price, side);
    assert(om.wf());
    if nm.bids@.len() > 0 && nm.asks@.len() > 0 {
        // The new opposing top rested on the old opposing side, so it is at
        // or past the old opposing top.
        assert(levels_view(nm.side_levels(opp)) == walk.levels);
        assert(walk.levels.len() > 0 ==> v.len() > 0) by {
            if walk.levels.len() > 0 {
                let j = choose|j: int| 0 <= j < v.len() && walk.levels[0].price == v[j].price;
            }
        }
        match side {
            OrderSide::Buy => {
                let nah = nm.asks@[0].data.price;
                assert(nah == walk.levels[0].price);
                let j = choose|j: int| 0 <= j < v.len() && walk.levels[0].price == v[j].price;
                assert(v[j].price == om.asks@[j].data.price);
                assert(v[0].price == om.asks@[0].data.price);
                assert(nah >= om.asks@[0].data.price);
                if walk.remaining > 0 {
                    let limit = opt_order_price->0;
                    assert(!price_consumable(walk.levels[0].price, opt_order_price, side));
                    assert(nah > limit);
                    lemma_insert_head_price(
                        levels_view(om.bids@),
                        side,
                        limit,
                        OrderV { user: sender, amount: walk.remaining },
                    );
                    assert(nm.bids@[0].data.price == levels_view(nm.bids@)[0].price);
                    assert(levels_view(nm.bids@)[0].price == limit || (om.bids@.len() > 0
                        && levels_view(nm.bids@)[0].price == om.bids@[0].data.price));
                    if levels_view(nm.bids@)[0].price == limit {
                    } else {
                        assert(om.bids@[0].data.price < om.asks@[0].data.price);
                    }
                } else {
                    assert(nm.bids@ == om.bids@);
                    assert(om.bids@[0].data.price < om.asks@[0].data.price);
                }
            },
            OrderSide::Sell => {
                let nbh = nm.bids@[0].data.price;
                assert(nbh == walk.levels[0].price);
                let j = choose|j: int| 0 <= j < v.len() && walk.levels[0].price == v[j].price;
                assert(v[j].price == om.bids@[j].data.price);
                assert(v[0].price == om.bids@[0].data.price);
                assert(nbh <= om.bids@[0].data.price);
                if walk.remaining > 0 {
                    let limit = opt_order_price->0;
                    assert(!price_consumable(walk.levels[0].price, opt_order_price, side));
                    assert(nbh < limit);
                    lemma_insert_head_price(
                        levels_view(om.asks@),
                        side,
                        limit,
                        OrderV { user: sender, amount: walk.remaining },
                    );
                    assert(nm.asks@[0].data.price == levels_view(nm.asks@)[0].price);
                    assert(levels_view(nm.asks@)[0].price == limit || (om.asks@.len() > 0
                        && levels_view(nm.asks@)[0].price == om.asks@[0].data.price));
                    if levels_view(nm.asks@)[0].price == limit {
                    } else {
                        assert(om.bids@[0].data.price < om.asks@[0].data.price);
                    }
                } else {
                    assert(nm.asks@ == om.asks@);
                    assert(om.bids@[0].data.price < om.asks@[0].data.price);
                }
            },
        }
    }
}

/// A completed limit order never leaves the book crossed (spec's market
/// invariant): a top-up keeps every price, the maker path is taken only when
/// the order does not cross, and the taker path rests its remainder behind
/// the opposing top.
#[verifier::rlimit(100)]
pub proof fn lemma_limit_order_keeps_uncrossed(
    pre: State,
    post: State,
    transfers: Seq<crate::structs::TransferV>,
    sender: Seq<char>,
    market_id: u64,
    side: OrderSide,
    price: u128,
    qty: u128,
)
    requires
        pre.wf(),
        (market_id as int) < pre.markets@.len(),
        (market_id as int) < post.markets@.len(),
        pre.markets@[market_id as int].not_crossed(),
        limit_order_ok(pre, post, transfers, sender, market_id, side, price, qty),
    ensures
        post.markets@[market_id as int].not_crossed(),
{
    let om = pre.markets@[market_id as int];
    let nm = post.markets@[market_id as int];
    if has_matching_record(user_orders_view(pre.user_orders@), sender, market_id, side, price) {
        // A top-up changes no price and no side's length.
        let v = levels_view(om.side_levels(side));
        let nv = levels_view(nm.side_levels(side));
        if nm.bids@.len() > 0 && nm.asks@.len() > 0 {
            assert(nm.side_levels(other_side(side)) == om.side_levels(other_side(side)));
            assert(nv.len() > 0 ==> (nv.len() == v.len() && nv[0].price == v[0].price)) by {
                if has_price(v, price) {
                    let p = price_index_of(v, price);
                    assert(0 <= p < v.len() && v[p].price == price);
                    assert(nv == v.update(
                        p,
                        LevelV {
                            price: v[p].price,
                            orders: bump_level_orders(v[p].orders, sender, qty),
                        },
                    ));
                } else {
                    assert(nv == v);
                }
            }
            match side {
                OrderSide::Buy => {
                    assert(nm.asks@ == om.asks@);
                    assert(nv.len() == nm.bids@.len());
                    assert(nm.bids@[0].data.price == nv[0].price);
                    assert(v[0].price == om.bids@[0].data.price);
                    assert(om.bids@[0].data.price < om.asks@[0].data.price);
                },
                OrderSide::Sell => {
                    assert(nm.bids@ == om.bids@);
                    assert(nv.len() == nm.asks@.len());
                    assert(nm.asks@[0].data.price == nv[0].price);
                    assert(v[0].price == om.asks@[0].data.price);
                    assert(om.bids@[0].data.price < om.asks@[0].data.price);
                },
            }
        }
    } else if rests_as_maker(om, side, price) {
        // The maker path is only taken for a non-crossing price.
        lemma_insert_head_price(
            levels_view(om.side_levels(side)),
            side,
            price,
            OrderV { user: sender, amount: qty },
        );
        if nm.bids@.len() > 0 && nm.asks@.len() > 0 {
            assert(nm.side_levels(other_side(side)) == om.side_levels(other_side(side)));
            match side {
                OrderSide::Buy => {
                    assert(nm.asks@ == om.asks@);
                    assert(price_closer_to_mid(OrderSide::Sell, price, om.asks@[0].data.price));
                    assert(nm.bids@[0].data.price == levels_view(nm.bids@)[0].price);
                    assert(levels_view(nm.bids@)[0].price == price || (om.bids@.len() > 0
                        && levels_view(nm.bids@)[0].price == om.bids@[0].data.price));
                },
                OrderSide::Sell => {
                    assert(nm.bids@ == om.bids@);
                    assert(price_closer_to_mid(OrderSide::Buy, price, om.bids@[0].data.price));
                    assert(nm.asks@[0].data.price == levels_view(nm.asks@)[0].price);
                    assert(levels_view(nm.asks@)[0].price == price || (om.asks@.len() > 0
                        && levels_view(nm.asks@)[0].price == om.asks@[0].data.price));
                },
            }
        }
    } else {
        lemma_taker_keeps_uncrossed(
            pre,
            post,
            transfers,
            sender,
            market_id,
            Some(price),
            qty,
            side,
        );
    }
}

/// A completed cancellation never leaves the book crossed: it removes from
/// one side only, so each top either stays or worsens.
#[verifier::rlimit(100)]
pub proof fn lemma_cancel_keeps_uncrossed(
    om: Market,
    nm: Market,
    side: OrderSide,
    price: u128,
    user: Seq<char>,
    amount: u128,
)
    requires
        om.wf(),
        om.not_crossed(),
        crate::market_logic::liquidity_remover::has_price(
            levels_view(om.side_levels(side)),
            price,
        ),
        levels_view(nm.side_levels(side)) == cancel_spec(
            levels_view(om.side_levels(side)),
            price,
            user,
            amount,
        ),
        nm.side_levels(other_side(side)) == om.side_levels(other_side(side)),
    ensures
        nm.not_crossed(),
{
    let v = levels_view(om.side_levels(side));
    let nv = levels_view(nm.side_levels(side));
    let p = price_index_of(v, price);
    assert(0 <= p < v.len() && v[p].price == price);
    if nm.bids@.len() > 0 && nm.asks@.len() > 0 {
        // The new top of the cancelled side was already resting at position
        // zero or one, so it is no closer to the midprice than the old top.
        assert(nv.len() > 0 ==> nv[0].price == v[0].price || (v.len() > 1 && nv[0].price
            == v[1].price)) by {
            let kept = crate::market_logic::liquidity_remover::keep_spec(v[p].orders, user, amount);
            if kept.len() == 0 {
                if p == 0 {
                    if nv.len() > 0 {
                        assert(nv[0] == v.remove(0)[0]);
                    }
                } else {
                    assert(nv[0] == v[0]);
                }
            } else {
            }
        }
        assert(om.bids@.len() > 0 && om.asks@.len() > 0) by {
            match side {
                OrderSide::Buy => {
                    assert(nm.asks@ == om.asks@);
                    assert(om.bids@.len() > 0);
                },
                OrderSide::Sell => {
                    assert(nm.bids@ == om.bids@);
                    assert(om.asks@.len() > 0);
                },
            }
        }
        match side {
            OrderSide::Buy => {
                assert(nm.bids@[0].data.price == nv[0].price);
                assert(v[0].price == om.bids@[0].data.price);
                if v.len() > 1 {
                    assert(v[1].price == om.bids@[1].data.price);
                    assert(price_closer_to_mid(
                        OrderSide::Buy,
                        om.bids@[0].data.price,
                        om.bids@[1].data.price,
                    ));
                }
            },
            OrderSide::Sell => {
                assert(nm.asks@[0].data.price == nv[0].price);
                assert(v[0].price == om.asks@[0].data.price);
                if v.len() > 1 {
                    assert(v[1].price == om.asks@[1].data.price);
                    assert(price_closer_to_mid(
                        OrderSide::Sell,
                        om.asks@[0].data.price,
                        om.asks@[1].data.price,
                    ));
                }
            },
        }
    }
}

/// Re-inserting at a price where the sender already rests aggregates: the
/// sender's slice of the order index keeps its length — the matching record
/// is topped up in place, no duplicate appears — and the level's queue keeps
/// its length, each entry of the sender topped up in place.
pub proof fn lemma_reinsert_aggregates(
    pre: State,
    post: State,
    transfers: Seq<crate::structs::TransferV>,
    sender: Seq<char>,
    market_id: u64,
    side: OrderSide,
    price: u128,
    qty: u128,
)
    requires
        pre.wf(),
        (market_id as int) < pre.markets@.len(),
        has_matching_record(user_orders_view(pre.user_orders@), sender, market_id, side, price),
        limit_order_ok(pre, post, transfers, sender, market_id, side, price, qty),
    ensures
        transfers.len() == 0,
        user_orders_view(post.user_orders@).len() == user_orders_view(pre.user_orders@).len(),
        forall|i: int|
            0 <= i < pre.user_orders@.len() ==> (#[trigger] user_orders_view(
                post.user_orders@,
            )[i]).orders.len() == user_orders_view(pre.user_orders@)[i].orders.len(),
        forall|i: int, j: int|
            0 <= i < pre.user_orders@.len() && 0 <= j < user_orders_view(
                pre.user_orders@,
            )[i].orders.len() ==> ({
                let e = user_orders_view(pre.user_orders@)[i];
                let r = e.orders[j];
                (#[trigger] user_orders_view(post.user_orders@)[i].orders[j]) == (if e.user
                    == sender && record_matches(r, market_id, side, price) {
                    UserOrderRecord {
                        market_id: r.market_id,
                        order_side: r.order_side,
                        price: r.price,
                        quantity: (r.quantity + qty) as u128,
                    }
                } else {
                    r
                })
            }),
        ({
            let v = levels_view(pre.markets@[market_id as int].side_levels(side));
            let vf = levels_view(post.markets@[market_id as int].side_levels(side));
            has_price(v, price) ==> ({
                let p = price_index_of(v, price);
                &&& vf.len() == v.len()
                &&& vf[p].orders.len() == v[p].orders.len()
                &&& forall|j: int|
                    0 <= j < v[p].orders.len() ==> (#[trigger] vf[p].orders[j]) == (if v[p].orders[j].user
                        == sender {
                        OrderV { user: v[p].orders[j].user, amount: (v[p].orders[j].amount + qty) as u128 }
                    } else {
                        v[p].orders[j]
                    })
            })
        }),
{
    let ev = user_orders_view(pre.user_orders@);
    let evf = user_orders_view(post.user_orders@);
    assert(evf == bump_user_records(ev, sender, market_id, side, price, qty));
    assert(forall|i: int|
        0 <= i < ev.len() ==> (#[trigger] evf[i]) == (if ev[i].user == sender {
            UserOrdersV {
                user: ev[i].user,
                orders: bump_records(ev[i].orders, market_id, side, price, qty),
            }
        } else {
            ev[i]
        }));
    let v = levels_view(pre.markets@[market_id as int].side_levels(side));
    let vf = levels_view(post.markets@[market_id as int].side_levels(side));
    if has_price(v, price) {
        let p = price_index_of(v, price);
        assert(vf == v.update(
            p,
            LevelV { price: v[p].price, orders: bump_level_orders(v[p].orders, sender, qty) },
        ));
    }
}

/// Whether a record belongs to (`market_id`, `price`), whatever its side.
pub open spec fn mp_match(r: UserOrderRecord, market_id: u64, price: u128) -> bool {
    r.market_id == market_id && r.price == price
}

/// Whether any record belongs to (`market_id`, `price`).
pub open spec fn has_mp(orders: Seq<UserOrderRecord>, market_id: u64, price: u128) -> bool {
    exists|j: int| 0 <= j < orders.len() && mp_match(#[trigger] orders[j], market_id, price)
}

/// The first record of (`market_id`, `price`).
pub open spec fn first_mp(orders: Seq<UserOrderRecord>, market_id: u64, price: u128) -> int
    decreases orders.len(),
{
    if orders.len() == 0 {
        0
    } else if mp_match(orders[0], market_id, price) {
        0
    } else {
        1 + first_mp(orders.drop_first(), market_id, price)
    }
}

/// `first_mp` is the first matching position.
proof fn lemma_first_mp(orders: Seq<UserOrderRecord>, market_id: u64, price: u128, j: int)
    requires
        0 <= j < orders.len(),
        mp_match(orders[j], market_id, price),
        forall|k: int| 0 <= k < j ==> !mp_match(#[trigger] orders[k], market_id, price),
    ensures
        first_mp(orders, market_id, price) == j,
    decreases orders.len(),
{
    if j == 0 {
    } else {
        let t = orders.drop_first();
        assert(forall|k: int| 0 <= k < j - 1 ==> t[k] == orders[k + 1]);
        assert(t[j - 1] == orders[j]);
        lemma_first_mp(t, market_id, price, j - 1);
    }
}

/// The complete result of a cancellation call.
pub open spec fn remove_limit_order_post(
    pre: State,
    post: State,
    r: Result<Seq<crate::structs::TransferV>, ContractError>,
    sender: Seq<char>,
    market_id: u64,
    order_price: u128,
) -> bool {
    let known = (market_id as int) < pre.markets@.len();
    let om = pre.markets@[market_id as int];
    let ev0 = user_orders_view(pre.user_orders@);
    match r {
        Ok(transfers) => known && match om.currency_status_from_price_spec(order_price) {
            Ok(cur) => {
                &&& has_user(ev0, sender)
                &&& {
                    let ui = user_index_of(ev0, sender);
                    let orders0 = ev0[ui].orders;
                    &&& has_mp(orders0, market_id, order_price)
                    &&& {
                        let rj = first_mp(orders0, market_id, order_price);
                        let rec = orders0[rj];
                        let v = levels_view(om.side_levels(rec.order_side));
                        &&& has_price(v, order_price)
                        &&& post.markets@.len() == pre.markets@.len()
                        &&& forall|k: int|
                            0 <= k < pre.markets@.len() && k != market_id
                                ==> (#[trigger] post.markets@[k]) == pre.markets@[k]
                        &&& post.markets@[market_id as int].info.base_currency
                            == om.info.base_currency
                        &&& post.markets@[market_id as int].info.quote_currency
                            == om.info.quote_currency
                        &&& post.markets@[market_id as int].info.market_id == om.info.market_id
                        &&& levels_view(
                            post.markets@[market_id as int].side_levels(rec.order_side),
                        ) == cancel_spec(v, order_price, sender, rec.quantity)
                        &&& post.markets@[market_id as int].side_levels(
                            other_side(rec.order_side),
                        ) == om.side_levels(other_side(rec.order_side))
                        &&& user_orders_view(post.user_orders@) == ev0.update(
                            ui,
                            UserOrdersV {
                                user: ev0[ui].user,
                                orders: orders0.update(rj, orders0.last()).drop_last(),
                            },
                        )
                        &&& transfers == seq![
                            crate::structs::TransferV {
                                amount: rec.quantity,
                                currency: cur@,
                                recipient: sender,
                            },
                        ]
                    }
                }
            },
            Err(_) => false,
        },
        Err(e) => {
            &&& post.markets@ == pre.markets@
            &&& user_orders_view(post.user_orders@) == ev0
            &&& if !known {
                e == (ContractError::UnknownMarketId { id: market_id })
            } else if om.currency_status_from_price_spec(order_price) is Err {
                e == ContractError::MismatchDenomAndMarket
            } else if !has_user(ev0, sender) || !has_mp(
                ev0[user_index_of(ev0, sender)].orders,
                market_id,
                order_price,
            ) {
                e == ContractError::OrderDoesNotExist
            } else {
                &&& e == ContractError::OrderDoesNotExist
                &&& !has_price(
                    levels_view(
                        om.side_levels(
                            ev0[user_index_of(ev0, sender)].orders[first_mp(
                                ev0[user_index_of(ev0, sender)].orders,
                                market_id,
                                order_price,
                            )].order_side,
                        ),
                    ),
                    order_price,
                )
            }
        },
    }
}

/// Cancels the sender's resting order of (`market_id`, `order_price`): the
/// record is dropped from the order index, the matching queue entry leaves
/// the level — which is detached once empty — and the resting quantity is
/// refunded in the currency the book's tops assign to that price.
pub fn execute_remove_limit_order(
    state: &mut State,
    sender: String,
    market_id: u64,
    order_price: u128,
) -> (r: Result<Vec<TransferInstruction>, ContractError>)
    requires
        old(state).wf(),
    ensures
        final(state).wf(),
        final(state).admin == old(state).admin,
        final(state).markets@.len() == old(state).markets@.len(),
        remove_limit_order_post(
            *old(state),
            *final(state),
            match r {
                Ok(transfers) => Ok(transfers_view(transfers@)),
                Err(e) => Err(e),
            },
            sender@,
            market_id,
            order_price,
        ),
{
    if market_id >= state.markets.len() as u64 {
        return Err(ContractError::UnknownMarketId { id: market_id });
    }
    let idx = market_id as usize;
    let ghost om = state.markets@[idx as int];
    let ghost ev0 = user_orders_view(state.user_orders@);

    let currency_info = match state.markets[idx].get_currency_status_from_price(order_price) {
        Ok(c) => c,
        Err(e) => {
            return Err(e);
        },
    };

    let ui = match find_user_index(&state.user_orders, &sender) {
        Some(i) => i,
        None => {
            proof {
                assert(!has_user(ev0, sender@)) by {
                    assert(forall|i: int|
                        0 <= i < ev0.len() ==> (#[trigger] ev0[i]).user != sender@);
                }
            }
            return Err(ContractError::OrderDoesNotExist);
        },
    };
    proof {
        assert(ev0[ui as int].user == sender@);
        assert(has_user(ev0, sender@));
        let k = user_index_of(ev0, sender@);
        assert(0 <= k < ev0.len() && ev0[k].user == sender@);
        assert(k == ui as int);
    }

    // Find the first record of (market, price), whatever its side.
    let rj = {
        let orders = &state.user_orders[ui].orders;
        let mut j: usize = 0;
        loop
            invariant
                j <= orders@.len(),
                orders@ == ev0[ui as int].orders,
                forall|k: int|
                    0 <= k < j ==> !mp_match(#[trigger] orders@[k], market_id, order_price),
            ensures
                j <= orders@.len(),
                orders@ == ev0[ui as int].orders,
                j < orders@.len() ==> mp_match(orders@[j as int], market_id, order_price)
                    && first_mp(orders@, market_id, order_price) == j,
                j == orders@.len() ==> !has_mp(orders@, market_id, order_price),
            decreases orders@.len() - j,
        {
            if j >= orders.len() {
                break ;
            }
            if orders[j].market_id == market_id && orders[j].price == order_price {
                proof {
                    lemma_first_mp(orders@, market_id, order_price, j as int);
                }
                break ;
            }
            j = j + 1;
        }
        j
    };
    if rj >= state.user_orders[ui].orders.len() {
        return Err(ContractError::OrderDoesNotExist);
    }
    let rec = state.user_orders[ui].orders[rj];

    // Take the order out of the book first, so that a missing level aborts
    // the call with nothing changed.
    match remove_order(state, &sender, market_id, order_price, rec.quantity, rec.order_side) {
        Ok(()) => {},
        Err(e) => {
            return Err(e);
        },
    }

    // Drop the record from the order index.
    let mut entry = state.user_orders.remove(ui);
    let _ = entry.orders.swap_remove(rj);
    state.user_orders.insert(ui, entry);
    proof {
        assert(user_orders_view(state.user_orders@) =~= ev0.update(
            ui as int,
            UserOrdersV {
                user: ev0[ui as int].user,
                orders: ev0[ui as int].orders.update(
                    rj as int,
                    ev0[ui as int].orders.last(),
                ).drop_last(),
            },
        ));
    }

    let ghost cur_v = currency_info@;
    let ghost sender_v = sender@;
    let mut transfers: Vec<TransferInstruction> = Vec::new();
    transfers.push(
        TransferInstruction { amount: rec.quantity, currency: currency_info, recipient: sender },
    );
    proof {
        assert(transfers_view(transfers@) =~= seq![
            crate::structs::TransferV {
                amount: rec.quantity,
                currency: cur_v,
                recipient: sender_v,
            },
        ]);
    }
    Ok(transfers)
}

/// Routes one inbound call: native orders take their quantity from the one
/// attached coin, token orders carry theirs in the receive envelope, and
/// administrative calls are not served here.
pub fn route_execute(
    state: &mut State,
    sender: String,
    funds: &Vec<CoinData>,
    msg: ExecuteMsg,
) -> (r: Result<Vec<TransferInstruction>, ContractError>)
    requires
        old(state).wf(),
        match msg {
            ExecuteMsg::LimitOrder { market_id, price } => funds@.len() == 1
                ==> limit_order_requires(
                *old(state),
                sender@,
                funds@[0].denom@,
                funds@[0].amount,
                market_id,
                price,
            ),
            ExecuteMsg::MarketOrder { market_id } => funds@.len() == 1 ==> market_order_requires(
                *old(state),
                funds@[0].denom@,
                market_id,
            ),
            ExecuteMsg::Receive { sender: cw_sender, token_contract, amount, msg: inner } => match inner {
                SeleneCw20Msg::LimitOrder { market_id, price } => limit_order_requires(
                    *old(state),
                    cw_sender@,
                    token_contract@,
                    amount,
                    market_id,
                    price,
                ),
                SeleneCw20Msg::MarketOrder { market_id } => market_order_requires(
                    *old(state),
                    token_contract@,
                    market_id,
                ),
            },
            ExecuteMsg::RemoveLimitOrder { .. } => true,
            ExecuteMsg::Admin(_) => true,
        },
    ensures
        final(state).wf(),
        final(state).admin == old(state).admin,
        final(state).markets@.len() == old(state).markets@.len(),
        ({
            let rv = match r {
                Ok(transfers) => Ok::<_, ContractError>(transfers_view(transfers@)),
                Err(e) => Err(e),
            };
            match msg {
                ExecuteMsg::LimitOrder { market_id, price } => if funds@.len() != 1 {
                    &&& r == Err::<Vec<TransferInstruction>, ContractError>(
                        ContractError::InvalidNumberOfFunds,
                    )
                    &&& final(state).markets@ == old(state).markets@
                    &&& final(state).user_orders == old(state).user_orders
                } else {
                    limit_order_post(
                        *old(state),
                        *final(state),
                        rv,
                        sender@,
                        funds@[0].denom@,
                        funds@[0].amount,
                        market_id,
                        price,
                    )
                },
                ExecuteMsg::MarketOrder { market_id } => if funds@.len() != 1 {
                    &&& r == Err::<Vec<TransferInstruction>, ContractError>(
                        ContractError::InvalidNumberOfFunds,
                    )
                    &&& final(state).markets@ == old(state).markets@
                    &&& final(state).user_orders == old(state).user_orders
                } else {
                    market_order_post(
                        *old(state),
                        *final(state),
                        rv,
                        sender@,
                        funds@[0].denom@,
                        funds@[0].amount,
                        market_id,
                    )
                },
                ExecuteMsg::Receive { sender: cw_sender, token_contract, amount, msg: inner } => match inner {
                    SeleneCw20Msg::LimitOrder { market_id, price } => limit_order_post(
                        *old(state),
                        *final(state),
                        rv,
                        cw_sender@,
                        token_contract@,
                        amount,
                        market_id,
                        price,
                    ),
                    SeleneCw20Msg::MarketOrder { market_id } => market_order_post(
                        *old(state),
                        *final(state),
                        rv,
                        cw_sender@,
                        token_contract@,
                        amount,
                        market_id,
                    ),
                },
                ExecuteMsg::RemoveLimitOrder { market_id, price } => remove_limit_order_post(
                    *old(state),
                    *final(state),
                    rv,
                    sender@,
                    market_id,
                    price,
                ),
                ExecuteMsg::Admin(_) => {
                    &&& r == Err::<Vec<TransferInstruction>, ContractError>(ContractError::Never)
                    &&& final(state).markets@ == old(state).markets@
                    &&& final(state).user_orders == old(state).user_orders
                },
            }
        }),
{
    match msg {
        ExecuteMsg::Receive { sender: cw_sender, token_contract, amount, msg: inner } => {
            match inner {
                SeleneCw20Msg::LimitOrder { market_id, price } => execute_limit_order_core(
                    state,
                    cw_sender,
                    token_contract.as_str(),
                    amount,
                    market_id,
                    price,
                ),
                SeleneCw20Msg::MarketOrder { market_id } => execute_market_order_core(
                    state,
                    cw_sender,
                    token_contract.as_str(),
                    amount,
                    market_id,
                ),
            }
        },
        ExecuteMsg::LimitOrder { market_id, price } => {
            let coin = match check_only_one_fund(funds) {
                Ok(c) => c,
                Err(e) => {
                    return Err(e);
                },
            };
            execute_limit_order_core(
                state,
                sender,
                coin.denom.as_str(),
                coin.amount,
                market_id,
                price,
            )
        },
        ExecuteMsg::MarketOrder { market_id } => {
            let coin = match check_only_one_fund(funds) {
                Ok(c) => c,
                Err(e) => {
                    return Err(e);
                },
            };
            execute_market_order_core(state, sender, coin.denom.as_str(), coin.amount, market_id)
        },
        ExecuteMsg::RemoveLimitOrder { market_id, price } => execute_remove_limit_order(
            state,
            sender,
            market_id,
            price,
        ),
        ExecuteMsg::Admin(_) => Err(ContractError::Never),
    }
}

} // verus!
