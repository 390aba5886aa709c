//! Cancellation: removing one resting order from a level's queue, and the
//! level itself once its queue empties.

use vstd::prelude::*;

use crate::state::{levels_view, wf_side, LevelEntry, State};
use crate::state_utils::remove_level_at;
use crate::structs::{orders_view, LevelOrder, LevelV, OrderSide, OrderV};
use crate::ContractError;

verus! {

/// A queue without the entries matching a cancelled order: matching is by
/// value, user and amount together.
pub open spec fn keep_spec(orders: Seq<OrderV>, user: Seq<char>, amount: u128) -> Seq<OrderV>
    decreases orders.len(),
{
    if orders.len() == 0 {
        orders
    } else {
        let rest = keep_spec(orders.drop_first(), user, amount);
        if orders[0].user == user && orders[0].amount == amount {
            rest
        } else {
            seq![orders[0]] + rest
        }
    }
}

/// Whether a level at `price` rests on the side `v`.
pub open spec fn has_price(v: Seq<LevelV>, price: u128) -> bool {
    exists|i: int| 0 <= i < v.len() && v[i].price == price
}

/// The position of the level at `price`.
pub open spec fn price_index_of(v: Seq<LevelV>, price: u128) -> int {
    choose|i: int| 0 <= i < v.len() && v[i].price == price
}

/// Finds the storage index of the level at `price`.
pub(crate) fn find_price_index(levels: &Vec<LevelEntry>, price: u128) -> (r: Option<usize>)
    ensures
        match r {
            Some(i) => i < levels@.len() && levels@[i as int].data.price == price,
            None => !has_price(levels_view(levels@), price),
        },
{
    let mut i: usize = 0;
    while i < levels.len()
        invariant
            i <= levels@.len(),
            forall|j: int| 0 <= j < i ==> (#[trigger] levels@[j]).data.price != price,
        decreases levels@.len() - i,
    {
        if levels[i].data.price == price {
            return Some(i);
        }
        i = i + 1;
    }
    proof {
        assert(forall|j: int|
            0 <= j < levels_view(levels@).len() ==> (#[trigger] levels_view(levels@)[j]).price
                != price);
    }
    None
}

/// The side view after cancelling one resting order at `price`: the level's
/// queue loses the matching entries, and the level itself disappears when
/// its queue empties.
pub open spec fn cancel_spec(
    v: Seq<LevelV>,
    price: u128,
    user: Seq<char>,
    amount: u128,
) -> Seq<LevelV> {
    let p = price_index_of(v, price);
    let kept = keep_spec(v[p].orders, user, amount);
    if kept.len() == 0 {
        v.remove(p)
    } else {
        v.update(p, LevelV { price, orders: kept })
    }
}

/// Cancels `sender`'s resting order of `order_quantity` at `order_price` on
/// `order_side` of `market_id`: the matching queue entries are removed, and
/// the level is detached from the chain once its queue empties, promoting
/// its successor when it was the top. The user order index is not touched
/// here; the caller keeps it in step.
#[verifier::rlimit(100)]
pub fn remove_order(
    state: &mut State,
    sender: &String,
    market_id: u64,
    order_price: u128,
    order_quantity: u128,
    order_side: OrderSide,
) -> (r: Result<(), ContractError>)
    requires
        old(state).wf(),
    ensures
        final(state).wf(),
        final(state).admin == old(state).admin,
        final(state).user_orders == old(state).user_orders,
        final(state).markets@.len() == old(state).markets@.len(),
        match r {
            Ok(()) => ({
                let om = old(state).markets@[market_id as int];
                let nm = final(state).markets@[market_id as int];
                let v = levels_view(om.side_levels(order_side));
                &&& (market_id as int) < old(state).markets@.len()
                &&& has_price(v, order_price)
                &&& forall|j: int|
                    0 <= j < old(state).markets@.len() && j != market_id
                        ==> (#[trigger] final(state).markets@[j]) == old(state).markets@[j]
                &&& nm.info.base_currency == om.info.base_currency
                &&& nm.info.quote_currency == om.info.quote_currency
                &&& nm.info.market_id == om.info.market_id
                &&& nm.next_level_id == om.next_level_id
                &&& levels_view(nm.side_levels(order_side)) == cancel_spec(
                    v,
                    order_price,
                    sender@,
                    order_quantity,
                )
                &&& ({
                    let os = om.side_levels(order_side);
                    let ns = nm.side_levels(order_side);
                    let p = price_index_of(v, order_price);
                    let kept = keep_spec(v[p].orders, sender@, order_quantity);
                    if kept.len() == 0 {
                        crate::state_utils::removed_ids_ok(
                            os,
                            ns,
                            p,
                            om.side_top(order_side),
                            nm.side_top(order_side),
                        )
                    } else {
                        &&& forall|i: int|
                            0 <= i < os.len() ==> (#[trigger] ns[i]).id == os[i].id && ns[i].data
                                == os[i].data
                        &&& nm.side_top(order_side) == om.side_top(order_side)
                    }
                })
                &&& nm.side_levels(crate::structs::other_side(order_side)) == om.side_levels(
                    crate::structs::other_side(order_side),
                )
                &&& nm.side_top(crate::structs::other_side(order_side)) == om.side_top(
                    crate::structs::other_side(order_side),
                )
            }),
            Err(e) => ({
                &&& final(state).markets@ == old(state).markets@
                &&& if (market_id as int) >= old(state).markets@.len() {
                    e == (ContractError::UnknownMarketId { id: market_id })
                } else {
                    &&& e == ContractError::OrderDoesNotExist
                    &&& !has_price(
                        levels_view(
                            old(state).markets@[market_id as int].side_levels(order_side),
                        ),
                        order_price,
                    )
                }
            }),
        },
{
    if market_id >= state.markets.len() as u64 {
        return Err(ContractError::UnknownMarketId { id: market_id });
    }
    let idx = market_id as usize;
    let ghost ms0 = state.markets@;
    let ghost om = state.markets@[idx as int];

    let found = match order_side {
        OrderSide::Buy => find_price_index(&state.markets[idx].bids, order_price),
        OrderSide::Sell => find_price_index(&state.markets[idx].asks, order_price),
    };
    let pos = match found {
        None => {
            return Err(ContractError::OrderDoesNotExist);
        },
        Some(pos) => pos,
    };

    let mut m = state.markets.remove(idx);
    let ghost v = levels_view(om.side_levels(order_side));
    proof {
        assert(v[pos as int].price == order_price);
        assert(has_price(v, order_price));
        let p = price_index_of(v, order_price);
        assert(0 <= p < v.len() && v[p].price == order_price);
        assert(p == pos as int) by {
            assert(om.wf());
            if p != pos as int {
                assert(crate::structs::price_closer_to_mid(
                    order_side,
                    om.side_levels(order_side)[if p < pos as int {
                        p
                    } else {
                        pos as int
                    }].data.price,
                    om.side_levels(order_side)[if p < pos as int {
                        pos as int
                    } else {
                        p
                    }].data.price,
                ));
            }
        }
    }

    match order_side {
        OrderSide::Buy => {
            cancel_in_side(
                &mut m.bids,
                &mut m.info.top_level_bid,
                pos,
                sender,
                order_quantity,
                Ghost(m.next_level_id),
                Ghost(OrderSide::Buy),
            );
        },
        OrderSide::Sell => {
            cancel_in_side(
                &mut m.asks,
                &mut m.info.top_level_ask,
                pos,
                sender,
                order_quantity,
                Ghost(m.next_level_id),
                Ghost(OrderSide::Sell),
            );
        },
    }
    proof {
        assert forall|i: int, j: int|
            0 <= i < m.bids@.len() && 0 <= j < m.asks@.len() implies (#[trigger] m.bids@[i].id)
            != (#[trigger] m.asks@[j].id) by {
            assert(om.wf());
            match order_side {
                OrderSide::Buy => {
                    assert(m.asks@[j] == om.asks@[j]);
                    let sel: int = if m.bids@.len() == om.bids@.len() || i < pos {
                        i
                    } else {
                        i + 1
                    };
                    assert(m.bids@[i].id == om.bids@[sel].id);
                    assert(om.bids@[sel].id != om.asks@[j].id);
                },
                OrderSide::Sell => {
                    assert(m.bids@[i] == om.bids@[i]);
                    let sel: int = if m.asks@.len() == om.asks@.len() || j < pos {
                        j
                    } else {
                        j + 1
                    };
                    assert(m.asks@[j].id == om.asks@[sel].id);
                    assert(om.bids@[i].id != om.asks@[sel].id);
                },
            }
        }
        assert(m.wf());
    }
    state.markets.insert(idx, m);
    proof {
        assert(state.markets@ =~= ms0.update(idx as int, m));
    }
    Ok(())
}

/// Rewrites the queue of the level at position `pos`, dropping the entries
/// matching the cancelled order, and detaches the level when the queue
/// empties.
fn cancel_in_side(
    levels: &mut Vec<LevelEntry>,
    top: &mut Option<u64>,
    pos: usize,
    sender: &String,
    amount: u128,
    Ghost(bound): Ghost<u64>,
    Ghost(side): Ghost<OrderSide>,
)
    requires
        wf_side(old(levels)@, *old(top), bound, side),
        pos < old(levels)@.len(),
    ensures
        wf_side(final(levels)@, *final(top), bound, side),
        final(levels)@.len() == old(levels)@.len() || final(levels)@.len() == old(levels)@.len()
            - 1,
        ({
            let v = levels_view(old(levels)@);
            let kept = keep_spec(v[pos as int].orders, sender@, amount);
            levels_view(final(levels)@) == (if kept.len() == 0 {
                v.remove(pos as int)
            } else {
                v.update(pos as int, LevelV { price: v[pos as int].price, orders: kept })
            })
        }),
        forall|i: int|
            0 <= i < final(levels)@.len() ==> (#[trigger] final(levels)@[i]).id
                == (if final(levels)@.len() == old(levels)@.len() || i < pos {
                old(levels)@[i].id
            } else {
                old(levels)@[i + 1].id
            }),
        ({
            let v = levels_view(old(levels)@);
            let kept = keep_spec(v[pos as int].orders, sender@, amount);
            if kept.len() == 0 {
                crate::state_utils::removed_ids_ok(
                    old(levels)@,
                    final(levels)@,
                    pos as int,
                    *old(top),
                    *final(top),
                )
            } else {
                &&& forall|i: int|
                    0 <= i < old(levels)@.len() ==> (#[trigger] final(levels)@[i]).id == old(
                        levels,
                    )@[i].id && final(levels)@[i].data == old(levels)@[i].data
                &&& *final(top) == *old(top)
            }
        }),
{
    let ghost v0 = levels@;
    let ghost view0 = levels_view(v0);
    let mut e = levels.remove(pos);
    let ghost r0 = orders_view(e.orders@);
    let mut kept: Vec<LevelOrder> = Vec::new();
    proof {
        assert(r0.skip(0) =~= r0);
        assert(Seq::<OrderV>::empty() + keep_spec(r0, sender@, amount) =~= keep_spec(
            r0,
            sender@,
            amount,
        ));
    }
    let mut j: usize = 0;
    while j < e.orders.len()
        invariant
            j <= e.orders@.len(),
            r0 == orders_view(e.orders@),
            keep_spec(r0, sender@, amount) == orders_view(kept@) + keep_spec(
                r0.skip(j as int),
                sender@,
                amount,
            ),
        decreases e.orders@.len() - j,
    {
        let ghost jj = j as int;
        let ghost pre_kept = orders_view(kept@);
        proof {
            assert(r0.skip(jj).drop_first() =~= r0.skip(jj + 1));
            assert(r0.skip(jj)[0] == r0[jj]);
            assert(r0[jj] == e.orders@[jj]@);
        }
        let matches_cancel = e.orders[j].user == *sender && e.orders[j].amount == amount;
        if !matches_cancel {
            let o = LevelOrder { user: e.orders[j].user.clone(), amount: e.orders[j].amount };
            proof {
                assert(o@ == r0[jj]);
            }
            kept.push(o);
            proof {
                assert(orders_view(kept@) =~= pre_kept.push(r0[jj]));
                assert(pre_kept + (seq![r0[jj]] + keep_spec(r0.skip(jj + 1), sender@, amount))
                    =~= pre_kept.push(r0[jj]) + keep_spec(r0.skip(jj + 1), sender@, amount));
            }
        }
        j = j + 1;
    }
    proof {
        assert(r0.skip(r0.len() as int) =~= Seq::<OrderV>::empty());
        assert(orders_view(kept@) + Seq::<OrderV>::empty() =~= orders_view(kept@));
    }
    if kept.len() == 0 {
        // The queue emptied: put the untouched node back and detach it
        // properly, relinking its neighbours.
        levels.insert(pos, e);
        proof {
            assert(levels@ =~= v0);
        }
        remove_level_at(levels, top, pos, Ghost(bound), Ghost(side));
    } else {
        e.orders = kept;
        levels.insert(pos, e);
        proof {
            let w = levels@;
            assert(w =~= v0.update(pos as int, w[pos as int]));
            assert(wf_side(w, *top, bound, side)) by {
                assert(forall|i: int|
                    0 <= i < w.len() ==> (#[trigger] w[i]).id == v0[i].id && w[i].data
                        == v0[i].data);
            }
            assert(levels_view(w) =~= view0.update(
                pos as int,
                LevelV { price: view0[pos as int].price, orders: keep_spec(r0, sender@, amount) },
            ));
        }
    }
}

} // verus!
