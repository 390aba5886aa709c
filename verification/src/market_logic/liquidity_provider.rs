//! Maker insertion: resting an order in a side's ledger.
//!
//! Insertion is unconditional: it never looks at the opposite side. Crossing
//! avoidance is the caller's duty (the taker path checks before delegating a
//! remainder here).

use vstd::prelude::*;

use crate::state::{has_level, levels_view, wf_side, LevelEntry, State};
use crate::structs::{
    other_side, price_closer_to_mid, LevelData, LevelOrder, LevelV, OrderSide, OrderV,
};
use crate::ContractError;

verus! {

/// Where an order at `price` goes in the side view `v`: the first position
/// whose level is not strictly closer to the midprice than `price`.
pub open spec fn insert_pos(v: Seq<LevelV>, side: OrderSide, price: u128) -> int
    decreases v.len(),
{
    if v.len() == 0 {
        0
    } else if !price_closer_to_mid(side, v[0].price, price) {
        0
    } else {
        1 + insert_pos(v.drop_first(), side, price)
    }
}

/// A side view after resting one order: appended to the queue of the level
/// with the same price if one exists, otherwise a fresh single-order level at
/// the position its price orders it to.
pub open spec fn insert_level_spec(
    v: Seq<LevelV>,
    side: OrderSide,
    price: u128,
    o: OrderV,
) -> Seq<LevelV> {
    let p = insert_pos(v, side, price);
    if p < v.len() && v[p].price == price {
        v.update(p, LevelV { price, orders: v[p].orders.push(o) })
    } else {
        v.insert(p, LevelV { price, orders: seq![o] })
    }
}

/// `insert_pos` is the first position whose level is not strictly closer to
/// the midprice than the incoming price.
pub proof fn lemma_insert_pos_first(v: Seq<LevelV>, side: OrderSide, price: u128, k: int)
    requires
        0 <= k <= v.len(),
        forall|j: int| 0 <= j < k ==> price_closer_to_mid(side, (#[trigger] v[j]).price, price),
        k < v.len() ==> !price_closer_to_mid(side, v[k].price, price),
    ensures
        insert_pos(v, side, price) == k,
    decreases v.len(),
{
    if v.len() == 0 {
    } else if k == 0 {
    } else {
        assert(price_closer_to_mid(side, v[0].price, price));
        let t = v.drop_first();
        assert(forall|j: int|
            0 <= j < k - 1 ==> price_closer_to_mid(side, (#[trigger] t[j]).price, price)) by {
            assert(forall|j: int| 0 <= j < k - 1 ==> t[j] == v[j + 1]);
        }
        if k - 1 < t.len() {
            assert(t[k - 1] == v[k]);
        }
        lemma_insert_pos_first(t, side, price, k - 1);
    }
}

/// In a side with strictly ordered prices, the insertion position finds the
/// level at `price` whenever one rests there.
pub proof fn lemma_insert_pos_finds_price(v: Seq<LevelV>, side: OrderSide, price: u128)
    requires
        forall|i: int, j: int|
            0 <= i < j < v.len() ==> price_closer_to_mid(
                side,
                (#[trigger] v[i]).price,
                (#[trigger] v[j]).price,
            ),
        crate::market_logic::liquidity_remover::has_price(v, price),
    ensures
        insert_pos(v, side, price) < v.len(),
        v[insert_pos(v, side, price)].price == price,
{
    let i = choose|i: int| 0 <= i < v.len() && v[i].price == price;
    assert(forall|j: int| 0 <= j < i ==> price_closer_to_mid(side, (#[trigger] v[j]).price, price));
    lemma_insert_pos_first(v, side, price, i);
}

/// How a splice keeps the side's identifiers: an append to an existing
/// level leaves every identifier, every link and the top pointer untouched;
/// a fresh level takes the allocator's identifier at its position, the
/// surviving levels keep theirs (shifted past the splice), and the top moves
/// to the new level only when it becomes head.
pub open spec fn insert_ids_ok(
    os: Seq<LevelEntry>,
    ns: Seq<LevelEntry>,
    top_old: Option<u64>,
    top_new: Option<u64>,
    nid_old: u64,
    nid_new: u64,
    side: OrderSide,
    price: u128,
) -> bool {
    let v = levels_view(os);
    let p = insert_pos(v, side, price);
    if p < v.len() && v[p].price == price {
        &&& forall|i: int|
            0 <= i < os.len() ==> (#[trigger] ns[i]).id == os[i].id && ns[i].data == os[i].data
        &&& top_new == top_old
        &&& nid_new == nid_old
    } else {
        &&& ns[p].id == nid_old
        &&& forall|i: int| 0 <= i < p ==> (#[trigger] ns[i]).id == os[i].id
        &&& forall|i: int| p < i < ns.len() ==> (#[trigger] ns[i]).id == os[i - 1].id
        &&& nid_new == nid_old + 1
        &&& (p == 0 ==> top_new == Some(nid_old))
        &&& (p > 0 ==> top_new == top_old)
    }
}

/// Resting an order leaves as the side's best price either the order's own
/// price or the price that was best before.
pub proof fn lemma_insert_head_price(v: Seq<LevelV>, side: OrderSide, price: u128, o: OrderV)
    ensures
        insert_level_spec(v, side, price, o).len() > 0,
        insert_level_spec(v, side, price, o)[0].price == price || (v.len() > 0
            && insert_level_spec(v, side, price, o)[0].price == v[0].price),
{
    lemma_insert_pos_bounds(v, side, price);
    let p = insert_pos(v, side, price);
    if p < v.len() && v[p].price == price {
    } else {
    }
}

/// `insert_pos` stays within the bounds of the side.
pub proof fn lemma_insert_pos_bounds(v: Seq<LevelV>, side: OrderSide, price: u128)
    ensures
        0 <= insert_pos(v, side, price) <= v.len(),
    decreases v.len(),
{
    if v.len() == 0 {
    } else if !price_closer_to_mid(side, v[0].price, price) {
    } else {
        lemma_insert_pos_bounds(v.drop_first(), side, price);
    }
}

/// Whether price `a` is strictly closer to the midprice than `b` on `side`.
fn price_closer_exec(side: OrderSide, a: u128, b: u128) -> (r: bool)
    ensures
        r == price_closer_to_mid(side, a, b),
{
    match side {
        OrderSide::Buy => a > b,
        OrderSide::Sell => a < b,
    }
}

/// Finds the insertion position of `price` in a well-ordered side.
fn find_insert_index(levels: &Vec<LevelEntry>, side: OrderSide, price: u128) -> (pos: usize)
    ensures
        pos == insert_pos(levels_view(levels@), side, price),
        pos <= levels@.len(),
        forall|j: int|
            0 <= j < pos ==> price_closer_to_mid(side, (#[trigger] levels@[j]).data.price, price),
        pos < levels@.len() ==> !price_closer_to_mid(side, levels@[pos as int].data.price, price),
{
    let mut pos: usize = 0;
    while pos < levels.len() && price_closer_exec(side, levels[pos].data.price, price)
        invariant
            pos <= levels@.len(),
            forall|j: int|
                0 <= j < pos ==> price_closer_to_mid(
                    side,
                    (#[trigger] levels@[j]).data.price,
                    price,
                ),
        decreases levels@.len() - pos,
    {
        pos = pos + 1;
    }
    proof {
        assert(forall|j: int|
            0 <= j < pos ==> price_closer_to_mid(
                side,
                (#[trigger] levels_view(levels@)[j]).price,
                price,
            ));
        lemma_insert_pos_first(levels_view(levels@), side, price, pos as int);
    }
    pos
}

/// A side stays well formed when a fresh level is spliced in at the position
/// its price selects, its two neighbours are rewired to it, and the top
/// pointer moves to it when it becomes head.
#[verifier::rlimit(100)]
proof fn lemma_spliced_side_wf(
    v0: Seq<LevelEntry>,
    vf: Seq<LevelEntry>,
    p: int,
    id: u64,
    price: u128,
    o: LevelOrder,
    side: OrderSide,
    top0: Option<u64>,
    topf: Option<u64>,
    bound: u64,
    new_bound: u64,
)
    requires
        wf_side(v0, top0, bound, side),
        id == bound,
        bound < new_bound,
        0 <= p <= v0.len(),
        forall|j: int| 0 <= j < p ==> price_closer_to_mid(side, (#[trigger] v0[j]).data.price, price),
        p < v0.len() ==> !price_closer_to_mid(side, v0[p].data.price, price) && v0[p].data.price
            != price,
        vf.len() == v0.len() + 1,
        vf[p].id == id,
        vf[p].data.price == price,
        vf[p].data.id_previous == (if p == 0 {
            None::<u64>
        } else {
            Some(v0[p - 1].id)
        }),
        vf[p].data.id_next == (if p == v0.len() {
            None::<u64>
        } else {
            Some(v0[p].id)
        }),
        vf[p].orders@ == seq![o],
        forall|i: int|
            0 <= i < p ==> (#[trigger] vf[i]).id == v0[i].id && vf[i].orders == v0[i].orders
                && vf[i].data.price == v0[i].data.price && vf[i].data.id_previous
                == v0[i].data.id_previous,
        forall|i: int|
            0 <= i < p - 1 ==> (#[trigger] vf[i]).data.id_next == v0[i].data.id_next,
        p > 0 ==> vf[p - 1].data.id_next == Some(id),
        forall|i: int|
            p < i < vf.len() ==> (#[trigger] vf[i]).id == v0[i - 1].id && vf[i].orders == v0[i
                - 1].orders && vf[i].data.price == v0[i - 1].data.price && vf[i].data.id_next
                == v0[i - 1].data.id_next,
        forall|i: int|
            p + 1 < i < vf.len() ==> (#[trigger] vf[i]).data.id_previous == v0[i
                - 1].data.id_previous,
        p < v0.len() ==> vf[p + 1].data.id_previous == Some(id),
        topf == (if p == 0 {
            Some(id)
        } else {
            top0
        }),
    ensures
        wf_side(vf, topf, new_bound, side),
        levels_view(vf) == levels_view(v0).insert(p, LevelV { price, orders: seq![o@] }),
        forall|i: int|
            0 <= i < vf.len() ==> has_level(v0, (#[trigger] vf[i]).id) || vf[i].id == id,
{
    let n = v0.len() as int;
    // The incoming price is strictly closer than every level at or past `p`.
    assert(forall|i: int|
        p <= i < n ==> price_closer_to_mid(side, price, (#[trigger] v0[i]).data.price)) by {
        if p < n {
            assert(price_closer_to_mid(side, price, v0[p].data.price));
            assert(forall|i: int|
                p < i < n ==> price_closer_to_mid(
                    side,
                    v0[p].data.price,
                    (#[trigger] v0[i]).data.price,
                ));
        }
    }
    assert(forall|i: int, j: int|
        0 <= i < j < vf.len() ==> price_closer_to_mid(
            side,
            (#[trigger] vf[i]).data.price,
            (#[trigger] vf[j]).data.price,
        ));
    assert(forall|i: int| 0 <= i < vf.len() ==> (#[trigger] vf[i]).id < new_bound);
    assert(forall|i: int, j: int|
        0 <= i < vf.len() && 0 <= j < vf.len() && i != j ==> (#[trigger] vf[i]).id != (
        #[trigger] vf[j]).id);
    assert(forall|i: int|
        0 <= i < vf.len() ==> (#[trigger] vf[i]).data.id_previous == (if i == 0 {
            None::<u64>
        } else {
            Some(vf[i - 1].id)
        }));
    assert(forall|i: int|
        0 <= i < vf.len() ==> (#[trigger] vf[i]).data.id_next == (if i == vf.len() - 1 {
            None::<u64>
        } else {
            Some(vf[i + 1].id)
        }));
    assert(levels_view(vf) =~= levels_view(v0).insert(p, LevelV { price, orders: seq![o@] })) by {
        assert(levels_view(vf)[p].orders =~= seq![o@]);
        assert(forall|i: int|
            0 <= i < vf.len() && i != p ==> (#[trigger] levels_view(vf)[i]).orders
                =~= levels_view(v0).insert(p, LevelV { price, orders: seq![o@] })[i].orders);
    }
    assert(forall|i: int|
        0 <= i < vf.len() ==> has_level(v0, (#[trigger] vf[i]).id) || vf[i].id == id);
}

/// Rests one order in a side's ledger: appends to the queue of the level at
/// the same price when it exists, otherwise splices a fresh level in, rewires
/// its neighbours and moves the top pointer when the new level becomes head.
#[verifier::rlimit(100)]
pub(crate) fn insert_into_side(
    levels: &mut Vec<LevelEntry>,
    top: &mut Option<u64>,
    next_id: &mut u64,
    side: OrderSide,
    price: u128,
    sender: String,
    quantity: u128,
) -> (r: Result<(), ContractError>)
    requires
        wf_side(old(levels)@, *old(top), *old(next_id), side),
    ensures
        match r {
            Ok(()) => {
                &&& wf_side(final(levels)@, *final(top), *final(next_id), side)
                &&& levels_view(final(levels)@) == insert_level_spec(
                    levels_view(old(levels)@),
                    side,
                    price,
                    OrderV { user: sender@, amount: quantity },
                )
                &&& *old(next_id) <= *final(next_id)
                &&& forall|i: int|
                    0 <= i < final(levels)@.len() ==> has_level(
                        old(levels)@,
                        (#[trigger] final(levels)@[i]).id,
                    ) || final(levels)@[i].id == *old(next_id)
                &&& insert_ids_ok(
                    old(levels)@,
                    final(levels)@,
                    *old(top),
                    *final(top),
                    *old(next_id),
                    *final(next_id),
                    side,
                    price,
                )
            },
            Err(e) => {
                &&& e == ContractError::Never
                &&& *final(levels) == *old(levels)
                &&& *final(top) == *old(top)
                &&& *final(next_id) == *old(next_id)
                &&& *old(next_id) == u64::MAX
            },
        },
        r is Err ==> !{
            let v = levels_view(old(levels)@);
            let p = insert_pos(v, side, price);
            p < v.len() && v[p].price == price
        },
{
    let ghost v0 = levels@;
    let ghost view0 = levels_view(levels@);
    let pos = find_insert_index(levels, side, price);
    let ghost p = pos as int;
    proof {
        lemma_insert_pos_bounds(view0, side, price);
    }
    let order = LevelOrder { user: sender, amount: quantity };
    let ghost order_g = order;
    let ghost ov = OrderV { user: order.user@, amount: quantity };

    if pos < levels.len() && levels[pos].data.price == price {
        // An exact-price level exists: append to its queue.
        let mut e = levels.remove(pos);
        e.orders.push(order);
        levels.insert(pos, e);
        proof {
            assert(levels@ =~= v0.update(p, levels@[p]));
            assert(levels@[p].orders@ == v0[p].orders@.push(order));
            assert(levels_view(levels@) =~= insert_level_spec(view0, side, price, ov)) by {
                assert(levels_view(levels@)[p].orders =~= view0[p].orders.push(ov));
                assert(insert_level_spec(view0, side, price, ov) == view0.update(
                    p,
                    LevelV { price, orders: view0[p].orders.push(ov) },
                ));
            }
            assert(forall|i: int|
                0 <= i < levels@.len() ==> (#[trigger] levels@[i]).id == v0[i].id
                    && levels@[i].data == v0[i].data);
            assert(wf_side(levels@, *top, *next_id, side));
            assert(insert_ids_ok(v0, levels@, *old(top), *top, *old(next_id), *next_id, side, price));
        }
        return Ok(());
    }

    // A fresh level is spliced in at `pos`.
    if *next_id == u64::MAX {
        return Err(ContractError::Never);
    }
    let id = *next_id;
    *next_id = id + 1;

    let id_previous = if pos == 0 {
        None
    } else {
        Some(levels[pos - 1].id)
    };
    let id_next = if pos == levels.len() {
        None
    } else {
        Some(levels[pos].id)
    };

    if pos > 0 {
        let mut prev_e = levels.remove(pos - 1);
        prev_e.data.id_next = Some(id);
        levels.insert(pos - 1, prev_e);
        proof {
            assert(levels@ =~= v0.update(p - 1, levels@[p - 1]));
        }
    }
    let ghost v1 = levels@;
    if pos < levels.len() {
        let mut next_e = levels.remove(pos);
        next_e.data.id_previous = Some(id);
        levels.insert(pos, next_e);
        proof {
            assert(levels@ =~= v1.update(p, levels@[p]));
        }
    }
    let ghost v2 = levels@;
    let mut queue: Vec<LevelOrder> = Vec::new();
    queue.push(order);
    let entry = LevelEntry { id, data: LevelData { id_previous, id_next, price }, orders: queue };
    let ghost entry_g = entry;
    levels.insert(pos, entry);
    if pos == 0 {
        *top = Some(id);
    }

    proof {
        let vf = levels@;
        let n = v0.len() as int;
        assert(vf =~= v2.insert(p, entry_g));
        assert(vf.len() == n + 1);
        assert(vf[p].orders@ =~= seq![order_g]);
        assert(forall|i: int|
            0 <= i < p ==> (#[trigger] vf[i]).id == v0[i].id && vf[i].orders == v0[i].orders
                && vf[i].data.price == v0[i].data.price && vf[i].data.id_previous
                == v0[i].data.id_previous);
        assert(forall|i: int|
            0 <= i < p - 1 ==> (#[trigger] vf[i]).data.id_next == v0[i].data.id_next);
        assert(forall|i: int|
            p < i < vf.len() ==> (#[trigger] vf[i]).id == v0[i - 1].id && vf[i].orders == v0[i
                - 1].orders && vf[i].data.price == v0[i - 1].data.price && vf[i].data.id_next
                == v0[i - 1].data.id_next);
        assert(forall|i: int|
            p + 1 < i < vf.len() ==> (#[trigger] vf[i]).data.id_previous == v0[i
                - 1].data.id_previous);
        lemma_spliced_side_wf(
            v0,
            vf,
            p,
            id,
            price,
            order_g,
            side,
            *old(top),
            *top,
            *old(next_id),
            *next_id,
        );
        assert(insert_level_spec(view0, side, price, ov) == view0.insert(
            p,
            LevelV { price, orders: seq![ov] },
        ));
        assert(ov == order_g@);
        assert(insert_ids_ok(v0, vf, *old(top), *top, *old(next_id), *next_id, side, price)) by {
            assert(vf[p].id == id);
            assert(forall|i: int| 0 <= i < p ==> (#[trigger] vf[i]).id == v0[i].id);
            assert(forall|i: int| p < i < vf.len() ==> (#[trigger] vf[i]).id == v0[i - 1].id);
        }
    }
    Ok(())
}

/// How a successful maker insertion relates the market registry after a call
/// to the one before it: only the named market changes, and only by resting
/// the order on its maker side.
pub open spec fn maker_ok(
    pre: crate::state::State,
    post: crate::state::State,
    sender: Seq<char>,
    market_id: u64,
    order_price: u128,
    order_quantity: u128,
    order_side: OrderSide,
) -> bool {
    &&& (market_id as int) < pre.markets@.len()
    &&& post.markets@.len() == pre.markets@.len()
    &&& forall|k: int|
        0 <= k < pre.markets@.len() && k != market_id ==> (#[trigger] post.markets@[k])
            == pre.markets@[k]
    &&& {
        let om = pre.markets@[market_id as int];
        let nm = post.markets@[market_id as int];
        &&& nm.info.base_currency == om.info.base_currency
        &&& nm.info.quote_currency == om.info.quote_currency
        &&& nm.info.market_id == om.info.market_id
        &&& levels_view(nm.side_levels(order_side)) == insert_level_spec(
            levels_view(om.side_levels(order_side)),
            order_side,
            order_price,
            OrderV { user: sender, amount: order_quantity },
        )
        &&& nm.side_levels(other_side(order_side)) == om.side_levels(other_side(order_side))
        &&& nm.side_top(other_side(order_side)) == om.side_top(other_side(order_side))
        &&& insert_ids_ok(
            om.side_levels(order_side),
            nm.side_levels(order_side),
            om.side_top(order_side),
            nm.side_top(order_side),
            om.next_level_id,
            nm.next_level_id,
            order_side,
            order_price,
        )
    }
}

/// Rests a limit order in the book of `market_id`, on the maker side
/// `order_side`, never touching the opposite side. Fails only when the
/// market is unknown or the level allocator is exhausted; it succeeds
/// whenever the order lands on an existing level.
pub fn process_limit_maker(
    state: &mut State,
    sender: String,
    market_id: u64,
    order_price: u128,
    order_quantity: u128,
    order_side: OrderSide,
) -> (r: Result<(), ContractError>)
    requires
        old(state).wf(),
    ensures
        final(state).wf(),
        final(state).admin == old(state).admin,
        final(state).user_orders == old(state).user_orders,
        match r {
            Ok(()) => maker_ok(
                *old(state),
                *final(state),
                sender@,
                market_id,
                order_price,
                order_quantity,
                order_side,
            ),
            Err(e) => {
                &&& final(state).markets@ == old(state).markets@
                &&& if (market_id as int) >= old(state).markets@.len() {
                    e == (ContractError::UnknownMarketId { id: market_id })
                } else {
                    &&& e == ContractError::Never
                    &&& old(state).markets@[market_id as int].next_level_id == u64::MAX
                    &&& !crate::market_logic::liquidity_remover::has_price(
                        levels_view(
                            old(state).markets@[market_id as int].side_levels(order_side),
                        ),
                        order_price,
                    )
                }
            },
        },
{
    if market_id >= state.markets.len() as u64 {
        return Err(ContractError::UnknownMarketId { id: market_id });
    }
    let idx = market_id as usize;
    let ghost ms0 = state.markets@;
    let mut m = state.markets.remove(idx);
    let ghost m0 = m;

    let rslt = match order_side {
        OrderSide::Buy => insert_into_side(
            &mut m.bids,
            &mut m.info.top_level_bid,
            &mut m.next_level_id,
            order_side,
            order_price,
            sender,
            order_quantity,
        ),
        OrderSide::Sell => insert_into_side(
            &mut m.asks,
            &mut m.info.top_level_ask,
            &mut m.next_level_id,
            order_side,
            order_price,
            sender,
            order_quantity,
        ),
    };

    match rslt {
        Ok(()) => {
            proof {
                assert(m.wf()) by {
                    assert(ms0[idx as int].wf());
                    match order_side {
                        OrderSide::Buy => {
                            assert(wf_side(
                                m.asks@,
                                m.info.top_level_ask,
                                m.next_level_id,
                                OrderSide::Sell,
                            )) by {
                                assert(forall|i: int|
                                    0 <= i < m.asks@.len() ==> (#[trigger] m.asks@[i]).id
                                        < m0.next_level_id);
                            }
                            assert(forall|i: int, j: int|
                                0 <= i < m.bids@.len() && 0 <= j < m.asks@.len() ==> (
                                #[trigger] m.bids@[i].id) != (#[trigger] m.asks@[j].id)) by {
                                assert(forall|j: int|
                                    0 <= j < m.asks@.len() ==> (#[trigger] m.asks@[j].id)
                                        < m0.next_level_id);
                                assert(forall|i: int|
                                    0 <= i < m.bids@.len() ==> has_level(
                                        m0.bids@,
                                        (#[trigger] m.bids@[i]).id,
                                    ) || m.bids@[i].id == m0.next_level_id);
                            }
                        },
                        OrderSide::Sell => {
                            assert(wf_side(
                                m.bids@,
                                m.info.top_level_bid,
                                m.next_level_id,
                                OrderSide::Buy,
                            )) by {
                                assert(forall|i: int|
                                    0 <= i < m.bids@.len() ==> (#[trigger] m.bids@[i]).id
                                        < m0.next_level_id);
                            }
                            assert(forall|i: int, j: int|
                                0 <= i < m.bids@.len() && 0 <= j < m.asks@.len() ==> (
                                #[trigger] m.bids@[i].id) != (#[trigger] m.asks@[j].id)) by {
                                assert(forall|i: int|
                                    0 <= i < m.bids@.len() ==> (#[trigger] m.bids@[i].id)
                                        < m0.next_level_id);
                                assert(forall|j: int|
                                    0 <= j < m.asks@.len() ==> has_level(
                                        m0.asks@,
                                        (#[trigger] m.asks@[j]).id,
                                    ) || m.asks@[j].id == m0.next_level_id);
                            }
                        },
                    }
                }
            }
            state.markets.insert(idx, m);
            proof {
                assert(state.markets@ =~= ms0.update(idx as int, m));
            }
            Ok(())
        },
        Err(e) => {
            state.markets.insert(idx, m);
            proof {
                assert(state.markets@ =~= ms0.update(idx as int, m));
                assert(state.markets@ =~= ms0) by {
                    assert(m == m0);
                    assert(m0 == ms0[idx as int]);
                }
                // A level already resting at this price would have absorbed
                // the order, so the failure implies there is none.
                let v = levels_view(m0.side_levels(order_side));
                if crate::market_logic::liquidity_remover::has_price(v, order_price) {
                    assert(forall|i: int, j: int|
                        0 <= i < j < v.len() ==> price_closer_to_mid(
                            order_side,
                            (#[trigger] v[i]).price,
                            (#[trigger] v[j]).price,
                        )) by {
                        assert(forall|i: int|
                            0 <= i < v.len() ==> (#[trigger] v[i]).price == m0.side_levels(
                                order_side,
                            )[i].data.price);
                    }
                    lemma_insert_pos_finds_price(v, order_side, order_price);
                }
            }
            Err(e)
        },
    }
}

} // verus!
