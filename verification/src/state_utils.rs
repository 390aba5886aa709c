//! Ledger surgery: detaching a whole price level from its side's chain.

use vstd::prelude::*;

use crate::state::{
    has_level, level_index_of, levels_view, wf_side, LevelEntry, Market, State,
};
use crate::structs::{price_closer_to_mid, OrderSide};
use crate::ContractError;

verus! {

/// How detaching the node at position `k` keeps the side's identifiers: the
/// surviving levels keep their identifiers (shifted past the gap) and their
/// links, except that the old left neighbour's `id_next` becomes the removed
/// node's old `id_next` and the old right neighbour's `id_previous` its old
/// `id_previous`; a removed head's old `id_next` becomes the side's top, and
/// otherwise the top stays.
pub open spec fn removed_ids_ok(
    os: Seq<LevelEntry>,
    ns: Seq<LevelEntry>,
    k: int,
    top_old: Option<u64>,
    top_new: Option<u64>,
) -> bool {
    &&& ns.len() == os.len() - 1
    &&& forall|i: int| 0 <= i < k ==> (#[trigger] ns[i]).id == os[i].id
    &&& forall|i: int| k <= i < ns.len() ==> (#[trigger] ns[i]).id == os[i + 1].id
    &&& forall|i: int| 0 <= i < k - 1 ==> (#[trigger] ns[i]).data == os[i].data
    &&& forall|i: int| k < i < ns.len() ==> (#[trigger] ns[i]).data == os[i + 1].data
    &&& (k > 0 ==> ns[k - 1].data.id_next == os[k].data.id_next && ns[k - 1].data.id_previous
        == os[k - 1].data.id_previous)
    &&& (k < ns.len() ==> ns[k].data.id_previous == os[k].data.id_previous && ns[k].data.id_next
        == os[k + 1].data.id_next)
    &&& top_new == (if k > 0 {
        top_old
    } else {
        os[0].data.id_next
    })
}

/// A side stays well formed when one node is detached, its neighbours are
/// relinked to each other, and a detached head's successor becomes top.
#[verifier::rlimit(100)]
proof fn lemma_removed_side_wf(
    v0: Seq<LevelEntry>,
    w: Seq<LevelEntry>,
    kk: int,
    side: OrderSide,
    top0: Option<u64>,
    topf: Option<u64>,
    bound: u64,
)
    requires
        wf_side(v0, top0, bound, side),
        0 <= kk < v0.len(),
        w.len() == v0.len() - 1,
        forall|i: int|
            0 <= i < w.len() ==> (#[trigger] w[i]).id == (if i < kk {
                v0[i].id
            } else {
                v0[i + 1].id
            }) && w[i].data.price == (if i < kk {
                v0[i].data.price
            } else {
                v0[i + 1].data.price
            }) && w[i].orders == (if i < kk {
                v0[i].orders
            } else {
                v0[i + 1].orders
            }),
        forall|i: int| 0 <= i < kk - 1 ==> (#[trigger] w[i]).data == v0[i].data,
        forall|i: int| kk + 1 <= i < w.len() ==> (#[trigger] w[i]).data == v0[i + 1].data,
        kk > 0 ==> w[kk - 1].data.id_next == v0[kk].data.id_next && w[kk - 1].data.id_previous
            == v0[kk - 1].data.id_previous,
        kk < w.len() ==> w[kk].data.id_previous == v0[kk].data.id_previous && w[kk].data.id_next
            == v0[kk + 1].data.id_next,
        topf == (if kk > 0 {
            top0
        } else if w.len() > 0 {
            Some(w[0].id)
        } else {
            None::<u64>
        }),
    ensures
        wf_side(w, topf, bound, side),
        levels_view(w) == levels_view(v0).remove(kk),
{
    assert(forall|i: int, j: int|
        0 <= i < j < w.len() ==> price_closer_to_mid(
            side,
            (#[trigger] w[i]).data.price,
            (#[trigger] w[j]).data.price,
        ));
    assert(forall|i: int| 0 <= i < w.len() ==> (#[trigger] w[i]).id < bound);
    assert(forall|i: int, j: int|
        0 <= i < w.len() && 0 <= j < w.len() && i != j ==> (#[trigger] w[i]).id != (
        #[trigger] w[j]).id);
    assert(forall|i: int|
        0 <= i < w.len() ==> (#[trigger] w[i]).data.id_previous == (if i == 0 {
            None::<u64>
        } else {
            Some(w[i - 1].id)
        }));
    assert(forall|i: int|
        0 <= i < w.len() ==> (#[trigger] w[i]).data.id_next == (if i == w.len() - 1 {
            None::<u64>
        } else {
            Some(w[i + 1].id)
        }));
    assert(levels_view(w) =~= levels_view(v0).remove(kk));
}

/// Detaches the node at position `k`: relinks its neighbours to each other
/// and, when the head was detached, promotes its successor to the top.
#[verifier::rlimit(100)]
pub(crate) fn remove_level_at(
    levels: &mut Vec<LevelEntry>,
    top: &mut Option<u64>,
    k: usize,
    Ghost(bound): Ghost<u64>,
    Ghost(side): Ghost<OrderSide>,
)
    requires
        wf_side(old(levels)@, *old(top), bound, side),
        k < old(levels)@.len(),
    ensures
        wf_side(final(levels)@, *final(top), bound, side),
        levels_view(final(levels)@) == levels_view(old(levels)@).remove(k as int),
        final(levels)@.len() == old(levels)@.len() - 1,
        forall|i: int|
            0 <= i < final(levels)@.len() ==> (#[trigger] final(levels)@[i]).id == (if i < k {
                old(levels)@[i].id
            } else {
                old(levels)@[i + 1].id
            }),
        removed_ids_ok(old(levels)@, final(levels)@, k as int, *old(top), *final(top)),
{
    let ghost v0 = levels@;
    let ghost kk: int = k as int;
    let e = levels.remove(k);
    let ghost v1 = levels@;
    if k > 0 {
        let mut prev_e = levels.remove(k - 1);
        prev_e.data.id_next = e.data.id_next;
        levels.insert(k - 1, prev_e);
        proof {
            assert(levels@ =~= v1.update(kk - 1, levels@[kk - 1]));
        }
    }
    let ghost v2 = levels@;
    if k < levels.len() {
        let mut next_e = levels.remove(k);
        next_e.data.id_previous = e.data.id_previous;
        levels.insert(k, next_e);
        proof {
            assert(levels@ =~= v2.update(kk, levels@[kk]));
        }
    }
    if k == 0 {
        if levels.len() > 0 {
            *top = Some(levels[0].id);
        } else {
            *top = None;
        }
    }
    proof {
        let w = levels@;
        let n = v0.len() as int;
        assert(w.len() == n - 1);
        assert(forall|i: int|
            0 <= i < kk - 1 ==> (#[trigger] w[i]) == v0[i]);
        assert(forall|i: int|
            kk + 1 <= i < n - 1 ==> (#[trigger] w[i]) == v0[i + 1]);
        assert(forall|i: int|
            0 <= i < n - 1 ==> (#[trigger] w[i]).id == (if i < kk {
                v0[i].id
            } else {
                v0[i + 1].id
            }) && w[i].data.price == (if i < kk {
                v0[i].data.price
            } else {
                v0[i + 1].data.price
            }) && w[i].orders == (if i < kk {
                v0[i].orders
            } else {
                v0[i + 1].orders
            }));
        if kk > 0 {
            assert(w[kk - 1].data.id_next == v0[kk].data.id_next);
            assert(w[kk - 1].data.id_previous == v0[kk - 1].data.id_previous);
        }
        if kk < n - 1 {
            assert(w[kk].data.id_previous == v0[kk].data.id_previous);
            assert(w[kk].data.id_next == v0[kk + 1].data.id_next);
        }
        lemma_removed_side_wf(v0, w, kk, side, *old(top), *top, bound);
        if kk == 0 {
            assert(v0[0].data.id_next == (if v0.len() == 1 {
                None::<u64>
            } else {
                Some(v0[1].id)
            }));
        }
        assert(removed_ids_ok(v0, w, kk, *old(top), *top));
    }
}

/// Detaches the level named `level_id` from the book of `market_id`,
/// whichever side it rests on, and discards its queue: the neighbours are
/// relinked directly and a detached head's successor becomes the side's top.
pub fn remove_level(state: &mut State, market_id: u64, level_id: u64) -> (r: Result<
    (),
    ContractError,
>)
    requires
        old(state).wf(),
    ensures
        final(state).wf(),
        final(state).admin == old(state).admin,
        final(state).user_orders == old(state).user_orders,
        final(state).markets@.len() == old(state).markets@.len(),
        match r {
            Ok(()) => ({
                let om = old(state).markets@[market_id as int];
                let nm = final(state).markets@[market_id as int];
                &&& (market_id as int) < old(state).markets@.len()
                &&& forall|j: int|
                    0 <= j < old(state).markets@.len() && j != market_id
                        ==> (#[trigger] final(state).markets@[j]) == old(state).markets@[j]
                &&& nm.info.base_currency == om.info.base_currency
                &&& nm.info.quote_currency == om.info.quote_currency
                &&& nm.info.market_id == om.info.market_id
                &&& nm.next_level_id == om.next_level_id
                &&& if has_level(om.bids@, level_id) {
                    &&& levels_view(nm.bids@) == levels_view(om.bids@).remove(
                        level_index_of(om.bids@, level_id),
                    )
                    &&& removed_ids_ok(
                        om.bids@,
                        nm.bids@,
                        level_index_of(om.bids@, level_id),
                        om.info.top_level_bid,
                        nm.info.top_level_bid,
                    )
                    &&& nm.asks == om.asks
                    &&& nm.info.top_level_ask == om.info.top_level_ask
                } else {
                    &&& has_level(om.asks@, level_id)
                    &&& levels_view(nm.asks@) == levels_view(om.asks@).remove(
                        level_index_of(om.asks@, level_id),
                    )
                    &&& removed_ids_ok(
                        om.asks@,
                        nm.asks@,
                        level_index_of(om.asks@, level_id),
                        om.info.top_level_ask,
                        nm.info.top_level_ask,
                    )
                    &&& nm.bids == om.bids
                    &&& nm.info.top_level_bid == om.info.top_level_bid
                }
            }),
            Err(e) => ({
                &&& final(state).markets@ == old(state).markets@
                &&& if (market_id as int) >= old(state).markets@.len() {
                    e == (ContractError::UnknownMarketId { id: market_id })
                } else {
                    &&& e == ContractError::OrderDoesNotExist
                    &&& !has_level(old(state).markets@[market_id as int].bids@, level_id)
                    &&& !has_level(old(state).markets@[market_id as int].asks@, level_id)
                }
            }),
        },
{
    if market_id >= state.markets.len() as u64 {
        return Err(ContractError::UnknownMarketId { id: market_id });
    }
    let idx = market_id as usize;
    let ghost ms0 = state.markets@;
    let ghost om = state.markets@[idx as int];

    let in_bids = crate::state::find_level_index(&state.markets[idx].bids, level_id);
    let in_asks = match in_bids {
        Some(_) => None,
        None => crate::state::find_level_index(&state.markets[idx].asks, level_id),
    };
    if in_bids.is_none() && in_asks.is_none() {
        return Err(ContractError::OrderDoesNotExist);
    }

    let mut m = state.markets.remove(idx);
    match in_bids {
        Some(k) => {
            proof {
                let ki = level_index_of(om.bids@, level_id);
                assert(0 <= ki < om.bids@.len() && om.bids@[ki].id == level_id);
                assert(ki == k as int);
            }
            remove_level_at(
                &mut m.bids,
                &mut m.info.top_level_bid,
                k,
                Ghost(m.next_level_id),
                Ghost(OrderSide::Buy),
            );
        },
        None => {
            let k = match in_asks {
                Some(k) => k,
                None => 0,  // unreachable: both sides were searched
            };
            proof {
                let ki = level_index_of(om.asks@, level_id);
                assert(0 <= ki < om.asks@.len() && om.asks@[ki].id == level_id);
                assert(ki == k as int);
            }
            remove_level_at(
                &mut m.asks,
                &mut m.info.top_level_ask,
                k,
                Ghost(m.next_level_id),
                Ghost(OrderSide::Sell),
            );
        },
    }
    proof {
        assert(m.wf()) by {
            assert(forall|i: int, j: int|
                0 <= i < m.bids@.len() && 0 <= j < m.asks@.len() ==> (#[trigger] m.bids@[i].id)
                    != (#[trigger] m.asks@[j].id));
        }
    }
    state.markets.insert(idx, m);
    proof {
        assert(state.markets@ =~= ms0.update(idx as int, m));
    }
    Ok(())
}

} // verus!
