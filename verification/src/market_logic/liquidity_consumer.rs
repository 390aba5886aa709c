//! Taker matching: consuming resting liquidity level by level.
//!
//! Within one level the queue is consumed from the back, last inserted
//! first; a partially filled entry has its residual put back before the walk
//! stops.

use vstd::prelude::*;

use crate::market_logic::liquidity_provider::{
    insert_into_side, insert_level_spec, lemma_insert_pos_finds_price,
};
use crate::market_logic::liquidity_remover::{find_price_index, has_price};
use crate::state::{
    dec_user_spec, decrement_user_records, has_level, lemma_has_level_at, levels_view,
    push_record_spec, push_user_record, user_orders_view, wf_side, LevelEntry, State,
    UserOrdersEntry, UserOrdersV,
};
use crate::structs::{
    orders_view, other_side, price_closer_to_mid, side_deposit_currency, transfers_view,
    CurrencyInfo, CurrencyV, LevelOrder, LevelOrders, LevelV, OrderSide, OrderV,
    TransferInstruction, TransferV, UserOrderRecord,
};
use crate::ContractError;
use crate::utils::{
    ceil_mul, ceil_mul_int, lemma_ceil_mul_int_monotone, lemma_ceil_mul_int_nonneg,
    mul_price_ceil,
};

verus! {

/// What consuming one level's queue produced.
#[derive(Debug)]
pub struct ConsumptionResult {
    /// Whether the queue was emptied.
    pub is_fully_consumed: bool,
    /// What is left of the incoming quantity.
    pub remaining_to_consume: u128,
    /// The consumed slices of the queue's entries, in consumption order.
    pub bin_records_consumed: Vec<LevelOrder>,
}

impl Default for ConsumptionResult {
    /// An empty result: nothing consumed, nothing remaining.
    fn default() -> (r: Self)
        ensures
            !r.is_fully_consumed,
            r.remaining_to_consume == 0,
            r.bin_records_consumed@.len() == 0,
    {
        ConsumptionResult {
            bin_records_consumed: Vec::new(),
            is_fully_consumed: false,
            remaining_to_consume: 0,
        }
    }
}

impl ConsumptionResult {
    /// A starting result: the whole incoming quantity still to consume.
    pub fn new(to_consume: u128) -> (r: Self)
        ensures
            !r.is_fully_consumed,
            r.remaining_to_consume == to_consume,
            r.bin_records_consumed@.len() == 0,
    {
        ConsumptionResult {
            bin_records_consumed: Vec::new(),
            is_fully_consumed: false,
            remaining_to_consume: to_consume,
        }
    }
}

/// The spec-level outcome of consuming a queue.
pub struct ConsumeSpecOut {
    /// What remains of the queue.
    pub orders: Seq<OrderV>,
    /// The consumed slices, in consumption order.
    pub consumed: Seq<OrderV>,
    /// What remains of the incoming quantity.
    pub remaining: u128,
}

/// Consuming a queue from the back: each entry is taken wholly while more
/// than its amount remains to fill; the entry that covers the rest is split,
/// its residual put back.
pub open spec fn consume_spec(orders: Seq<OrderV>, qty: u128) -> ConsumeSpecOut
    decreases orders.len(),
{
    if orders.len() == 0 {
        ConsumeSpecOut { orders, consumed: Seq::empty(), remaining: qty }
    } else {
        let last = orders.last();
        if qty > last.amount {
            let rec = consume_spec(orders.drop_last(), (qty - last.amount) as u128);
            ConsumeSpecOut {
                orders: rec.orders,
                consumed: seq![last] + rec.consumed,
                remaining: rec.remaining,
            }
        } else {
            let left = (last.amount - qty) as u128;
            ConsumeSpecOut {
                orders: if left > 0 {
                    orders.drop_last().push(OrderV { user: last.user, amount: left })
                } else {
                    orders.drop_last()
                },
                consumed: seq![OrderV { user: last.user, amount: qty }],
                remaining: 0,
            }
        }
    }
}

/// The total quantity of a queue.
pub open spec fn orders_total(s: Seq<OrderV>) -> int
    decreases s.len(),
{
    if s.len() == 0 {
        0
    } else {
        orders_total(s.drop_last()) + s.last().amount
    }
}

/// Consumption is conservative: what leaves the queue is exactly what fills
/// the order, a remainder is left only once the queue is empty, and every
/// consumed slice is bounded by the queue's total.
pub proof fn lemma_consume_spec_conservation(orders: Seq<OrderV>, qty: u128)
    ensures
        ({
            let out = consume_spec(orders, qty);
            &&& orders_total(orders) == orders_total(out.orders) + orders_total(out.consumed)
            &&& qty == out.remaining + orders_total(out.consumed)
            &&& out.remaining > 0 ==> out.orders.len() == 0
            &&& out.remaining <= qty
            &&& orders_total(out.consumed) >= 0
            &&& orders_total(out.orders) >= 0
        }),
    decreases orders.len(),
{
    lemma_orders_total_nonneg(orders);
    let out = consume_spec(orders, qty);
    if orders.len() == 0 {
        assert(orders_total(out.consumed) == 0);
    } else {
        let last = orders.last();
        if qty > last.amount {
            let rec = consume_spec(orders.drop_last(), (qty - last.amount) as u128);
            lemma_consume_spec_conservation(orders.drop_last(), (qty - last.amount) as u128);
            lemma_orders_total_prepend(last, rec.consumed);
            lemma_orders_total_nonneg(rec.orders);
            lemma_orders_total_nonneg(rec.consumed);
        } else {
            let left = (last.amount - qty) as u128;
            lemma_orders_total_nonneg(orders.drop_last());
            lemma_orders_total_singleton(OrderV { user: last.user, amount: qty });
            assert(out.consumed =~= seq![OrderV { user: last.user, amount: qty }]);
            if left > 0 {
                lemma_orders_total_push(
                    orders.drop_last(),
                    OrderV { user: last.user, amount: left },
                );
            }
        }
    }
}

/// A pushed entry adds its amount to the total.
pub proof fn lemma_orders_total_push(s: Seq<OrderV>, o: OrderV)
    ensures
        orders_total(s.push(o)) == orders_total(s) + o.amount,
{
    assert(s.push(o).drop_last() =~= s);
    assert(s.push(o).last() == o);
}

/// The total of a one-entry queue is that entry's amount.
pub proof fn lemma_orders_total_singleton(o: OrderV)
    ensures
        orders_total(seq![o]) == o.amount,
{
    assert(seq![o].len() == 1);
    assert(seq![o].drop_last() =~= Seq::<OrderV>::empty());
    assert(seq![o].last() == o);
    assert(orders_total(Seq::<OrderV>::empty()) == 0);
    assert(orders_total(seq![o]) == orders_total(seq![o].drop_last()) + seq![o].last().amount);
}

/// A queue's total is never negative.
pub proof fn lemma_orders_total_nonneg(s: Seq<OrderV>)
    ensures
        orders_total(s) >= 0,
    decreases s.len(),
{
    if s.len() > 0 {
        lemma_orders_total_nonneg(s.drop_last());
    }
}

/// Prepending one entry adds its amount to the total.
pub proof fn lemma_orders_total_prepend(o: OrderV, s: Seq<OrderV>)
    ensures
        orders_total(seq![o] + s) == o.amount + orders_total(s),
    decreases s.len(),
{
    if s.len() == 0 {
        assert((seq![o] + s) =~= seq![o]);
        lemma_orders_total_singleton(o);
    } else {
        assert((seq![o] + s).drop_last() =~= seq![o] + s.drop_last());
        assert((seq![o] + s).last() == s.last());
        lemma_orders_total_prepend(o, s.drop_last());
        assert(orders_total(seq![o] + s) == orders_total((seq![o] + s).drop_last()) + (seq![o]
            + s).last().amount);
    }
}

/// Every entry of a queue is bounded by the queue's total.
pub proof fn lemma_orders_total_bounds_each(s: Seq<OrderV>, i: int)
    requires
        0 <= i < s.len(),
    ensures
        s[i].amount <= orders_total(s),
    decreases s.len(),
{
    lemma_orders_total_nonneg(s.drop_last());
    if i == s.len() - 1 {
    } else {
        lemma_orders_total_bounds_each(s.drop_last(), i);
    }
}

/// How a level's queue yields to an incoming taker quantity.
pub trait LiquidityConsumer {
    fn consume(&mut self, quantity: u128) -> ConsumptionResult;
}

impl LiquidityConsumer for LevelOrders {
    /// Consumes up to `quantity` from this queue, last entries first,
    /// splitting the entry that covers the rest and putting its residual
    /// back.
    fn consume(&mut self, quantity: u128) -> (r: ConsumptionResult)
        ensures
            ({
                let out = consume_spec(orders_view(old(self)@), quantity);
                &&& orders_view(final(self)@) == out.orders
                &&& orders_view(r.bin_records_consumed@) == out.consumed
                &&& r.remaining_to_consume == out.remaining
                &&& r.is_fully_consumed == (out.orders.len() == 0)
            }),
    {
        let ghost out = consume_spec(orders_view(old(self)@), quantity);
        let mut rslt = ConsumptionResult::new(quantity);
        proof {
            assert(Seq::<OrderV>::empty() + out.consumed =~= out.consumed);
        }
        loop
            invariant_except_break
                ({
                    let cur = consume_spec(orders_view(self@), rslt.remaining_to_consume);
                    &&& out.orders == cur.orders
                    &&& out.consumed == orders_view(rslt.bin_records_consumed@) + cur.consumed
                    &&& out.remaining == cur.remaining
                }),
            ensures
                orders_view(self@) == out.orders,
                orders_view(rslt.bin_records_consumed@) == out.consumed,
                rslt.remaining_to_consume == out.remaining,
            decreases self@.len(),
        {
            let ghost pre = orders_view(self@);
            let ghost pre_qty = rslt.remaining_to_consume;
            let ghost pre_bin = orders_view(rslt.bin_records_consumed@);
            match self.pop() {
                Some(mut curr) => {
                    proof {
                        assert(orders_view(self@) =~= pre.drop_last());
                        assert(curr@ == pre.last());
                    }
                    if rslt.remaining_to_consume > curr.amount {
                        rslt.remaining_to_consume = rslt.remaining_to_consume - curr.amount;
                        let ghost cv = curr@;
                        rslt.bin_records_consumed.push(curr);
                        proof {
                            let cur = consume_spec(pre, pre_qty);
                            let rec = consume_spec(
                                orders_view(self@),
                                rslt.remaining_to_consume,
                            );
                            assert(cur.consumed == seq![cv] + rec.consumed);
                            assert(orders_view(rslt.bin_records_consumed@) =~= pre_bin.push(cv));
                            assert(pre_bin + (seq![cv] + rec.consumed) =~= pre_bin.push(cv)
                                + rec.consumed);
                        }
                    } else {
                        let left = curr.amount - rslt.remaining_to_consume;
                        let record = LevelOrder {
                            user: curr.user.clone(),
                            amount: rslt.remaining_to_consume,
                        };
                        let ghost rv = record@;
                        rslt.bin_records_consumed.push(record);
                        curr.amount = left;
                        rslt.remaining_to_consume = 0;
                        if curr.amount > 0 {
                            self.push(curr);
                        }
                        proof {
                            let cur = consume_spec(pre, pre_qty);
                            assert(cur.consumed =~= seq![rv]);
                            assert(orders_view(rslt.bin_records_consumed@) =~= pre_bin.push(rv));
                            assert(pre_bin + seq![rv] =~= pre_bin.push(rv));
                            if left > 0 {
                                assert(orders_view(self@) =~= pre.drop_last().push(
                                    OrderV { user: rv.user, amount: left },
                                ));
                            }
                        }
                        break ;
                    }
                },
                None => {
                    proof {
                        assert(orders_view(self@) =~= Seq::<OrderV>::empty());
                        assert(pre_bin + Seq::<OrderV>::empty() =~= pre_bin);
                    }
                    rslt.is_fully_consumed = true;
                    break ;
                },
            }
        }
        if self.len() == 0 {
            rslt.is_fully_consumed = true;
        } else {
            rslt.is_fully_consumed = false;
        }
        rslt
    }
}

/// The spec-level image of one consumed level: its price and the consumed
/// slices of its queue.
pub struct ConsumedLevelV {
    pub price: u128,
    pub orders: Seq<OrderV>,
}

/// The consumed slices of one level, kept for settlement.
#[derive(Debug)]
pub struct ConsumedOrdersLevel {
    pub price: u128,
    pub orders: Vec<LevelOrder>,
}

impl View for ConsumedOrdersLevel {
    type V = ConsumedLevelV;

    open spec fn view(&self) -> ConsumedLevelV {
        ConsumedLevelV { price: self.price, orders: orders_view(self.orders@) }
    }
}

impl ConsumedOrdersLevel {
    /// Keeps the consumed slices of one level, with the level's price.
    pub fn from_consumption_result(price: u128, rslt: ConsumptionResult) -> (r: Self)
        ensures
            r.price == price,
            r.orders == rslt.bin_records_consumed,
    {
        ConsumedOrdersLevel { price, orders: rslt.bin_records_consumed }
    }
}

/// The spec-level image of a list of consumed levels.
pub open spec fn consumed_view(s: Seq<ConsumedOrdersLevel>) -> Seq<ConsumedLevelV> {
    s.map(|i: int, c: ConsumedOrdersLevel| c@)
}

/// Whether a taker bound by `limit` consumes a level at `price`: a buyer
/// consumes asks at or under the limit, a seller bids at or over it; a
/// market order consumes unconditionally.
pub open spec fn price_consumable(price: u128, limit: Option<u128>, taker: OrderSide) -> bool {
    match limit {
        None => true,
        Some(l) => match taker {
            OrderSide::Buy => price <= l,
            OrderSide::Sell => price >= l,
        },
    }
}

/// The spec-level outcome of the matching walk.
pub struct WalkSpecOut {
    /// What remains of the opposing side.
    pub levels: Seq<LevelV>,
    /// The consumed levels, best price first.
    pub consumed: Seq<ConsumedLevelV>,
    /// What remains of the taker quantity.
    pub remaining: u128,
}

/// The matching walk: consume opposing levels from the top while quantity
/// remains and the level price is within the limit; a level whose queue
/// empties is dropped, a partially consumed one keeps its residue.
pub open spec fn consume_walk_spec(
    v: Seq<LevelV>,
    qty: u128,
    limit: Option<u128>,
    taker: OrderSide,
) -> WalkSpecOut
    decreases v.len(),
{
    if qty == 0 || v.len() == 0 || !price_consumable(v[0].price, limit, taker) {
        WalkSpecOut { levels: v, consumed: Seq::empty(), remaining: qty }
    } else {
        let c = consume_spec(v[0].orders, qty);
        let taken = ConsumedLevelV { price: v[0].price, orders: c.consumed };
        if c.remaining == 0 {
            let lv = if c.orders.len() == 0 {
                v.drop_first()
            } else {
                v.drop_first().insert(0, LevelV { price: v[0].price, orders: c.orders })
            };
            WalkSpecOut { levels: lv, consumed: seq![taken], remaining: 0 }
        } else {
            let rec = consume_walk_spec(v.drop_first(), c.remaining, limit, taker);
            WalkSpecOut {
                levels: rec.levels,
                consumed: seq![taken] + rec.consumed,
                remaining: rec.remaining,
            }
        }
    }
}

/// Whether a taker bound by `limit` consumes a level at `price`.
fn price_consumable_exec(price: u128, limit: Option<u128>, taker: OrderSide) -> (r: bool)
    ensures
        r == price_consumable(price, limit, taker),
{
    match limit {
        None => true,
        Some(l) => match taker {
            OrderSide::Buy => price <= l,
            OrderSide::Sell => price >= l,
        },
    }
}

/// After the head level was taken out, promotes the new head: clears its
/// backward link and points the side's top at it, or clears the top when the
/// side emptied.
fn fix_after_head_removal(
    levels: &mut Vec<LevelEntry>,
    top: &mut Option<u64>,
    Ghost(prior): Ghost<Seq<LevelEntry>>,
    Ghost(bound): Ghost<u64>,
    Ghost(side): Ghost<OrderSide>,
)
    requires
        wf_side(prior, *old(top), bound, side),
        prior.len() > 0,
        old(levels)@ == prior.drop_first(),
    ensures
        wf_side(final(levels)@, *final(top), bound, side),
        levels_view(final(levels)@) == levels_view(prior).drop_first(),
        final(levels)@.len() == prior.len() - 1,
        forall|i: int|
            0 <= i < final(levels)@.len() ==> (#[trigger] final(levels)@[i]).id == prior[i + 1].id,
{
    if levels.len() == 0 {
        *top = None;
        proof {
            assert(levels_view(levels@) =~= levels_view(prior).drop_first());
        }
    } else {
        let mut h = levels.remove(0);
        h.data.id_previous = None;
        *top = Some(h.id);
        levels.insert(0, h);
        proof {
            let w = levels@;
            assert(w =~= prior.drop_first().update(0, w[0]));
            assert(forall|i: int| 1 <= i < w.len() ==> w[i] == prior[i + 1]);
            assert(w[0].id == prior[1].id && w[0].data.id_next == prior[1].data.id_next
                && w[0].data.price == prior[1].data.price && w[0].orders == prior[1].orders);
            assert(wf_side(w, *top, bound, side)) by {
                assert(forall|i: int, j: int|
                    0 <= i < j < w.len() ==> price_closer_to_mid(
                        side,
                        (#[trigger] w[i]).data.price,
                        (#[trigger] w[j]).data.price,
                    )) by {
                    assert(forall|i: int|
                        0 <= i < w.len() ==> (#[trigger] w[i]).data.price == prior[i
                            + 1].data.price);
                }
                assert(forall|i: int| 0 <= i < w.len() ==> (#[trigger] w[i]).id == prior[i + 1].id);
                assert(forall|i: int|
                    0 <= i < w.len() ==> (#[trigger] w[i]).data.id_previous == (if i == 0 {
                        None::<u64>
                    } else {
                        Some(w[i - 1].id)
                    }));
                assert(forall|i: int|
                    0 <= i < w.len() ==> (#[trigger] w[i]).data.id_next == (if i == w.len() - 1 {
                        None::<u64>
                    } else {
                        Some(w[i + 1].id)
                    }));
            }
            assert(levels_view(w) =~= levels_view(prior).drop_first());
        }
    }
}

/// Consumes opposing levels from the top of `levels` until the quantity is
/// exhausted, the side empties, or the limit blocks; appends what was
/// consumed, level by level, to `consumed`, and returns what is left of the
/// quantity.
#[verifier::rlimit(100)]
pub(crate) fn consume_walk(
    levels: &mut Vec<LevelEntry>,
    top: &mut Option<u64>,
    consumed: &mut Vec<ConsumedOrdersLevel>,
    qty: u128,
    limit: Option<u128>,
    taker: OrderSide,
    Ghost(bound): Ghost<u64>,
) -> (remaining: u128)
    requires
        wf_side(old(levels)@, *old(top), bound, other_side(taker)),
    ensures
        wf_side(final(levels)@, *final(top), bound, other_side(taker)),
        forall|i: int|
            0 <= i < final(levels)@.len() ==> has_level(
                old(levels)@,
                (#[trigger] final(levels)@[i]).id,
            ),
        ({
            let out = consume_walk_spec(levels_view(old(levels)@), qty, limit, taker);
            &&& levels_view(final(levels)@) == out.levels
            &&& consumed_view(final(consumed)@) == consumed_view(old(consumed)@) + out.consumed
            &&& remaining == out.remaining
        }),
    decreases old(levels)@.len(),
{
    let ghost v0 = levels@;
    let ghost view0 = levels_view(v0);
    let ghost out = consume_walk_spec(view0, qty, limit, taker);
    if qty == 0 || levels.len() == 0 {
        proof {
            assert(consumed_view(consumed@) + Seq::<ConsumedLevelV>::empty() =~= consumed_view(
                consumed@,
            ));
            assert forall|i: int| 0 <= i < levels@.len() implies has_level(
                v0,
                (#[trigger] levels@[i]).id,
            ) by {
                lemma_has_level_at(v0, i);
            }
        }
        return qty;
    }
    let head_price = levels[0].data.price;
    if !price_consumable_exec(head_price, limit, taker) {
        proof {
            assert(consumed_view(consumed@) + Seq::<ConsumedLevelV>::empty() =~= consumed_view(
                consumed@,
            ));
            assert forall|i: int| 0 <= i < levels@.len() implies has_level(
                v0,
                (#[trigger] levels@[i]).id,
            ) by {
                lemma_has_level_at(v0, i);
            }
        }
        return qty;
    }
    let ghost c = consume_spec(view0[0].orders, qty);
    let mut e = levels.remove(0);
    let rslt = e.orders.consume(qty);
    proof {
        assert(orders_view(e.orders@) == c.orders);
        assert(orders_view(rslt.bin_records_consumed@) == c.consumed);
        lemma_consume_spec_conservation(view0[0].orders, qty);
    }
    let ghost taken = ConsumedLevelV { price: view0[0].price, orders: c.consumed };

    if rslt.remaining_to_consume == 0 {
        if e.orders.len() == 0 {
            fix_after_head_removal(
                levels,
                top,
                Ghost(v0),
                Ghost(bound),
                Ghost(other_side(taker)),
            );
        } else {
            levels.insert(0, e);
            proof {
                let w = levels@;
                assert(w =~= v0.update(0, w[0]));
                assert(w[0].id == v0[0].id && w[0].data == v0[0].data);
                assert(wf_side(w, *top, bound, other_side(taker))) by {
                    assert(forall|i: int|
                        0 <= i < w.len() ==> (#[trigger] w[i]).id == v0[i].id && w[i].data
                            == v0[i].data);
                }
                assert(levels_view(w) =~= view0.drop_first().insert(
                    0,
                    LevelV { price: view0[0].price, orders: c.orders },
                ));
            }
        }
        consumed.push(ConsumedOrdersLevel { price: head_price, orders: rslt.bin_records_consumed });
        proof {
            assert(consumed@.last()@ == taken);
            assert(consumed_view(consumed@) =~= consumed_view(old(consumed)@) + seq![taken]);
            assert forall|i: int| 0 <= i < levels@.len() implies has_level(
                v0,
                (#[trigger] levels@[i]).id,
            ) by {
                if levels@.len() == v0.len() {
                    lemma_has_level_at(v0, i);
                } else {
                    lemma_has_level_at(v0, i + 1);
                }
            }
        }
        return 0;
    }
    proof {
        assert(c.orders.len() == 0);
        assert(e.orders@.len() == 0);
    }
    fix_after_head_removal(levels, top, Ghost(v0), Ghost(bound), Ghost(other_side(taker)));
    let ghost v1 = levels@;
    consumed.push(ConsumedOrdersLevel { price: head_price, orders: rslt.bin_records_consumed });
    let ghost mid_consumed = consumed@;
    proof {
        assert(consumed_view(mid_consumed) =~= consumed_view(old(consumed)@) + seq![taken]);
    }
    let remaining = consume_walk(
        levels,
        top,
        consumed,
        rslt.remaining_to_consume,
        limit,
        taker,
        Ghost(bound),
    );
    proof {
        let rec = consume_walk_spec(levels_view(v1), c.remaining, limit, taker);
        assert(levels_view(v1) == view0.drop_first());
        assert(consumed_view(consumed@) == consumed_view(mid_consumed) + rec.consumed);
        assert((consumed_view(old(consumed)@) + seq![taken]) + rec.consumed =~= consumed_view(
            old(consumed)@,
        ) + (seq![taken] + rec.consumed));
        assert(forall|i: int|
            0 <= i < levels@.len() ==> has_level(v0, (#[trigger] levels@[i]).id)) by {
            assert(forall|i: int|
                0 <= i < levels@.len() ==> has_level(v1, (#[trigger] levels@[i]).id));
            assert(forall|j: int| 0 <= j < v1.len() ==> (#[trigger] v1[j]).id == v0[j + 1].id);
            assert(forall|i: int|
                0 <= i < levels@.len() ==> has_level(v0, (#[trigger] levels@[i]).id)) by {
                assert forall|i: int| 0 <= i < levels@.len() implies has_level(
                    v0,
                    (#[trigger] levels@[i]).id,
                ) by {
                    let id = levels@[i].id;
                    assert(has_level(v1, id));
                    let j = choose|j: int| 0 <= j < v1.len() && v1[j].id == id;
                    assert(v0[j + 1].id == id);
                }
            }
        }
    }
    remaining
}

/// Concatenation splits a queue total.
pub proof fn lemma_orders_total_append(a: Seq<OrderV>, b: Seq<OrderV>)
    ensures
        orders_total(a + b) == orders_total(a) + orders_total(b),
    decreases b.len(),
{
    if b.len() == 0 {
        assert(a + b =~= a);
    } else {
        assert((a + b).drop_last() =~= a + b.drop_last());
        assert((a + b).last() == b.last());
        lemma_orders_total_append(a, b.drop_last());
    }
}

/// What one consumed maker entry is owed: the taker's quote, price-converted
/// and rounded up, when the taker buys; the consumed quantity itself when
/// the taker sells.
pub open spec fn maker_amount(taker: OrderSide, amount: u128, price: u128) -> int {
    match taker {
        OrderSide::Buy => ceil_mul(amount, price),
        OrderSide::Sell => amount as int,
    }
}

/// What one consumed level owes the taker: the consumed quantity itself for
/// a buyer, its price-converted value, rounded up, for a seller.
pub open spec fn level_taker_amount(taker: OrderSide, c: ConsumedLevelV) -> int {
    match taker {
        OrderSide::Buy => orders_total(c.orders),
        OrderSide::Sell => ceil_mul_int(orders_total(c.orders), c.price),
    }
}

/// What a whole walk owes the taker.
pub open spec fn settle_sum(cs: Seq<ConsumedLevelV>, taker: OrderSide) -> int
    decreases cs.len(),
{
    if cs.len() == 0 {
        0
    } else {
        level_taker_amount(taker, cs[0]) + settle_sum(cs.drop_first(), taker)
    }
}

/// What a whole walk owes the taker is never negative.
pub proof fn lemma_settle_sum_nonneg(cs: Seq<ConsumedLevelV>, taker: OrderSide)
    ensures
        settle_sum(cs, taker) >= 0,
    decreases cs.len(),
{
    if cs.len() > 0 {
        lemma_orders_total_nonneg(cs[0].orders);
        lemma_ceil_mul_int_nonneg(orders_total(cs[0].orders), cs[0].price);
        lemma_settle_sum_nonneg(cs.drop_first(), taker);
    }
}

/// The settlement instructions owed to the makers of one consumed level, in
/// consumption order.
pub open spec fn maker_transfers_level(
    c: ConsumedLevelV,
    taker: OrderSide,
    currency: CurrencyV,
) -> Seq<TransferV> {
    c.orders.map(
        |i: int, o: OrderV|
            TransferV {
                amount: maker_amount(taker, o.amount, c.price) as u128,
                currency,
                recipient: o.user,
            },
    )
}

/// The settlement instructions owed to all consumed makers, level by level.
pub open spec fn maker_transfers(
    cs: Seq<ConsumedLevelV>,
    taker: OrderSide,
    currency: CurrencyV,
) -> Seq<TransferV>
    decreases cs.len(),
{
    if cs.len() == 0 {
        Seq::empty()
    } else {
        maker_transfers_level(cs[0], taker, currency) + maker_transfers(
            cs.drop_first(),
            taker,
            currency,
        )
    }
}

/// The order index after the consumed slices of one level are charged
/// against their makers' records.
pub open spec fn records_after_level(
    entries: Seq<UserOrdersV>,
    orders: Seq<OrderV>,
    price: u128,
    market_id: u64,
    maker_side: OrderSide,
) -> Seq<UserOrdersV>
    decreases orders.len(),
{
    if orders.len() == 0 {
        entries
    } else {
        records_after_level(
            dec_user_spec(entries, orders[0].user, market_id, maker_side, price, orders[0].amount),
            orders.drop_first(),
            price,
            market_id,
            maker_side,
        )
    }
}

/// The order index after a whole walk is charged against the consumed
/// makers' records.
pub open spec fn records_after(
    entries: Seq<UserOrdersV>,
    cs: Seq<ConsumedLevelV>,
    market_id: u64,
    maker_side: OrderSide,
) -> Seq<UserOrdersV>
    decreases cs.len(),
{
    if cs.len() == 0 {
        entries
    } else {
        records_after(
            records_after_level(entries, cs[0].orders, cs[0].price, market_id, maker_side),
            cs.drop_first(),
            market_id,
            maker_side,
        )
    }
}

/// Settles a finished walk: charges each consumed slice against its maker's
/// records, emits one transfer of the taker's currency per consumed slice to
/// its maker, and returns the total owed to the taker.
#[verifier::rlimit(100)]
pub(crate) fn settle_consumed(
    consumed: &Vec<ConsumedOrdersLevel>,
    user_orders: &mut Vec<UserOrdersEntry>,
    transfers: &mut Vec<TransferInstruction>,
    market_id: u64,
    maker_side: OrderSide,
    taker: OrderSide,
    maker_currency: &CurrencyInfo,
) -> (taker_amount: u128)
    requires
        forall|k: int|
            0 <= k < consumed@.len() ==> orders_total((#[trigger] consumed@[k])@.orders)
                <= u128::MAX,
        forall|k: int|
            0 <= k < consumed@.len() ==> ceil_mul_int(
                orders_total((#[trigger] consumed@[k])@.orders),
                consumed@[k]@.price,
            ) <= u128::MAX,
        settle_sum(consumed_view(consumed@), taker) <= u128::MAX,
        forall|i: int, j: int|
            0 <= i < old(user_orders)@.len() && 0 <= j < old(user_orders)@.len() && i != j ==> (
            #[trigger] old(user_orders)@[i].user)@ != (#[trigger] old(user_orders)@[j].user)@,
    ensures
        user_orders_view(final(user_orders)@) == records_after(
            user_orders_view(old(user_orders)@),
            consumed_view(consumed@),
            market_id,
            maker_side,
        ),
        transfers_view(final(transfers)@) == transfers_view(old(transfers)@) + maker_transfers(
            consumed_view(consumed@),
            taker,
            maker_currency@,
        ),
        taker_amount == settle_sum(consumed_view(consumed@), taker),
        final(user_orders)@.len() == old(user_orders)@.len(),
        forall|i: int|
            0 <= i < old(user_orders)@.len() ==> (#[trigger] final(user_orders)@[i]).user
                == old(user_orders)@[i].user,
{
    let ghost cs = consumed_view(consumed@);
    let ghost e0 = user_orders_view(old(user_orders)@);
    let ghost t0 = transfers_view(old(transfers)@);
    let mut acc: u128 = 0;
    let mut k: usize = 0;
    proof {
        assert(cs.skip(0) =~= cs);
        assert(t0 + Seq::<TransferV>::empty() =~= t0);
        lemma_settle_sum_nonneg(cs, taker);
    }
    while k < consumed.len()
        invariant
            k <= consumed@.len(),
            cs == consumed_view(consumed@),
            forall|kk: int|
                0 <= kk < consumed@.len() ==> orders_total((#[trigger] consumed@[kk])@.orders)
                    <= u128::MAX,
            forall|kk: int|
                0 <= kk < consumed@.len() ==> ceil_mul_int(
                    orders_total((#[trigger] consumed@[kk])@.orders),
                    consumed@[kk]@.price,
                ) <= u128::MAX,
            settle_sum(cs, taker) <= u128::MAX,
            records_after(user_orders_view(user_orders@), cs.skip(k as int), market_id, maker_side)
                == records_after(e0, cs, market_id, maker_side),
            t0 + maker_transfers(cs, taker, maker_currency@) == transfers_view(transfers@)
                + maker_transfers(cs.skip(k as int), taker, maker_currency@),
            acc + settle_sum(cs.skip(k as int), taker) == settle_sum(cs, taker),
            acc >= 0,
            user_orders@.len() == old(user_orders)@.len(),
            forall|i: int|
                0 <= i < old(user_orders)@.len() ==> (#[trigger] user_orders@[i]).user
                    == old(user_orders)@[i].user,
            forall|i: int, jj: int|
                0 <= i < user_orders@.len() && 0 <= jj < user_orders@.len() && i != jj ==> (
                #[trigger] user_orders@[i].user)@ != (#[trigger] user_orders@[jj].user)@,
        decreases consumed@.len() - k,
    {
        let ghost kk = k as int;
        let price = consumed[k].price;
        let ghost c = cs[kk];
        proof {
            assert(cs.skip(kk).drop_first() =~= cs.skip(kk + 1));
            assert(cs.skip(kk)[0] == cs[kk]);
            assert(c.orders.skip(0) =~= c.orders);
            lemma_settle_sum_nonneg(cs.skip(kk + 1), taker);
            lemma_orders_total_nonneg(c.orders);
            lemma_ceil_mul_int_nonneg(orders_total(c.orders), c.price);
        }
        let ghost entries_at_level = user_orders_view(user_orders@);
        let ghost t_at_level = transfers_view(transfers@);
        let mut level_sum: u128 = 0;
        let mut j: usize = 0;
        proof {
            assert(c.orders.take(0) =~= Seq::<OrderV>::empty());
            assert(t_at_level + Seq::<TransferV>::empty() =~= t_at_level);
            assert(maker_transfers_level(c, taker, maker_currency@).take(0) =~= Seq::<
                TransferV,
            >::empty());
            lemma_orders_total_append(c.orders.take(0), c.orders.skip(0));
            assert(orders_total(c.orders.take(0)) == 0);
        }
        while j < consumed[k].orders.len()
            invariant
                k < consumed@.len(),
                kk == k as int,
                cs == consumed_view(consumed@),
                c == cs[kk],
                price == c.price,
                j <= c.orders.len(),
                orders_total(c.orders) <= u128::MAX,
                ceil_mul_int(orders_total(c.orders), c.price) <= u128::MAX,
                level_sum == orders_total(c.orders.take(j as int)),
                records_after_level(
                    user_orders_view(user_orders@),
                    c.orders.skip(j as int),
                    c.price,
                    market_id,
                    maker_side,
                ) == records_after_level(
                    entries_at_level,
                    c.orders,
                    c.price,
                    market_id,
                    maker_side,
                ),
                transfers_view(transfers@) == t_at_level + maker_transfers_level(
                    c,
                    taker,
                    maker_currency@,
                ).take(j as int),
                user_orders@.len() == old(user_orders)@.len(),
                forall|i: int|
                    0 <= i < old(user_orders)@.len() ==> (#[trigger] user_orders@[i]).user
                        == old(user_orders)@[i].user,
                forall|i: int, jj: int|
                    0 <= i < user_orders@.len() && 0 <= jj < user_orders@.len() && i != jj ==> (
                    #[trigger] user_orders@[i].user)@ != (#[trigger] user_orders@[jj].user)@,
            decreases c.orders.len() - j,
        {
            let ghost jj = j as int;
            proof {
                assert(c.orders.skip(jj).drop_first() =~= c.orders.skip(jj + 1));
                assert(c.orders.skip(jj)[0] == c.orders[jj]);
                assert(consumed@[kk]@.orders[jj] == consumed@[kk].orders@[jj]@);
                lemma_orders_total_bounds_each(c.orders, jj);
                assert(c.orders.take(jj + 1) =~= c.orders.take(jj).push(c.orders[jj]));
                lemma_orders_total_push(c.orders.take(jj), c.orders[jj]);
                lemma_orders_total_append(c.orders.take(jj + 1), c.orders.skip(jj + 1));
                assert(c.orders.take(jj + 1) + c.orders.skip(jj + 1) =~= c.orders);
                lemma_orders_total_nonneg(c.orders.skip(jj + 1));
            }
            let amount = consumed[k].orders[j].amount;
            let recipient = consumed[k].orders[j].user.clone();
            decrement_user_records(
                user_orders,
                &recipient,
                market_id,
                maker_side,
                price,
                amount,
            );
            let m_amt: u128 = match taker {
                OrderSide::Buy => {
                    proof {
                        lemma_ceil_mul_int_monotone(
                            amount as int,
                            orders_total(c.orders),
                            c.price,
                        );
                    }
                    mul_price_ceil(amount, price)
                },
                OrderSide::Sell => amount,
            };
            let ghost pre_t = transfers@;
            transfers.push(
                TransferInstruction {
                    amount: m_amt,
                    currency: maker_currency.duplicate(),
                    recipient,
                },
            );
            proof {
                let mt = maker_transfers_level(c, taker, maker_currency@);
                assert(transfers@.last()@ == mt[jj]);
                assert(transfers_view(transfers@) =~= transfers_view(pre_t).push(mt[jj]));
                assert((t_at_level + mt.take(jj)).push(mt[jj]) =~= t_at_level + mt.take(jj + 1))
                    by {
                    assert(mt.take(jj + 1) =~= mt.take(jj).push(mt[jj]));
                }
            }
            level_sum = level_sum + amount;
            j = j + 1;
        }
        proof {
            let mt = maker_transfers_level(c, taker, maker_currency@);
            assert(c.orders.take(c.orders.len() as int) =~= c.orders);
            assert(c.orders.skip(c.orders.len() as int) =~= Seq::<OrderV>::empty());
            assert(mt.take(c.orders.len() as int) =~= mt);
            assert(level_sum == orders_total(c.orders));
            assert(user_orders_view(user_orders@) == records_after_level(
                entries_at_level,
                c.orders,
                c.price,
                market_id,
                maker_side,
            ));
            assert(records_after(entries_at_level, cs.skip(kk), market_id, maker_side)
                == records_after(
                user_orders_view(user_orders@),
                cs.skip(kk + 1),
                market_id,
                maker_side,
            ));
        }
        let lvl_amt: u128 = match taker {
            OrderSide::Buy => level_sum,
            OrderSide::Sell => mul_price_ceil(level_sum, price),
        };
        proof {
            assert(lvl_amt == level_taker_amount(taker, c));
            assert(settle_sum(cs.skip(kk), taker) == level_taker_amount(taker, c) + settle_sum(
                cs.skip(kk + 1),
                taker,
            ));
        }
        acc = acc + lvl_amt;
        proof {
            let mcur = maker_transfers(cs.skip(kk), taker, maker_currency@);
            assert(mcur == maker_transfers_level(c, taker, maker_currency@) + maker_transfers(
                cs.skip(kk + 1),
                taker,
                maker_currency@,
            ));
            assert((transfers_view(transfers@)) + maker_transfers(
                cs.skip(kk + 1),
                taker,
                maker_currency@,
            ) =~= (t_at_level + maker_transfers_level(c, taker, maker_currency@))
                + maker_transfers(cs.skip(kk + 1), taker, maker_currency@));
            assert(t_at_level + (maker_transfers_level(c, taker, maker_currency@)
                + maker_transfers(cs.skip(kk + 1), taker, maker_currency@)) =~= (t_at_level
                + maker_transfers_level(c, taker, maker_currency@)) + maker_transfers(
                cs.skip(kk + 1),
                taker,
                maker_currency@,
            ));
        }
        k = k + 1;
    }
    proof {
        assert(cs.skip(cs.len() as int) =~= Seq::<ConsumedLevelV>::empty());
        assert(transfers_view(transfers@) + Seq::<TransferV>::empty() =~= transfers_view(
            transfers@,
        ));
    }
    acc
}

/// The total resting quantity of one side.
pub open spec fn side_total(v: Seq<LevelV>) -> int
    decreases v.len(),
{
    if v.len() == 0 {
        0
    } else {
        orders_total(v[0].orders) + side_total(v.drop_first())
    }
}

/// A side's total is never negative.
pub proof fn lemma_side_total_nonneg(v: Seq<LevelV>)
    ensures
        side_total(v) >= 0,
    decreases v.len(),
{
    if v.len() > 0 {
        lemma_orders_total_nonneg(v[0].orders);
        lemma_side_total_nonneg(v.drop_first());
    }
}

/// Concatenation splits a side total.
pub proof fn lemma_side_total_append(a: Seq<LevelV>, b: Seq<LevelV>)
    ensures
        side_total(a + b) == side_total(a) + side_total(b),
    decreases a.len(),
{
    if a.len() == 0 {
        assert(a + b =~= b);
    } else {
        assert((a + b).drop_first() =~= a.drop_first() + b);
        assert((a + b)[0] == a[0]);
        lemma_side_total_append(a.drop_first(), b);
    }
}

/// The price-converted value of one side, level totals rounded up: the bound
/// every settlement amount of a walk over that side stays under.
pub open spec fn side_settlement(v: Seq<LevelV>) -> int
    decreases v.len(),
{
    if v.len() == 0 {
        0
    } else {
        ceil_mul_int(orders_total(v[0].orders), v[0].price) + side_settlement(v.drop_first())
    }
}

/// A side's settlement value is never negative.
pub proof fn lemma_side_settlement_nonneg(v: Seq<LevelV>)
    ensures
        side_settlement(v) >= 0,
    decreases v.len(),
{
    if v.len() > 0 {
        lemma_orders_total_nonneg(v[0].orders);
        lemma_ceil_mul_int_nonneg(orders_total(v[0].orders), v[0].price);
        lemma_side_settlement_nonneg(v.drop_first());
    }
}

/// What a walk consumes stays within the side it walked: consumed levels
/// keep their prices, consumed quantities are bounded by the levels' totals,
/// and the consumed grand total is exactly what was filled of the order.
pub proof fn lemma_walk_bounds(v: Seq<LevelV>, qty: u128, limit: Option<u128>, taker: OrderSide)
    ensures
        ({
            let out = consume_walk_spec(v, qty, limit, taker);
            &&& out.consumed.len() <= v.len()
            &&& forall|i: int|
                0 <= i < out.consumed.len() ==> (#[trigger] out.consumed[i]).price == v[i].price
                    && 0 <= orders_total(out.consumed[i].orders) <= orders_total(v[i].orders)
            &&& settle_sum(out.consumed, OrderSide::Buy) == qty - out.remaining
            &&& out.remaining <= qty
        }),
    decreases v.len(),
{
    let out = consume_walk_spec(v, qty, limit, taker);
    if qty == 0 || v.len() == 0 || !price_consumable(v[0].price, limit, taker) {
    } else {
        let c = consume_spec(v[0].orders, qty);
        lemma_consume_spec_conservation(v[0].orders, qty);
        let taken = ConsumedLevelV { price: v[0].price, orders: c.consumed };
        lemma_orders_total_nonneg(c.consumed);
        lemma_orders_total_nonneg(c.orders);
        if c.remaining == 0 {
            assert(out.consumed =~= seq![taken]);
            assert(out.consumed.drop_first() =~= Seq::<ConsumedLevelV>::empty());
            assert(out.consumed[0] == taken);
            assert(settle_sum(out.consumed, OrderSide::Buy) == level_taker_amount(
                OrderSide::Buy,
                taken,
            ) + settle_sum(Seq::<ConsumedLevelV>::empty(), OrderSide::Buy));
        } else {
            let rec = consume_walk_spec(v.drop_first(), c.remaining, limit, taker);
            lemma_walk_bounds(v.drop_first(), c.remaining, limit, taker);
            assert(out.consumed.drop_first() =~= rec.consumed);
            assert(out.consumed[0] == taken);
            assert(settle_sum(out.consumed, OrderSide::Buy) == level_taker_amount(
                OrderSide::Buy,
                taken,
            ) + settle_sum(rec.consumed, OrderSide::Buy));
            assert(forall|i: int|
                1 <= i < out.consumed.len() ==> (#[trigger] out.consumed[i]) == rec.consumed[i
                    - 1]);
            assert(forall|i: int|
                1 <= i < out.consumed.len() ==> v[i] == v.drop_first()[i - 1]);
        }
    }
}

/// A market-order walk leaves something unfilled exactly when the order
/// exceeded the side's whole liquidity, and then only because the side was
/// emptied.
pub proof fn lemma_market_walk(v: Seq<LevelV>, qty: u128, taker: OrderSide)
    ensures
        ({
            let out = consume_walk_spec(v, qty, None, taker);
            &&& (out.remaining > 0 <==> qty > side_total(v))
            &&& (out.remaining > 0 ==> out.levels.len() == 0)
        }),
    decreases v.len(),
{
    let out = consume_walk_spec(v, qty, None, taker);
    lemma_side_total_nonneg(v);
    if qty == 0 || v.len() == 0 {
    } else {
        let c = consume_spec(v[0].orders, qty);
        lemma_consume_spec_conservation(v[0].orders, qty);
        lemma_orders_total_nonneg(c.orders);
        lemma_side_total_nonneg(v.drop_first());
        if c.remaining == 0 {
            lemma_orders_total_nonneg(c.consumed);
        } else {
            lemma_market_walk(v.drop_first(), c.remaining, taker);
            assert(orders_total(c.consumed) == orders_total(v[0].orders));
        }
    }
}

/// Every settlement amount of a walk is bounded by the walked side's
/// settlement value.
pub proof fn lemma_settle_dominated(v: Seq<LevelV>, cs: Seq<ConsumedLevelV>)
    requires
        cs.len() <= v.len(),
        forall|i: int|
            0 <= i < cs.len() ==> (#[trigger] cs[i]).price == v[i].price && 0 <= orders_total(
                cs[i].orders,
            ) <= orders_total(v[i].orders),
    ensures
        settle_sum(cs, OrderSide::Sell) <= side_settlement(v),
        forall|i: int|
            0 <= i < cs.len() ==> ceil_mul_int(
                orders_total((#[trigger] cs[i]).orders),
                cs[i].price,
            ) <= side_settlement(v),
    decreases cs.len(),
{
    lemma_side_settlement_nonneg(v);
    if cs.len() == 0 {
    } else {
        lemma_ceil_mul_int_monotone(
            orders_total(cs[0].orders),
            orders_total(v[0].orders),
            v[0].price,
        );
        assert(forall|i: int|
            0 <= i < cs.drop_first().len() ==> (#[trigger] cs.drop_first()[i]) == cs[i + 1]
                && v.drop_first()[i] == v[i + 1]);
        lemma_settle_dominated(v.drop_first(), cs.drop_first());
        lemma_side_settlement_nonneg(v.drop_first());
        lemma_ceil_mul_int_nonneg(orders_total(v[0].orders), v[0].price);
        assert(forall|i: int|
            1 <= i < cs.len() ==> ceil_mul_int(
                orders_total((#[trigger] cs[i]).orders),
                cs[i].price,
            ) == ceil_mul_int(orders_total(cs.drop_first()[i - 1].orders), cs.drop_first()[i
                - 1].price));
    }
}

/// Whether one side holds at least `qty` in resting quantity.
fn side_holds_at_least(levels: &Vec<LevelEntry>, qty: u128) -> (r: bool)
    ensures
        r == (side_total(levels_view(levels@)) >= qty),
{
    let ghost v = levels_view(levels@);
    let mut need: u128 = qty;
    if need == 0 {
        proof {
            lemma_side_total_nonneg(v);
        }
        return true;
    }
    let mut k: usize = 0;
    while k < levels.len()
        invariant
            k <= levels@.len(),
            v == levels_view(levels@),
            need > 0,
            qty - need == side_total(v.take(k as int)),
        decreases levels@.len() - k,
    {
        let ghost kk = k as int;
        let ghost c = v[kk].orders;
        let orders = &levels[k].orders;
        proof {
            assert(orders_view(orders@) == c);
            assert(c.take(0) =~= Seq::<OrderV>::empty());
        }
        let mut j: usize = 0;
        while j < orders.len()
            invariant
                j <= orders@.len(),
                c == orders_view(orders@),
                kk == k as int,
                k < levels@.len(),
                v == levels_view(levels@),
                c == v[kk].orders,
                need > 0,
                qty - need == side_total(v.take(kk)) + orders_total(c.take(j as int)),
            decreases orders@.len() - j,
        {
            let ghost jj = j as int;
            proof {
                assert(c.take(jj + 1) =~= c.take(jj).push(c[jj]));
                lemma_orders_total_push(c.take(jj), c[jj]);
                assert(c[jj] == orders@[jj]@);
            }
            let amt = orders[j].amount;
            if amt >= need {
                proof {
                    // Everything counted so far plus this entry already
                    // covers the order; the rest of the side only adds.
                    assert(c.take(jj + 1) + c.skip(jj + 1) =~= c);
                    lemma_orders_total_append(c.take(jj + 1), c.skip(jj + 1));
                    lemma_orders_total_nonneg(c.skip(jj + 1));
                    assert(v.take(kk).push(v[kk]) =~= v.take(kk + 1));
                    lemma_side_total_append(v.take(kk), seq![v[kk]]);
                    assert(seq![v[kk]].drop_first() =~= Seq::<LevelV>::empty());
                    assert(seq![v[kk]][0] == v[kk]);
                    assert(side_total(Seq::<LevelV>::empty()) == 0);
                    assert(side_total(seq![v[kk]]) == orders_total(c));
                    assert(v.take(kk).push(v[kk]) =~= v.take(kk) + seq![v[kk]]);
                    assert(v.take(kk + 1) + v.skip(kk + 1) =~= v);
                    lemma_side_total_append(v.take(kk + 1), v.skip(kk + 1));
                    lemma_side_total_nonneg(v.skip(kk + 1));
                }
                return true;
            }
            need = need - amt;
            j = j + 1;
        }
        proof {
            assert(c.take(c.len() as int) =~= c);
            assert(v.take(kk).push(v[kk]) =~= v.take(kk + 1));
            assert(v.take(kk).push(v[kk]) =~= v.take(kk) + seq![v[kk]]);
            lemma_side_total_append(v.take(kk), seq![v[kk]]);
            assert(seq![v[kk]].drop_first() =~= Seq::<LevelV>::empty());
            assert(seq![v[kk]][0] == v[kk]);
            assert(side_total(Seq::<LevelV>::empty()) == 0);
            assert(side_total(seq![v[kk]]) == orders_total(c));
        }
        k = k + 1;
    }
    proof {
        assert(v.take(v.len() as int) =~= v);
    }
    false
}

/// A quantity covering a queue's whole total drains the queue, leaving the
/// surplus, as long as every entry is a positive amount.
proof fn lemma_consume_covers_queue(orders: Seq<OrderV>, qty: u128)
    requires
        orders_total(orders) <= qty,
        forall|j: int| 0 <= j < orders.len() ==> (#[trigger] orders[j]).amount >= 1,
    ensures
        consume_spec(orders, qty).orders.len() == 0,
        consume_spec(orders, qty).remaining == qty - orders_total(orders),
    decreases orders.len(),
{
    lemma_orders_total_nonneg(orders);
    if orders.len() == 0 {
    } else {
        let last = orders.last();
        lemma_orders_total_nonneg(orders.drop_last());
        if qty > last.amount {
            assert(forall|j: int|
                0 <= j < orders.drop_last().len() ==> (#[trigger] orders.drop_last()[j]).amount
                    >= 1);
            lemma_consume_covers_queue(orders.drop_last(), (qty - last.amount) as u128);
        } else {
            // The last entry alone covers the quantity, so nothing else can
            // rest before it.
            assert(orders_total(orders.drop_last()) == 0);
            if orders.drop_last().len() > 0 {
                lemma_orders_total_nonneg(orders.drop_last().drop_last());
                assert(orders.drop_last().last() == orders[orders.len() as int - 2]);
                assert(orders_total(orders.drop_last()) >= 1);
            }
            assert(orders.drop_last().len() == 0);
            assert(qty == last.amount);
        }
    }
}

/// A market order exactly matching a side's whole liquidity empties that
/// side, with nothing left of the order, as long as every resting entry is a
/// positive amount on a level with a nonempty queue. The side's top pointer
/// is then absent, since a well-formed empty side points at nothing.
pub proof fn lemma_market_order_exact_empties(v: Seq<LevelV>, taker: OrderSide)
    requires
        side_total(v) <= u128::MAX,
        forall|i: int| 0 <= i < v.len() ==> (#[trigger] v[i]).orders.len() >= 1,
        forall|i: int, j: int|
            0 <= i < v.len() && 0 <= j < (#[trigger] v[i]).orders.len() ==> (#[trigger] v[i].orders[j]).amount >= 1,
    ensures
        consume_walk_spec(v, side_total(v) as u128, None, taker).levels.len() == 0,
        consume_walk_spec(v, side_total(v) as u128, None, taker).remaining == 0,
    decreases v.len(),
{
    lemma_side_total_nonneg(v);
    let qty = side_total(v) as u128;
    if v.len() == 0 {
    } else {
        lemma_orders_total_nonneg(v[0].orders);
        lemma_side_total_nonneg(v.drop_first());
        // A nonempty side of positive entries holds a positive total.
        assert(orders_total(v[0].orders) >= 1) by {
            lemma_orders_total_nonneg(v[0].orders.drop_last());
            assert(v[0].orders.last() == v[0].orders[v[0].orders.len() - 1]);
        }
        assert(qty > 0);
        let c = consume_spec(v[0].orders, qty);
        lemma_consume_covers_queue(v[0].orders, qty);
        assert(c.remaining == side_total(v.drop_first()));
        if c.remaining == 0 {
            // Every further level would add at least one to the total.
            if v.drop_first().len() > 0 {
                lemma_orders_total_nonneg(v.drop_first()[0].orders);
                lemma_side_total_nonneg(v.drop_first().drop_first());
                assert(orders_total(v.drop_first()[0].orders) >= 1) by {
                    lemma_orders_total_nonneg(v.drop_first()[0].orders.drop_last());
                }
                assert(side_total(v.drop_first()) >= 1);
            }
            assert(v.drop_first().len() == 0);
        } else {
            assert(forall|i: int, j: int|
                0 <= i < v.drop_first().len() && 0 <= j < (#[trigger] v.drop_first()[i]).orders.len()
                    ==> (#[trigger] v.drop_first()[i].orders[j]).amount >= 1) by {
                assert(forall|i: int|
                    0 <= i < v.drop_first().len() ==> (#[trigger] v.drop_first()[i]) == v[i + 1]);
            }
            lemma_market_order_exact_empties(v.drop_first(), taker);
        }
    }
}

/// A limit taker consumes opposing levels in price order, each at or better
/// than its limit, and leaves a remainder only once the side is exhausted or
/// its top is strictly worse than the limit.
pub proof fn lemma_limit_walk_respects_limit(
    v: Seq<LevelV>,
    qty: u128,
    limit: Option<u128>,
    taker: OrderSide,
)
    ensures
        ({
            let out = consume_walk_spec(v, qty, limit, taker);
            &&& forall|i: int|
                0 <= i < out.consumed.len() ==> price_consumable(
                    (#[trigger] out.consumed[i]).price,
                    limit,
                    taker,
                )
            &&& (out.remaining > 0 && out.levels.len() > 0 ==> !price_consumable(
                out.levels[0].price,
                limit,
                taker,
            ))
        }),
    decreases v.len(),
{
    let out = consume_walk_spec(v, qty, limit, taker);
    if qty == 0 || v.len() == 0 || !price_consumable(v[0].price, limit, taker) {
    } else {
        let c = consume_spec(v[0].orders, qty);
        lemma_consume_spec_conservation(v[0].orders, qty);
        if c.remaining == 0 {
            assert(out.consumed =~= seq![
                ConsumedLevelV { price: v[0].price, orders: c.consumed },
            ]);
        } else {
            lemma_limit_walk_respects_limit(v.drop_first(), c.remaining, limit, taker);
            let rec = consume_walk_spec(v.drop_first(), c.remaining, limit, taker);
            assert(forall|i: int|
                1 <= i < out.consumed.len() ==> (#[trigger] out.consumed[i]) == rec.consumed[i
                    - 1]);
        }
    }
}

/// Whatever the walk leaves at the top of the opposing side was already
/// resting there: its price is the price of one of the old levels.
pub proof fn lemma_walk_head_price(v: Seq<LevelV>, qty: u128, limit: Option<u128>, taker: OrderSide)
    ensures
        ({
            let out = consume_walk_spec(v, qty, limit, taker);
            out.levels.len() > 0 ==> exists|j: int|
                0 <= j < v.len() && out.levels[0].price == (#[trigger] v[j]).price
        }),
    decreases v.len(),
{
    let out = consume_walk_spec(v, qty, limit, taker);
    if qty == 0 || v.len() == 0 || !price_consumable(v[0].price, limit, taker) {
        if out.levels.len() > 0 {
            assert(out.levels[0].price == v[0].price);
        }
    } else {
        let c = consume_spec(v[0].orders, qty);
        if c.remaining == 0 {
            if out.levels.len() > 0 {
                if c.orders.len() == 0 {
                    assert(out.levels[0] == v.drop_first()[0]);
                    assert(out.levels[0].price == v[1].price);
                } else {
                    assert(out.levels[0].price == v[0].price);
                }
            }
        } else {
            lemma_walk_head_price(v.drop_first(), c.remaining, limit, taker);
            if out.levels.len() > 0 {
                let j = choose|j: int|
                    0 <= j < v.drop_first().len() && out.levels[0].price == v.drop_first()[j].price;
                assert(out.levels[0].price == v[j + 1].price);
            }
        }
    }
}

/// For a buyer, each consumed level's quantity is bounded by the whole
/// walk's filled quantity.
pub proof fn lemma_settle_sum_buy_component(cs: Seq<ConsumedLevelV>, i: int)
    requires
        0 <= i < cs.len(),
    ensures
        orders_total(cs[i].orders) <= settle_sum(cs, OrderSide::Buy),
    decreases cs.len(),
{
    lemma_orders_total_nonneg(cs[0].orders);
    if i == 0 {
        lemma_settle_sum_nonneg(cs.drop_first(), OrderSide::Buy);
    } else {
        lemma_settle_sum_buy_component(cs.drop_first(), i - 1);
        assert(cs.drop_first()[i - 1] == cs[i]);
    }
}

/// How a successful taker call relates the state after it to the one before
/// it, and pins the emitted settlement instructions: the opposing side is
/// what the matching walk leaves, a remainder rests on the taker's side at
/// the limit price and is recorded for the taker, every consumed maker's
/// record shrinks, and the instructions pay the makers then the taker.
pub open spec fn taker_ok(
    pre: State,
    post: State,
    transfers: Seq<TransferV>,
    sender: Seq<char>,
    market_id: u64,
    opt_order_price: Option<u128>,
    order_quantity: u128,
    order_side: OrderSide,
) -> bool {
    let om = pre.markets@[market_id as int];
    let nm = post.markets@[market_id as int];
    let v = levels_view(om.side_levels(other_side(order_side)));
    let walk = consume_walk_spec(v, order_quantity, opt_order_price, order_side);
    &&& (market_id as int) < pre.markets@.len()
    &&& forall|k: int|
        0 <= k < pre.markets@.len() && k != market_id ==> (#[trigger] post.markets@[k])
            == pre.markets@[k]
    &&& nm.info.base_currency == om.info.base_currency
    &&& nm.info.quote_currency == om.info.quote_currency
    &&& nm.info.market_id == om.info.market_id
    &&& levels_view(nm.side_levels(other_side(order_side))) == walk.levels
    &&& (walk.remaining > 0 ==> opt_order_price is Some && levels_view(nm.side_levels(order_side))
        == insert_level_spec(
        levels_view(om.side_levels(order_side)),
        order_side,
        opt_order_price->0,
        OrderV { user: sender, amount: walk.remaining },
    ) && crate::market_logic::liquidity_provider::insert_ids_ok(
        om.side_levels(order_side),
        nm.side_levels(order_side),
        om.side_top(order_side),
        nm.side_top(order_side),
        om.next_level_id,
        nm.next_level_id,
        order_side,
        opt_order_price->0,
    ))
    &&& (walk.remaining == 0 ==> nm.side_levels(order_side) == om.side_levels(order_side)
        && nm.side_top(order_side) == om.side_top(order_side) && nm.next_level_id
        == om.next_level_id)
    &&& user_orders_view(post.user_orders@) == ({
        let base = if walk.remaining > 0 {
            push_record_spec(
                user_orders_view(pre.user_orders@),
                sender,
                UserOrderRecord {
                    market_id,
                    order_side,
                    price: opt_order_price->0,
                    quantity: walk.remaining,
                },
            )
        } else {
            user_orders_view(pre.user_orders@)
        };
        records_after(base, walk.consumed, market_id, other_side(order_side))
    })
    &&& transfers == maker_transfers(
        walk.consumed,
        order_side,
        side_deposit_currency(om.info, order_side)@,
    ) + seq![
        TransferV {
            amount: settle_sum(walk.consumed, order_side) as u128,
            currency: side_deposit_currency(om.info, other_side(order_side))@,
            recipient: sender,
        },
    ]
}

/// Processes a taker order against the book of `market_id`: walks the
/// opposing side top first, consuming levels while the order's limit (if
/// any) allows, settles every consumed maker, and rests any remainder of a
/// limit order at its limit price, recording it for the taker. A market
/// order that exceeds the opposing liquidity fails with nothing changed, as
/// does a limit order that might need a fresh level while the level
/// allocator is exhausted; every failure leaves the state untouched.
///
/// The returned instructions pay each consumed maker in the currency the
/// taker supplied — price-converted and rounded up when that is the quote
/// currency — and end with one transfer of the opposite currency to the
/// taker.
#[verifier::rlimit(100)]
#[verifier::spinoff_prover]
pub fn process_liquidity_taker(
    state: &mut State,
    sender: String,
    market_id: u64,
    opt_order_price: Option<u128>,
    order_quantity: u128,
    order_side: OrderSide,
) -> (r: Result<Vec<TransferInstruction>, ContractError>)
    requires
        old(state).wf(),
        (market_id as int) < old(state).markets@.len() ==> side_settlement(
            levels_view(
                old(state).markets@[market_id as int].side_levels(other_side(order_side)),
            ),
        ) <= u128::MAX,
    ensures
        final(state).wf(),
        final(state).admin == old(state).admin,
        final(state).markets@.len() == old(state).markets@.len(),
        match r {
            Ok(transfers) => taker_ok(
                *old(state),
                *final(state),
                transfers_view(transfers@),
                sender@,
                market_id,
                opt_order_price,
                order_quantity,
                order_side,
            ),
            Err(e) => ({
                if (market_id as int) >= old(state).markets@.len() {
                    &&& e == (ContractError::UnknownMarketId { id: market_id })
                    &&& final(state).markets@ == old(state).markets@
                    &&& final(state).user_orders == old(state).user_orders
                } else if opt_order_price is None {
                    &&& e == ContractError::NotEnoughLiquidityMarketOrder
                    &&& order_quantity > side_total(
                        levels_view(
                            old(state).markets@[market_id as int].side_levels(
                                other_side(order_side),
                            ),
                        ),
                    )
                    &&& final(state).markets@ == old(state).markets@
                    &&& final(state).user_orders == old(state).user_orders
                } else {
                    &&& e == ContractError::Never
                    &&& old(state).markets@[market_id as int].next_level_id == u64::MAX
                    &&& !has_price(
                        levels_view(
                            old(state).markets@[market_id as int].side_levels(order_side),
                        ),
                        opt_order_price->0,
                    )
                    &&& final(state).markets@ == old(state).markets@
                    &&& final(state).user_orders == old(state).user_orders
                }
            }),
        },
        opt_order_price is None && (market_id as int) < old(state).markets@.len() ==> (r is Err
            <==> order_quantity > side_total(
            levels_view(
                old(state).markets@[market_id as int].side_levels(other_side(order_side)),
            ),
        )),
{
    if market_id >= state.markets.len() as u64 {
        return Err(ContractError::UnknownMarketId { id: market_id });
    }
    let idx = market_id as usize;
    let ghost om = state.markets@[idx as int];
    let ghost v = levels_view(om.side_levels(other_side(order_side)));
    let ghost walk = consume_walk_spec(v, order_quantity, opt_order_price, order_side);

    // A market order is checked against the side's whole liquidity first, so
    // that failure leaves nothing changed.
    if opt_order_price.is_none() {
        let enough = match order_side {
            OrderSide::Buy => side_holds_at_least(&state.markets[idx].asks, order_quantity),
            OrderSide::Sell => side_holds_at_least(&state.markets[idx].bids, order_quantity),
        };
        proof {
            lemma_market_walk(v, order_quantity, order_side);
        }
        if !enough {
            return Err(ContractError::NotEnoughLiquidityMarketOrder);
        }
    }

    // A limit order might have to rest a remainder on a fresh level; when
    // the allocator is exhausted and no level rests at the limit price, it
    // is refused up front, so failure leaves nothing changed.
    match opt_order_price {
        Some(limit_price) => {
            if state.markets[idx].next_level_id == u64::MAX {
                let own_level = match order_side {
                    OrderSide::Buy => find_price_index(&state.markets[idx].bids, limit_price),
                    OrderSide::Sell => find_price_index(&state.markets[idx].asks, limit_price),
                };
                match own_level {
                    None => {
                        return Err(ContractError::Never);
                    },
                    Some(oi) => {
                        proof {
                            let ov0 = levels_view(
                                state.markets@[idx as int].side_levels(order_side),
                            );
                            assert(ov0[oi as int].price == limit_price);
                            assert(has_price(ov0, limit_price));
                        }
                    },
                }
            }
        },
        None => {},
    }

    let ghost ms0 = state.markets@;
    let ghost e0 = user_orders_view(state.user_orders@);
    let mut m = state.markets.remove(idx);
    let ghost bound0 = m.next_level_id;
    let mut consumed: Vec<ConsumedOrdersLevel> = Vec::new();

    let remaining = match order_side {
        OrderSide::Buy => consume_walk(
            &mut m.asks,
            &mut m.info.top_level_ask,
            &mut consumed,
            order_quantity,
            opt_order_price,
            order_side,
            Ghost(bound0),
        ),
        OrderSide::Sell => consume_walk(
            &mut m.bids,
            &mut m.info.top_level_bid,
            &mut consumed,
            order_quantity,
            opt_order_price,
            order_side,
            Ghost(bound0),
        ),
    };
    proof {
        assert(consumed_view(Seq::<ConsumedOrdersLevel>::empty()) + walk.consumed
            =~= walk.consumed);
        assert(consumed_view(consumed@) == walk.consumed);
        lemma_walk_bounds(v, order_quantity, opt_order_price, order_side);
    }

    // A limit order's remainder rests at its limit price, recorded for the
    // taker; market orders cannot reach this point with a remainder.
    if remaining > 0 {
        let price = match opt_order_price {
            Some(p) => p,
            None => {
                proof {
                    lemma_market_walk(v, order_quantity, order_side);
                }
                0  // unreachable: the liquidity check covered market orders
            },
        };
        let rslt = match order_side {
            OrderSide::Buy => insert_into_side(
                &mut m.bids,
                &mut m.info.top_level_bid,
                &mut m.next_level_id,
                order_side,
                price,
                sender.clone(),
                remaining,
            ),
            OrderSide::Sell => insert_into_side(
                &mut m.asks,
                &mut m.info.top_level_ask,
                &mut m.next_level_id,
                order_side,
                price,
                sender.clone(),
                remaining,
            ),
        };
        match rslt {
            Ok(()) => {},
            Err(e) => {
                proof {
                    // The allocator check above rules this out: either the
                    // allocator has room, or a level already rests at the
                    // limit price and absorbs the remainder.
                    let own = om.side_levels(order_side);
                    let ov = levels_view(own);
                    if has_price(ov, price) {
                        assert(forall|i: int, j: int|
                            0 <= i < j < ov.len() ==> price_closer_to_mid(
                                order_side,
                                (#[trigger] ov[i]).price,
                                (#[trigger] ov[j]).price,
                            )) by {
                            assert(forall|i: int|
                                0 <= i < ov.len() ==> (#[trigger] ov[i]).price
                                    == own[i].data.price);
                        }
                        lemma_insert_pos_finds_price(ov, order_side, price);
                    }
                    assert(false);
                }
                state.markets.insert(idx, m);
                proof {
                    assert(state.markets@ =~= ms0.update(idx as int, m));
                }
                return Err(e);
            },
        }
        push_user_record(
            &mut state.user_orders,
            &sender,
            UserOrderRecord { market_id, order_side, price, quantity: remaining },
        );
    }

    // Settle what the walk consumed.
    proof {
        lemma_settle_dominated(v, walk.consumed);
        assert forall|k: int| 0 <= k < consumed@.len() implies orders_total(
            (#[trigger] consumed@[k])@.orders,
        ) <= u128::MAX by {
            assert(consumed@[k]@ == walk.consumed[k]);
            lemma_settle_sum_buy_component(walk.consumed, k);
        }
        assert forall|k: int| 0 <= k < consumed@.len() implies ceil_mul_int(
            orders_total((#[trigger] consumed@[k])@.orders),
            consumed@[k]@.price,
        ) <= u128::MAX by {
            assert(consumed@[k]@ == walk.consumed[k]);
        }
    }
    let maker_currency = m.info.get_currency_info_from_side(order_side);
    let taker_currency = match order_side {
        OrderSide::Buy => m.info.get_currency_info_from_side(OrderSide::Sell),
        OrderSide::Sell => m.info.get_currency_info_from_side(OrderSide::Buy),
    };
    let mut transfers: Vec<TransferInstruction> = Vec::new();
    proof {
        assert(transfers_view(transfers@) =~= Seq::<TransferV>::empty());
    }
    let taker_amount = settle_consumed(
        &consumed,
        &mut state.user_orders,
        &mut transfers,
        market_id,
        match order_side {
            OrderSide::Buy => OrderSide::Sell,
            OrderSide::Sell => OrderSide::Buy,
        },
        order_side,
        &maker_currency,
    );
    let ghost pre_final_t = transfers@;
    transfers.push(
        TransferInstruction { amount: taker_amount, currency: taker_currency, recipient: sender },
    );
    proof {
        assert(transfers_view(transfers@) =~= transfers_view(pre_final_t).push(
            transfers@.last()@,
        ));
        assert(Seq::<TransferV>::empty() + maker_transfers(
            walk.consumed,
            order_side,
            side_deposit_currency(om.info, order_side)@,
        ) =~= maker_transfers(walk.consumed, order_side, side_deposit_currency(om.info, order_side)@));
        assert(transfers_view(transfers@) =~= maker_transfers(
            walk.consumed,
            order_side,
            side_deposit_currency(om.info, order_side)@,
        ) + seq![
            TransferV {
                amount: settle_sum(walk.consumed, order_side) as u128,
                currency: side_deposit_currency(om.info, other_side(order_side))@,
                recipient: sender@,
            },
        ]);
        if m.side_levels(order_side) == om.side_levels(order_side) {
            assert forall|i: int|
                0 <= i < m.side_levels(order_side).len() implies has_level(
                om.side_levels(order_side),
                (#[trigger] m.side_levels(order_side)[i]).id,
            ) || m.side_levels(order_side)[i].id == bound0 by {
                lemma_has_level_at(om.side_levels(order_side), i);
            }
        }
        lemma_market_wf_reassemble(m, om, bound0, order_side, v, walk);
    }
    state.markets.insert(idx, m);
    proof {
        assert(state.markets@ =~= ms0.update(idx as int, m));
    }
    Ok(transfers)
}

/// A market whose opposing side a walk trimmed, and whose own side at most
/// took one resting remainder, is still well formed.
proof fn lemma_market_wf_reassemble(
    m: crate::state::Market,
    om: crate::state::Market,
    bound0: u64,
    order_side: OrderSide,
    v: Seq<LevelV>,
    walk: WalkSpecOut,
)
    requires
        om.wf(),
        bound0 == om.next_level_id,
        m.next_level_id >= bound0,
        m.info.market_id == om.info.market_id,
        wf_side(
            m.side_levels(other_side(order_side)),
            m.side_top(other_side(order_side)),
            bound0,
            other_side(order_side),
        ),
        forall|i: int|
            0 <= i < m.side_levels(other_side(order_side)).len() ==> has_level(
                om.side_levels(other_side(order_side)),
                (#[trigger] m.side_levels(other_side(order_side))[i]).id,
            ),
        wf_side(
            m.side_levels(order_side),
            m.side_top(order_side),
            m.next_level_id,
            order_side,
        ),
        forall|i: int|
            0 <= i < m.side_levels(order_side).len() ==> has_level(
                om.side_levels(order_side),
                (#[trigger] m.side_levels(order_side)[i]).id,
            ) || m.side_levels(order_side)[i].id == bound0,
    ensures
        m.wf(),
{
    let own = m.side_levels(order_side);
    let opp = m.side_levels(other_side(order_side));
    let o_own = om.side_levels(order_side);
    let o_opp = om.side_levels(other_side(order_side));
    assert(wf_side(opp, m.side_top(other_side(order_side)), m.next_level_id, other_side(order_side)))
        by {
        assert(forall|i: int| 0 <= i < opp.len() ==> (#[trigger] opp[i]).id < m.next_level_id);
    }
    assert forall|i: int, j: int|
        0 <= i < own.len() && 0 <= j < opp.len() implies (#[trigger] own[i]).id != (
    #[trigger] opp[j]).id by {
        assert(has_level(o_opp, opp[j].id));
        let jo = choose|k: int| 0 <= k < o_opp.len() && o_opp[k].id == opp[j].id;
        assert(o_opp[jo].id < bound0);
        if has_level(o_own, own[i].id) {
            let io = choose|k: int| 0 <= k < o_own.len() && o_own[k].id == own[i].id;
            match order_side {
                OrderSide::Buy => {
                    assert(om.bids@[io].id != om.asks@[jo].id);
                },
                OrderSide::Sell => {
                    assert(om.asks@[io].id != om.bids@[jo].id);
                },
            }
        } else {
            assert(own[i].id == bound0);
        }
    }
    match order_side {
        OrderSide::Buy => {},
        OrderSide::Sell => {},
    }
}

} // verus!
