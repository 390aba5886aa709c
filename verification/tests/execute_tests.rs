use selene_markets::contract_admin_execute::route_admin_execute;
use selene_markets::contract_execute::route_execute;
use selene_markets::contract_query::{get_market_book, get_user_asks, get_user_bids, get_user_orders};
use selene_markets::msg::{AdminExecuteMsg, ExecuteMsg};
use selene_markets::state::State;
use selene_markets::structs::{CoinData, CurrencyInfo, OrderSide, TransferInstruction};
use selene_markets::ContractError;
use selene_markets::DECIMAL_FRACTIONAL;

const ONE: u128 = DECIMAL_FRACTIONAL;
const NATIVE_DENOM_1: &str = "heur";
const NATIVE_DENOM_2: &str = "husd";
const TEST_USER_1: &str = "user1";
const TEST_USER_2: &str = "user2";

/// A fresh engine with one market: base `heur`, quote `husd`.
fn instantiate_selene() -> State {
    let mut state = State::new("admin".to_string());
    route_admin_execute(
        &mut state,
        &"admin".to_string(),
        AdminExecuteMsg::AddMarket {
            base_currency: CurrencyInfo::Native { denom: NATIVE_DENOM_1.into() },
            quote_currency: CurrencyInfo::Native { denom: NATIVE_DENOM_2.into() },
        },
    )
    .unwrap();
    state
}

fn coin(denom: &str, amount: u128) -> Vec<CoinData> {
    vec![CoinData { denom: denom.to_string(), amount }]
}

#[test]
fn only_natives_set_limit_order_bid() {
    let mut state = instantiate_selene();

    // deposit the quote currency: a buy order
    let funds = coin(NATIVE_DENOM_2, 10000);
    route_execute(
        &mut state,
        TEST_USER_1.to_string(),
        &funds,
        ExecuteMsg::LimitOrder { market_id: 0, price: ONE },
    )
    .unwrap();

    let res = get_user_bids(&state, &TEST_USER_1.to_string(), Some(0));
    assert_eq!(res.orders.len(), 1);

    let res = get_user_asks(&state, &TEST_USER_1.to_string(), Some(0));
    assert_eq!(res.orders.len(), 0);
}

#[test]
fn only_natives_update_limit_order_bid() {
    let mut state = instantiate_selene();

    let funds = coin(NATIVE_DENOM_2, 10000);
    route_execute(
        &mut state,
        TEST_USER_1.to_string(),
        &funds,
        ExecuteMsg::LimitOrder { market_id: 0, price: ONE },
    )
    .unwrap();

    let res = get_user_bids(&state, &TEST_USER_1.to_string(), Some(0));
    assert_eq!(res.orders.len(), 1);

    // send the order again: it aggregates into the same record
    route_execute(
        &mut state,
        TEST_USER_1.to_string(),
        &funds,
        ExecuteMsg::LimitOrder { market_id: 0, price: ONE },
    )
    .unwrap();

    let res_after_update = get_user_bids(&state, &TEST_USER_1.to_string(), Some(0));
    assert_eq!(res_after_update.orders.len(), 1);
    assert_eq!(res_after_update.orders[0].quantity, 20000u128);
}

#[test]
fn only_natives_set_limit_order_ask() {
    let mut state = instantiate_selene();

    // deposit the base currency: a sell order
    let funds = coin(NATIVE_DENOM_1, 10000);
    route_execute(
        &mut state,
        TEST_USER_1.to_string(),
        &funds,
        ExecuteMsg::LimitOrder { market_id: 0, price: ONE },
    )
    .unwrap();

    let res = get_user_bids(&state, &TEST_USER_1.to_string(), Some(0));
    assert_eq!(res.orders.len(), 0);

    let res = get_user_asks(&state, &TEST_USER_1.to_string(), Some(0));
    assert_eq!(res.orders.len(), 1);
}

#[test]
fn only_natives_set_limit_order_and_cancel_bid() {
    let mut state = instantiate_selene();

    let funds = coin(NATIVE_DENOM_2, 10000);
    route_execute(
        &mut state,
        TEST_USER_1.to_string(),
        &funds,
        ExecuteMsg::LimitOrder { market_id: 0, price: ONE },
    )
    .unwrap();

    let res = get_user_bids(&state, &TEST_USER_1.to_string(), Some(0));
    assert_eq!(res.orders.len(), 1);
    let res = get_user_asks(&state, &TEST_USER_1.to_string(), Some(0));
    assert_eq!(res.orders.len(), 0);

    let book = get_market_book(&state, 0, 10).unwrap();
    assert_eq!(book.bids.len(), 1);
    assert_eq!(book.asks.len(), 0);

    // cancel the order
    let transfers = route_execute(
        &mut state,
        TEST_USER_1.to_string(),
        &Vec::new(),
        ExecuteMsg::RemoveLimitOrder { market_id: 0, price: ONE },
    )
    .unwrap();

    let res = get_user_bids(&state, &TEST_USER_1.to_string(), Some(0));
    assert_eq!(res.orders.len(), 0);
    let res = get_user_asks(&state, &TEST_USER_1.to_string(), Some(0));
    assert_eq!(res.orders.len(), 0);

    let book = get_market_book(&state, 0, 10).unwrap();
    assert_eq!(book.bids.len(), 0);
    assert_eq!(book.asks.len(), 0);

    // the full deposit comes back
    assert_eq!(
        transfers,
        vec![TransferInstruction {
            amount: 10000,
            currency: CurrencyInfo::Native { denom: NATIVE_DENOM_2.into() },
            recipient: TEST_USER_1.to_string(),
        }]
    );
}

#[test]
fn native_limit_taker() {
    let mut state = instantiate_selene();

    // a bid of 10000 quote at price one
    let funds = coin(NATIVE_DENOM_2, 10000);
    route_execute(
        &mut state,
        TEST_USER_1.to_string(),
        &funds,
        ExecuteMsg::LimitOrder { market_id: 0, price: ONE },
    )
    .unwrap();

    // a matching sell of 10000 base at the same price
    let funds = coin(NATIVE_DENOM_1, 10000);
    let transfers = route_execute(
        &mut state,
        TEST_USER_2.to_string(),
        &funds,
        ExecuteMsg::LimitOrder { market_id: 0, price: ONE },
    )
    .unwrap();

    // the resting maker receives the whole base deposit
    assert_eq!(
        transfers[0],
        TransferInstruction {
            amount: 10000,
            currency: CurrencyInfo::Native { denom: NATIVE_DENOM_1.into() },
            recipient: TEST_USER_1.to_string(),
        }
    );
}

#[test]
fn native_limit_taker_not_price_one() {
    let mut state = instantiate_selene();

    let half = ONE / 2;
    let funds = coin(NATIVE_DENOM_2, 10000);
    route_execute(
        &mut state,
        TEST_USER_1.to_string(),
        &funds,
        ExecuteMsg::LimitOrder { market_id: 0, price: half },
    )
    .unwrap();

    let funds = coin(NATIVE_DENOM_1, 10000);
    let transfers = route_execute(
        &mut state,
        TEST_USER_2.to_string(),
        &funds,
        ExecuteMsg::LimitOrder { market_id: 0, price: half },
    )
    .unwrap();

    // the maker is owed the base currency
    assert!(transfers[0].amount != 0);
    assert_eq!(transfers[0].recipient, TEST_USER_1.to_string());
    assert_eq!(transfers[0].currency, CurrencyInfo::Native { denom: NATIVE_DENOM_1.into() });
}

#[test]
fn queries_set_bid_and_ask_is_in_book() {
    let mut state = instantiate_selene();

    // a bid at one and an ask above it
    let funds = coin(NATIVE_DENOM_2, 10000);
    route_execute(
        &mut state,
        TEST_USER_1.to_string(),
        &funds,
        ExecuteMsg::LimitOrder { market_id: 0, price: ONE },
    )
    .unwrap();

    let funds = coin(NATIVE_DENOM_1, 10000);
    route_execute(
        &mut state,
        TEST_USER_1.to_string(),
        &funds,
        ExecuteMsg::LimitOrder { market_id: 0, price: 2 * ONE },
    )
    .unwrap();

    let book = get_market_book(&state, 0, 10).unwrap();
    assert_eq!(book.bids.len(), 1);
    assert_eq!(book.asks.len(), 1);
    assert_eq!(book.bids[0].quantity, 10000);
    assert_eq!(book.asks[0].quantity, 10000);
}

#[test]
fn only_native_limit_taker() {
    let mut state = instantiate_selene();

    // a buy order of 10000 quote at price 50
    let order_price = 50 * ONE;
    let funds = coin(NATIVE_DENOM_2, 10000);
    route_execute(
        &mut state,
        TEST_USER_1.to_string(),
        &funds,
        ExecuteMsg::LimitOrder { market_id: 0, price: order_price },
    )
    .unwrap();

    let book = get_market_book(&state, 0, 10).unwrap();
    assert_eq!(book.bids.len(), 1);

    // a matching sell of 10000 base
    let funds = coin(NATIVE_DENOM_1, 10000);
    let transfers = route_execute(
        &mut state,
        TEST_USER_2.to_string(),
        &funds,
        ExecuteMsg::LimitOrder { market_id: 0, price: order_price },
    )
    .unwrap();

    // the maker receives base, the taker quote
    assert!(transfers.iter().any(|t| t.recipient == TEST_USER_1.to_string() && t.amount != 0));
    assert!(transfers.last().unwrap().recipient == TEST_USER_2.to_string());
}

#[test]
fn only_native_limit_big_order() {
    let mut state = instantiate_selene();

    // a buy order of 10000 quote at price 50
    let order_price = 50 * ONE;
    let funds = coin(NATIVE_DENOM_2, 10000);
    route_execute(
        &mut state,
        TEST_USER_1.to_string(),
        &funds,
        ExecuteMsg::LimitOrder { market_id: 0, price: order_price },
    )
    .unwrap();

    // a sell far larger than the book
    let funds = coin(NATIVE_DENOM_1, 100000000);
    route_execute(
        &mut state,
        TEST_USER_2.to_string(),
        &funds,
        ExecuteMsg::LimitOrder { market_id: 0, price: order_price },
    )
    .unwrap();

    // the bid was consumed and the remainder rests as an ask
    let book = get_market_book(&state, 0, 10).unwrap();
    assert_eq!(book.bids.len(), 0);
    assert_eq!(book.asks.len(), 1);

    let res = get_user_orders(&state, &TEST_USER_2.to_string(), Some(0));
    assert_eq!(res.orders.len(), 1);
    assert_eq!(res.orders[0].order_side, OrderSide::Sell);

    let res = get_user_orders(&state, &TEST_USER_1.to_string(), Some(0));
    assert_eq!(res.orders.len(), 0);
}

#[test]
fn only_native_limit_check_cashback() {
    let mut state = instantiate_selene();

    let order_price = 50 * ONE;
    let funds = coin(NATIVE_DENOM_2, 10000);
    route_execute(
        &mut state,
        TEST_USER_1.to_string(),
        &funds,
        ExecuteMsg::LimitOrder { market_id: 0, price: order_price },
    )
    .unwrap();

    let funds = coin(NATIVE_DENOM_1, 100000000);
    let transfers = route_execute(
        &mut state,
        TEST_USER_2.to_string(),
        &funds,
        ExecuteMsg::LimitOrder { market_id: 0, price: order_price },
    )
    .unwrap();

    let book = get_market_book(&state, 0, 10).unwrap();
    assert_eq!(book.bids.len(), 0);
    assert_eq!(book.asks.len(), 1);

    let res = get_user_orders(&state, &TEST_USER_2.to_string(), Some(0));
    assert_eq!(res.orders.len(), 1);
    assert_eq!(res.orders[0].order_side, OrderSide::Sell);

    let res = get_user_orders(&state, &TEST_USER_1.to_string(), Some(0));
    assert_eq!(res.orders.len(), 0);

    // the consumed maker gets the base, the taker the price-converted quote
    assert_eq!(
        transfers,
        vec![
            TransferInstruction {
                amount: 10000,
                currency: CurrencyInfo::Native { denom: NATIVE_DENOM_1.into() },
                recipient: TEST_USER_1.to_string(),
            },
            TransferInstruction {
                amount: 500000,
                currency: CurrencyInfo::Native { denom: NATIVE_DENOM_2.into() },
                recipient: TEST_USER_2.to_string(),
            },
        ]
    );
}

#[test]
fn only_native_replication() {
    let mut state = instantiate_selene();

    // a bid at 150
    let bid_order_price = 150 * ONE;
    let funds = coin(NATIVE_DENOM_2, 10000);
    route_execute(
        &mut state,
        TEST_USER_1.to_string(),
        &funds,
        ExecuteMsg::LimitOrder { market_id: 0, price: bid_order_price },
    )
    .unwrap();

    // an ask below it, consuming the bid
    let ask_order_price = 50 * ONE;
    let funds = coin(NATIVE_DENOM_1, 10000);
    route_execute(
        &mut state,
        TEST_USER_1.to_string(),
        &funds,
        ExecuteMsg::LimitOrder { market_id: 0, price: ask_order_price },
    )
    .unwrap();

    // a further sell at the bid price against the emptied book
    let funds = coin(NATIVE_DENOM_1, 10000);
    route_execute(
        &mut state,
        TEST_USER_2.to_string(),
        &funds,
        ExecuteMsg::LimitOrder { market_id: 0, price: bid_order_price },
    )
    .unwrap();

    let book = get_market_book(&state, 0, 10).unwrap();
    assert_eq!(book.bids.len(), 0);
}

#[test]
fn native_market() {
    let mut state = instantiate_selene();

    // a bid at 150
    let bid_order_price = 150 * ONE;
    let funds = coin(NATIVE_DENOM_2, 10000);
    route_execute(
        &mut state,
        TEST_USER_1.to_string(),
        &funds,
        ExecuteMsg::LimitOrder { market_id: 0, price: bid_order_price },
    )
    .unwrap();

    // a market sell of 10 base against it
    let funds = coin(NATIVE_DENOM_1, 10);
    route_execute(
        &mut state,
        TEST_USER_1.to_string(),
        &funds,
        ExecuteMsg::MarketOrder { market_id: 0 },
    )
    .unwrap();

    let book = get_market_book(&state, 0, 10).unwrap();
    assert_eq!(book.bids.len(), 1);
    assert_eq!(book.bids[0].quantity, 9990);
}

/// Scenario: one ask of 100 at price one by one maker; a market buy of 100
/// empties the ask side, clears the maker's order list, and emits a
/// settlement transfer to the maker.
#[test]
fn market_buy_exactly_empties_ask_side() {
    let mut state = instantiate_selene();

    let funds = coin(NATIVE_DENOM_1, 100);
    route_execute(
        &mut state,
        TEST_USER_1.to_string(),
        &funds,
        ExecuteMsg::LimitOrder { market_id: 0, price: ONE },
    )
    .unwrap();

    let funds = coin(NATIVE_DENOM_2, 100);
    let transfers = route_execute(
        &mut state,
        TEST_USER_2.to_string(),
        &funds,
        ExecuteMsg::MarketOrder { market_id: 0 },
    )
    .unwrap();

    let book = get_market_book(&state, 0, 10).unwrap();
    assert_eq!(book.asks.len(), 0);
    assert!(state.markets[0].info.top_level_ask.is_none());

    let res = get_user_orders(&state, &TEST_USER_1.to_string(), Some(0));
    assert_eq!(res.orders.len(), 0);

    assert!(transfers.iter().any(|t| t.recipient == TEST_USER_1.to_string() && t.amount == 100));
}

/// A market order beyond the opposing liquidity fails and changes nothing.
#[test]
fn market_order_beyond_liquidity_changes_nothing() {
    let mut state = instantiate_selene();

    let funds = coin(NATIVE_DENOM_1, 100);
    route_execute(
        &mut state,
        TEST_USER_1.to_string(),
        &funds,
        ExecuteMsg::LimitOrder { market_id: 0, price: ONE },
    )
    .unwrap();

    let book_before = get_market_book(&state, 0, 10).unwrap();
    let orders_before = get_user_orders(&state, &TEST_USER_1.to_string(), Some(0));

    let funds = coin(NATIVE_DENOM_2, 200);
    let r = route_execute(
        &mut state,
        TEST_USER_2.to_string(),
        &funds,
        ExecuteMsg::MarketOrder { market_id: 0 },
    );
    assert_eq!(r, Err(ContractError::NotEnoughLiquidityMarketOrder));

    let book_after = get_market_book(&state, 0, 10).unwrap();
    assert_eq!(book_after, book_before);
    let orders_after = get_user_orders(&state, &TEST_USER_1.to_string(), Some(0));
    assert_eq!(orders_after.orders, orders_before.orders);
}

/// A limit order crossing several levels consumes them in price order and
/// rests its remainder at the limit price.
#[test]
fn limit_taker_consumes_levels_in_price_order() {
    let mut state = instantiate_selene();

    // two asks: 100 at price one, 100 at price two, and one ask above the
    // limit at price three
    for (price, qty) in [(ONE, 100u128), (2 * ONE, 100), (3 * ONE, 100)] {
        let funds = coin(NATIVE_DENOM_1, qty);
        route_execute(
            &mut state,
            TEST_USER_1.to_string(),
            &funds,
            ExecuteMsg::LimitOrder { market_id: 0, price },
        )
        .unwrap();
    }

    // a buy of 250 limited to price two: consumes both cheaper levels fully
    // and rests 50 at the limit
    let funds = coin(NATIVE_DENOM_2, 250);
    route_execute(
        &mut state,
        TEST_USER_2.to_string(),
        &funds,
        ExecuteMsg::LimitOrder { market_id: 0, price: 2 * ONE },
    )
    .unwrap();

    let book = get_market_book(&state, 0, 10).unwrap();
    assert_eq!(book.asks.len(), 1);
    assert_eq!(book.asks[0].price, 3 * ONE);
    assert_eq!(book.bids.len(), 1);
    assert_eq!(book.bids[0].price, 2 * ONE);
    assert_eq!(book.bids[0].quantity, 50);

    let res = get_user_bids(&state, &TEST_USER_2.to_string(), Some(0));
    assert_eq!(res.orders.len(), 1);
    assert_eq!(res.orders[0].quantity, 50);
}
