use selene_markets::contract_admin_execute::add_market;
use selene_markets::market_logic::liquidity_provider::process_limit_maker;
use selene_markets::state::State;
use selene_markets::structs::{CurrencyInfo, OrderSide};
use selene_markets::DECIMAL_FRACTIONAL;

fn setup() -> State {
    let mut state = State::new("admin".to_string());
    add_market(
        &mut state,
        CurrencyInfo::Native { denom: "husd".into() },
        CurrencyInfo::Native { denom: "heur".into() },
    )
    .unwrap();
    state
}

const ONE: u128 = DECIMAL_FRACTIONAL;

/// test to add a single order in an empty book
#[test]
fn liquidity_provider_liq_provider_new_book_single_order() {
    let mut state = setup();

    process_limit_maker(&mut state, "user".to_string(), 0, ONE, 100, OrderSide::Buy).unwrap();
}

/// test to add a single order in an empty book, then add another one at the same level
#[test]
fn liquidity_provider_liq_provider_new_book_two_orders() {
    let mut state = setup();

    process_limit_maker(&mut state, "user".to_string(), 0, ONE, 100, OrderSide::Buy).unwrap();
    process_limit_maker(&mut state, "user".to_string(), 0, ONE, 100, OrderSide::Buy).unwrap();
}

/// test to add a single bid order in an empty book, then add another one at a different level
/// with higher price first
#[test]
fn liquidity_provider_liq_provider_new_book_two_orders_two_levels_higher_price_first() {
    let mut state = setup();

    let top_price: u128 = 1280 * (ONE / 1000);

    process_limit_maker(&mut state, "user".to_string(), 0, top_price, 100, OrderSide::Buy)
        .unwrap();
    process_limit_maker(&mut state, "user".to_string(), 0, ONE, 100, OrderSide::Buy).unwrap();

    // we need to check what the top level is for bids
    let market = &state.markets[0];
    let id_top_level_bid = market.info.top_level_bid.unwrap();
    let level_info = market.level_data(id_top_level_bid).unwrap();

    assert_eq!(top_price, level_info.price);
}

/// test to add a single bid order in an empty book, then add another one at a different level
/// with lower price first
#[test]
fn liquidity_provider_liq_provider_new_book_two_orders_two_levels_lower_price_first() {
    let mut state = setup();

    let top_price: u128 = 1280 * (ONE / 1000);

    process_limit_maker(&mut state, "user".to_string(), 0, ONE, 100, OrderSide::Buy).unwrap();
    process_limit_maker(&mut state, "user".to_string(), 0, top_price, 100, OrderSide::Buy)
        .unwrap();

    let market = &state.markets[0];
    let id_top_level_bid = market.info.top_level_bid.unwrap();
    let level_info = market.level_data(id_top_level_bid).unwrap();

    assert_eq!(top_price, level_info.price);
}

/// create 3 levels in the market, with the following price order: mid, high, low
#[test]
fn liquidity_provider_liq_provider_new_book_three_levels_mid_high_low() {
    let mut state = setup();

    let top_price: u128 = 1280 * (ONE / 1000);
    let mid_price: u128 = ONE;
    let bottom_price: u128 = 988 * (ONE / 1000);

    process_limit_maker(&mut state, "user".to_string(), 0, mid_price, 100, OrderSide::Buy)
        .unwrap();
    process_limit_maker(&mut state, "user".to_string(), 0, top_price, 100, OrderSide::Buy)
        .unwrap();
    process_limit_maker(&mut state, "user".to_string(), 0, bottom_price, 100, OrderSide::Buy)
        .unwrap();

    let market = &state.markets[0];
    let id_top_level_bid = market.info.top_level_bid.unwrap();
    let top_level_info = market.level_data(id_top_level_bid).unwrap();
    assert_eq!(top_level_info.price, top_price);
    assert!(top_level_info.id_previous.is_none());

    let id_mid_level_bid = top_level_info.id_next.unwrap();
    let mid_level_info = market.level_data(id_mid_level_bid).unwrap();
    assert_eq!(mid_level_info.price, mid_price);
    assert_eq!(mid_level_info.id_previous.unwrap(), id_top_level_bid);

    let id_bottom_level_bid = mid_level_info.id_next.unwrap();
    let bottom_level_info = market.level_data(id_bottom_level_bid).unwrap();
    assert_eq!(bottom_level_info.price, bottom_price);
    assert_eq!(bottom_level_info.id_previous.unwrap(), id_mid_level_bid);
    assert!(bottom_level_info.id_next.is_none());
}

/// same as the bid cases, this time with sell orders
#[test]
fn liquidity_provider_liq_provider_new_book_single_order_asks() {
    let mut state = setup();

    process_limit_maker(&mut state, "user".to_string(), 0, ONE, 100, OrderSide::Sell).unwrap();
}

#[test]
fn liquidity_provider_liq_provider_new_book_two_orders_asks() {
    let mut state = setup();

    process_limit_maker(&mut state, "user".to_string(), 0, ONE, 100, OrderSide::Sell).unwrap();
    process_limit_maker(&mut state, "user".to_string(), 0, ONE, 100, OrderSide::Sell).unwrap();
}

#[test]
fn liquidity_provider_liq_provider_new_book_two_orders_two_levels_higher_price_first_asks() {
    let mut state = setup();

    let top_price: u128 = 888 * (ONE / 1000);

    process_limit_maker(&mut state, "user".to_string(), 0, top_price, 100, OrderSide::Sell)
        .unwrap();
    process_limit_maker(&mut state, "user".to_string(), 0, ONE, 100, OrderSide::Sell).unwrap();

    let market = &state.markets[0];
    let id_top_level_ask = market.info.top_level_ask.unwrap();
    let level_info = market.level_data(id_top_level_ask).unwrap();

    assert_eq!(top_price, level_info.price);
}

#[test]
fn liquidity_provider_liq_provider_new_book_two_orders_two_levels_lower_price_first_asks() {
    let mut state = setup();

    let top_price: u128 = 888 * (ONE / 1000);

    process_limit_maker(&mut state, "user".to_string(), 0, ONE, 100, OrderSide::Sell).unwrap();
    process_limit_maker(&mut state, "user".to_string(), 0, top_price, 100, OrderSide::Sell)
        .unwrap();

    let market = &state.markets[0];
    let id_top_level_ask = market.info.top_level_ask.unwrap();
    let level_info = market.level_data(id_top_level_ask).unwrap();

    assert_eq!(top_price, level_info.price);
}

/// asks ordered away from the midprice: lowest price is the top
#[test]
fn liquidity_provider_liq_provider_new_book_three_levels_mid_high_low_asks() {
    let mut state = setup();

    let bottom_price: u128 = 1280 * (ONE / 1000);
    let mid_price: u128 = ONE;
    let top_price: u128 = 988 * (ONE / 1000);

    process_limit_maker(&mut state, "user".to_string(), 0, mid_price, 100, OrderSide::Sell)
        .unwrap();
    process_limit_maker(&mut state, "user".to_string(), 0, top_price, 100, OrderSide::Sell)
        .unwrap();
    process_limit_maker(&mut state, "user".to_string(), 0, bottom_price, 100, OrderSide::Sell)
        .unwrap();

    let market = &state.markets[0];
    let id_top_level_ask = market.info.top_level_ask.unwrap();
    let top_level_info = market.level_data(id_top_level_ask).unwrap();
    assert_eq!(top_level_info.price, top_price);
    assert!(top_level_info.id_previous.is_none());

    let id_mid_level_ask = top_level_info.id_next.unwrap();
    let mid_level_info = market.level_data(id_mid_level_ask).unwrap();
    assert_eq!(mid_level_info.price, mid_price);
    assert_eq!(mid_level_info.id_previous.unwrap(), id_top_level_ask);

    let id_bottom_level_ask = mid_level_info.id_next.unwrap();
    let bottom_level_info = market.level_data(id_bottom_level_ask).unwrap();
    assert_eq!(bottom_level_info.price, bottom_price);
    assert_eq!(bottom_level_info.id_previous.unwrap(), id_mid_level_ask);
    assert!(bottom_level_info.id_next.is_none());
}

/// Scenario: insert bid 1.280 then bid 1.000; the top bid is 1.280, its
/// `next` is 1.000, whose `previous` is 1.280 and whose `next` is absent.
#[test]
fn provider_bid_chain_pointers() {
    let mut state = setup();

    let high: u128 = 1280 * (ONE / 1000);
    let low: u128 = ONE;

    process_limit_maker(&mut state, "user".to_string(), 0, high, 100, OrderSide::Buy).unwrap();
    process_limit_maker(&mut state, "user".to_string(), 0, low, 100, OrderSide::Buy).unwrap();

    let market = &state.markets[0];
    let id_top = market.info.top_level_bid.unwrap();
    let top = market.level_data(id_top).unwrap();
    assert_eq!(top.price, high);
    assert!(top.id_previous.is_none());

    let id_low = top.id_next.unwrap();
    let low_level = market.level_data(id_low).unwrap();
    assert_eq!(low_level.price, low);
    assert_eq!(low_level.id_previous.unwrap(), id_top);
    assert!(low_level.id_next.is_none());
}
