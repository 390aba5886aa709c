use selene_markets::contract_admin_execute::add_market;
use selene_markets::market_logic::liquidity_provider::process_limit_maker;
use selene_markets::market_logic::liquidity_remover::remove_order;
use selene_markets::state::State;
use selene_markets::structs::{CurrencyInfo, OrderSide};
use selene_markets::DECIMAL_FRACTIONAL;

fn setup() -> State {
    let mut state = State::new("admin".to_string());
    add_market(
        &mut state,
        CurrencyInfo::Native { denom: "husd".into() },
        CurrencyInfo::Native { denom: "heur".into() },
    )
    .unwrap();
    state
}

#[test]
fn liquidity_remover_liq_remover() {
    let mut state = setup();

    process_limit_maker(
        &mut state,
        "user".to_string(),
        0,
        DECIMAL_FRACTIONAL,
        100,
        OrderSide::Buy,
    )
    .unwrap();

    // check market status
    assert!(state.markets[0].info.top_level_bid.is_some());

    remove_order(&mut state, &"user".to_string(), 0, DECIMAL_FRACTIONAL, 100, OrderSide::Buy)
        .unwrap();

    // check market status, there shouldn't be anything left
    assert!(state.markets[0].info.top_level_bid.is_none());
}

#[test]
fn liquidity_remover_liq_remover_asks() {
    let mut state = setup();

    process_limit_maker(
        &mut state,
        "user".to_string(),
        0,
        DECIMAL_FRACTIONAL,
        100,
        OrderSide::Sell,
    )
    .unwrap();

    // check market status
    assert!(state.markets[0].info.top_level_ask.is_some());

    remove_order(&mut state, &"user".to_string(), 0, DECIMAL_FRACTIONAL, 100, OrderSide::Sell)
        .unwrap();

    // check market status, there shouldn't be anything left
    assert!(state.markets[0].info.top_level_ask.is_none());
}

/// Cancelling one of several orders at a level leaves the level and the
/// other orders intact.
#[test]
fn remover_keeps_other_orders() {
    let mut state = setup();

    process_limit_maker(
        &mut state,
        "user1".to_string(),
        0,
        DECIMAL_FRACTIONAL,
        100,
        OrderSide::Buy,
    )
    .unwrap();
    process_limit_maker(
        &mut state,
        "user2".to_string(),
        0,
        DECIMAL_FRACTIONAL,
        250,
        OrderSide::Buy,
    )
    .unwrap();

    remove_order(&mut state, &"user1".to_string(), 0, DECIMAL_FRACTIONAL, 100, OrderSide::Buy)
        .unwrap();

    let market = &state.markets[0];
    let id_top = market.info.top_level_bid.unwrap();
    let orders = market.level_orders(id_top).unwrap();
    assert_eq!(orders.len(), 1);
    assert_eq!(orders[0].user, "user2".to_string());
    assert_eq!(orders[0].amount, 250);
}
