use selene_markets::contract_admin_execute::add_market;
use selene_markets::market_logic::liquidity_provider::process_limit_maker;
use selene_markets::state::State;
use selene_markets::state_utils::remove_level;
use selene_markets::structs::{CurrencyInfo, OrderSide};
use selene_markets::DECIMAL_FRACTIONAL;

const ONE: u128 = DECIMAL_FRACTIONAL;

fn setup() -> State {
    let mut state = State::new("admin".to_string());
    add_market(
        &mut state,
        CurrencyInfo::Native { denom: "husd".into() },
        CurrencyInfo::Native { denom: "heur".into() },
    )
    .unwrap();
    state
}

fn bid(state: &mut State, price: u128) {
    process_limit_maker(state, "user".to_string(), 0, price, 100, OrderSide::Buy).unwrap();
}

/// Create a market with a single level then remove level
/// should be no level anymore in market info
#[test]
fn test_utils_remove_single_level() {
    let mut state = setup();
    bid(&mut state, ONE);

    // remove level
    let level_id = state.markets[0].info.top_level_bid.unwrap();
    remove_level(&mut state, 0, level_id).unwrap();

    // check resulting, there should be no more orders and no more bids in book
    let market = &state.markets[0];
    assert!(market.info.top_level_bid.is_none());
    assert!(market.level_data(level_id).is_none());
    assert!(market.level_orders(level_id).is_none());
}

/// Create a market with a two level then remove top level
/// top level should be deleted and top id should have been updated
#[test]
fn test_utils_remove_two_levels_remove_top() {
    let mut state = setup();
    bid(&mut state, ONE);
    let top_price = 1128 * (ONE / 1000);
    bid(&mut state, top_price);

    // remove top level
    let level_id = state.markets[0].info.top_level_bid.unwrap();
    remove_level(&mut state, 0, level_id).unwrap();

    // check resulting, top id should have changed and records of top level should have been removed
    let market = &state.markets[0];
    assert_ne!(market.info.top_level_bid.unwrap(), level_id);
    assert!(market.level_data(level_id).is_none());
    assert!(market.level_orders(level_id).is_none());

    // check that there are no dangling connections for level data
    let level_data = market.level_data(market.info.top_level_bid.unwrap()).unwrap();
    assert!(level_data.id_next.is_none());
    assert!(level_data.id_previous.is_none());
}

/// Create a market with a two level then remove bottom level
/// bottom level should be deleted and top id should not have been updated
#[test]
fn test_utils_remove_two_levels_remove_bottom() {
    let mut state = setup();
    bid(&mut state, ONE);
    let top_price = 1128 * (ONE / 1000);
    bid(&mut state, top_price);

    let top_level_id = state.markets[0].info.top_level_bid.unwrap();
    let level_id = state.markets[0].level_data(top_level_id).unwrap().id_next.unwrap();

    // remove bottom level
    remove_level(&mut state, 0, level_id).unwrap();

    // check resulting, top id should not have changed and records of bottom level removed
    let market = &state.markets[0];
    assert_eq!(market.info.top_level_bid.unwrap(), top_level_id);
    assert!(market.level_data(level_id).is_none());
    assert!(market.level_orders(level_id).is_none());

    // check that there are no dangling connections for level data
    let level_data = market.level_data(top_level_id).unwrap();
    assert!(level_data.id_next.is_none());
    assert!(level_data.id_previous.is_none());
}

/// Create a market with a three levels then remove top level
/// top level should be deleted and top id should have been updated
/// connections for the following level should have been modified
#[test]
fn test_utils_remove_three_levels_remove_top() {
    let mut state = setup();
    let middle_price = ONE;
    bid(&mut state, middle_price);
    let top_price = 1128 * (ONE / 1000);
    bid(&mut state, top_price);
    let bottom_price = 976 * (ONE / 1000);
    bid(&mut state, bottom_price);

    let market = &state.markets[0];
    let top_level_id = market.info.top_level_bid.unwrap();
    let middle_level_id = market.level_data(top_level_id).unwrap().id_next.unwrap();
    let bottom_level_id = market.level_data(middle_level_id).unwrap().id_next.unwrap();

    // remove top level
    remove_level(&mut state, 0, top_level_id).unwrap();

    let market = &state.markets[0];
    assert_eq!(market.info.top_level_bid.unwrap(), middle_level_id);
    assert!(market.level_data(top_level_id).is_none());
    assert!(market.level_orders(top_level_id).is_none());
    assert!(market.level_data(middle_level_id).is_some());
    assert!(market.level_orders(middle_level_id).is_some());
    assert!(market.level_data(bottom_level_id).is_some());
    assert!(market.level_orders(bottom_level_id).is_some());

    // check that there are no dangling connections for level data
    let middle_level_data = market.level_data(middle_level_id).unwrap();
    assert_eq!(middle_level_data.id_next.unwrap(), bottom_level_id);
    assert!(middle_level_data.id_previous.is_none());

    let bottom_level_data = market.level_data(bottom_level_id).unwrap();
    assert!(bottom_level_data.id_next.is_none());
    assert_eq!(bottom_level_data.id_previous.unwrap(), middle_level_id);
}

/// Create a market with a three levels then remove middle level
/// middle level should be deleted and top id should not have been updated
/// connections for the top and bottom level should have been modified
#[test]
fn test_utils_remove_three_levels_remove_middle() {
    let mut state = setup();
    let middle_price = ONE;
    bid(&mut state, middle_price);
    let top_price = 1128 * (ONE / 1000);
    bid(&mut state, top_price);
    let bottom_price = 976 * (ONE / 1000);
    bid(&mut state, bottom_price);

    let market = &state.markets[0];
    let top_level_id = market.info.top_level_bid.unwrap();
    let middle_level_id = market.level_data(top_level_id).unwrap().id_next.unwrap();
    let bottom_level_id = market.level_data(middle_level_id).unwrap().id_next.unwrap();

    // remove middle level
    remove_level(&mut state, 0, middle_level_id).unwrap();

    let market = &state.markets[0];
    assert_eq!(market.info.top_level_bid.unwrap(), top_level_id);
    assert!(market.level_data(top_level_id).is_some());
    assert!(market.level_orders(top_level_id).is_some());
    assert!(market.level_data(middle_level_id).is_none());
    assert!(market.level_orders(middle_level_id).is_none());
    assert!(market.level_data(bottom_level_id).is_some());
    assert!(market.level_orders(bottom_level_id).is_some());

    // check that there are no dangling connections for level data
    let top_level_data = market.level_data(top_level_id).unwrap();
    assert_eq!(top_level_data.id_next.unwrap(), bottom_level_id);
    assert!(top_level_data.id_previous.is_none());

    let bottom_level_data = market.level_data(bottom_level_id).unwrap();
    assert!(bottom_level_data.id_next.is_none());
    assert_eq!(bottom_level_data.id_previous.unwrap(), top_level_id);
}

/// Create a market with a three levels then remove bottom level
/// top level should be same and top id should not have been updated
/// connections for the middle level should have been modified
#[test]
fn test_utils_remove_three_levels_remove_bottom() {
    let mut state = setup();
    let middle_price = ONE;
    bid(&mut state, middle_price);
    let top_price = 1128 * (ONE / 1000);
    bid(&mut state, top_price);
    let bottom_price = 976 * (ONE / 1000);
    bid(&mut state, bottom_price);

    let market = &state.markets[0];
    let top_level_id = market.info.top_level_bid.unwrap();
    let middle_level_id = market.level_data(top_level_id).unwrap().id_next.unwrap();
    let bottom_level_id = market.level_data(middle_level_id).unwrap().id_next.unwrap();

    // remove bottom level
    remove_level(&mut state, 0, bottom_level_id).unwrap();

    let market = &state.markets[0];
    assert_eq!(market.info.top_level_bid.unwrap(), top_level_id);
    assert!(market.level_data(top_level_id).is_some());
    assert!(market.level_orders(top_level_id).is_some());
    assert!(market.level_data(middle_level_id).is_some());
    assert!(market.level_orders(middle_level_id).is_some());
    assert!(market.level_data(bottom_level_id).is_none());
    assert!(market.level_orders(bottom_level_id).is_none());

    // check that there are no dangling connections for level data
    let top_level_data = market.level_data(top_level_id).unwrap();
    assert_eq!(top_level_data.id_next.unwrap(), middle_level_id);
    assert!(top_level_data.id_previous.is_none());

    let middle_level_data = market.level_data(middle_level_id).unwrap();
    assert!(middle_level_data.id_next.is_none());
    assert_eq!(middle_level_data.id_previous.unwrap(), top_level_id);
}
