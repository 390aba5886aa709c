use selene_markets::contract_admin_execute::route_admin_execute;
use selene_markets::contract_execute::route_execute;
use selene_markets::msg::{AdminExecuteMsg, ExecuteMsg};
use selene_markets::state::State;
use selene_markets::structs::{CoinData, CurrencyInfo};
use selene_markets::ContractError;
use selene_markets::DECIMAL_FRACTIONAL;

fn setup() -> State {
    let mut state = State::new("admin".to_string());
    route_admin_execute(
        &mut state,
        &"admin".to_string(),
        AdminExecuteMsg::AddMarket {
            base_currency: CurrencyInfo::Native { denom: "heur".into() },
            quote_currency: CurrencyInfo::Native { denom: "husd".into() },
        },
    )
    .unwrap();
    state
}

#[test]
fn error_no_funds_attached() {
    let mut state = setup();
    let r = route_execute(
        &mut state,
        "user1".to_string(),
        &Vec::new(),
        ExecuteMsg::LimitOrder { market_id: 0, price: DECIMAL_FRACTIONAL },
    );
    assert_eq!(r, Err(ContractError::InvalidNumberOfFunds));
}

#[test]
fn error_unknown_market() {
    let mut state = setup();
    let funds = vec![CoinData { denom: "husd".into(), amount: 100 }];
    let r = route_execute(
        &mut state,
        "user1".to_string(),
        &funds,
        ExecuteMsg::LimitOrder { market_id: 7, price: DECIMAL_FRACTIONAL },
    );
    assert_eq!(r, Err(ContractError::UnknownMarketId { id: 7 }));
}

#[test]
fn error_currency_not_in_market() {
    let mut state = setup();
    let funds = vec![CoinData { denom: "hjpy".into(), amount: 100 }];
    let r = route_execute(
        &mut state,
        "user1".to_string(),
        &funds,
        ExecuteMsg::LimitOrder { market_id: 0, price: DECIMAL_FRACTIONAL },
    );
    assert_eq!(r, Err(ContractError::MismatchDenomAndMarket));
}

#[test]
fn error_cancel_without_order() {
    let mut state = setup();
    // rest something so that the price maps to a currency leg
    let funds = vec![CoinData { denom: "husd".into(), amount: 100 }];
    route_execute(
        &mut state,
        "user1".to_string(),
        &funds,
        ExecuteMsg::LimitOrder { market_id: 0, price: DECIMAL_FRACTIONAL },
    )
    .unwrap();

    let r = route_execute(
        &mut state,
        "user2".to_string(),
        &Vec::new(),
        ExecuteMsg::RemoveLimitOrder { market_id: 0, price: DECIMAL_FRACTIONAL },
    );
    assert_eq!(r, Err(ContractError::OrderDoesNotExist));
}

#[test]
fn error_admin_message_not_served_here() {
    let mut state = setup();
    let r = route_execute(
        &mut state,
        "admin".to_string(),
        &Vec::new(),
        ExecuteMsg::Admin(AdminExecuteMsg::UpdateAdmin { new_admin: "other".to_string() }),
    );
    assert_eq!(r, Err(ContractError::Never));
}

/// Cancelling the only order at the top level promotes the successor level
/// to the top of the book.
#[test]
fn cancel_top_level_promotes_successor() {
    let mut state = setup();

    let one = DECIMAL_FRACTIONAL;
    let high = 2 * one;
    let funds = vec![CoinData { denom: "husd".into(), amount: 100 }];
    route_execute(
        &mut state,
        "user1".to_string(),
        &funds,
        ExecuteMsg::LimitOrder { market_id: 0, price: high },
    )
    .unwrap();
    route_execute(
        &mut state,
        "user2".to_string(),
        &funds,
        ExecuteMsg::LimitOrder { market_id: 0, price: one },
    )
    .unwrap();

    let lower_id = {
        let market = &state.markets[0];
        let top_id = market.info.top_level_bid.unwrap();
        assert_eq!(market.level_data(top_id).unwrap().price, high);
        market.level_data(top_id).unwrap().id_next.unwrap()
    };

    route_execute(
        &mut state,
        "user1".to_string(),
        &Vec::new(),
        ExecuteMsg::RemoveLimitOrder { market_id: 0, price: high },
    )
    .unwrap();

    let market = &state.markets[0];
    assert_eq!(market.info.top_level_bid.unwrap(), lower_id);
    let promoted = market.level_data(lower_id).unwrap();
    assert_eq!(promoted.price, one);
    assert!(promoted.id_previous.is_none());

    // the other user's order is intact
    let orders = market.level_orders(lower_id).unwrap();
    assert_eq!(orders.len(), 1);
    assert_eq!(orders[0].user, "user2".to_string());
    assert_eq!(orders[0].amount, 100);
}
