use selene_markets::contract_admin_execute::{add_market, route_admin_execute};
use selene_markets::contract_query::get_markets;
use selene_markets::msg::AdminExecuteMsg;
use selene_markets::state::State;
use selene_markets::structs::CurrencyInfo;
use selene_markets::ContractError;

#[test]
fn admin_add_market() {
    let mut state = State::new("admin".to_string());

    add_market(
        &mut state,
        CurrencyInfo::Native { denom: "husd".into() },
        CurrencyInfo::Native { denom: "heur".into() },
    )
    .unwrap();
}

#[test]
fn test_create_market() {
    let mut state = State::new("admin".to_string());

    route_admin_execute(
        &mut state,
        &"admin".to_string(),
        AdminExecuteMsg::AddMarket {
            base_currency: CurrencyInfo::Native { denom: "heur".into() },
            quote_currency: CurrencyInfo::Native { denom: "husd".into() },
        },
    )
    .unwrap();

    let res = get_markets(&state);
    assert_eq!(res.markets.len(), 1);
}

#[test]
fn admin_only_admin_may_act() {
    let mut state = State::new("admin".to_string());

    let r = route_admin_execute(
        &mut state,
        &"intruder".to_string(),
        AdminExecuteMsg::UpdateAdmin { new_admin: "intruder".to_string() },
    );
    assert_eq!(r, Err(ContractError::Unauthorized));
    assert_eq!(state.admin, Some("admin".to_string()));

    route_admin_execute(
        &mut state,
        &"admin".to_string(),
        AdminExecuteMsg::UpdateAdmin { new_admin: "successor".to_string() },
    )
    .unwrap();
    assert_eq!(state.admin, Some("successor".to_string()));
}
