//! The administrative surface: only the administrator may rotate the
//! administrator or create markets.

use vstd::prelude::*;

use crate::msg::AdminExecuteMsg;
use crate::state::State;
use crate::structs::{CurrencyInfo, MarketInfo};
use crate::ContractError;

verus! {

/// Whether `sender` is the administrator of `st`.
pub open spec fn is_admin(st: State, sender: Seq<char>) -> bool {
    match st.admin {
        Some(a) => a@ == sender,
        None => false,
    }
}

/// Dispatches an administrative call after checking that the caller is the
/// administrator; `new_admin` must already be a validated identity.
pub fn route_admin_execute(state: &mut State, sender: &String, msg: AdminExecuteMsg) -> (r: Result<
    (),
    ContractError,
>)
    requires
        old(state).wf(),
    ensures
        final(state).wf(),
        final(state).user_orders == old(state).user_orders,
        !is_admin(*old(state), sender@) ==> (r == Err::<(), ContractError>(
            ContractError::Unauthorized,
        ) && final(state).markets@ == old(state).markets@
            && final(state).admin == old(state).admin),
        is_admin(*old(state), sender@) ==> match msg {
            AdminExecuteMsg::UpdateAdmin { new_admin } => r == Ok::<(), ContractError>(())
                && final(state).admin == Some(new_admin)
                && final(state).markets@ == old(state).markets@,
            AdminExecuteMsg::AddMarket { base_currency, quote_currency } => match r {
                Ok(()) => {
                    &&& old(state).markets@.len() < u64::MAX
                    &&& final(state).admin == old(state).admin
                    &&& final(state).markets@.len() == old(state).markets@.len() + 1
                    &&& final(state).markets@.subrange(0, old(state).markets@.len() as int) == old(
                        state,
                    ).markets@
                    &&& final(state).markets@.last().info == (MarketInfo {
                        market_id: old(state).markets@.len() as u64,
                        base_currency,
                        quote_currency,
                        top_level_bid: None,
                        top_level_ask: None,
                    })
                    &&& final(state).markets@.last().bids@.len() == 0
                    &&& final(state).markets@.last().asks@.len() == 0
                },
                Err(e) => e == ContractError::Never && old(state).markets@.len() >= u64::MAX
                    && final(state).markets@ == old(state).markets@,
            },
        },
{
    let authorized = match &state.admin {
        Some(admin) => *admin == *sender,
        None => false,
    };
    if !authorized {
        return Err(ContractError::Unauthorized);
    }
    match msg {
        AdminExecuteMsg::UpdateAdmin { new_admin } => update_admin(state, new_admin),
        AdminExecuteMsg::AddMarket { base_currency, quote_currency } => match add_market(
            state,
            base_currency,
            quote_currency,
        ) {
            Ok(_) => Ok(()),
            Err(e) => Err(e),
        },
    }
}

/// Replaces the administrator; validation of the identity is the caller's
/// duty.
fn update_admin(state: &mut State, new_admin: String) -> (r: Result<(), ContractError>)
    requires
        old(state).wf(),
    ensures
        final(state).wf(),
        r == Ok::<(), ContractError>(()),
        final(state).admin == Some(new_admin),
        final(state).markets@ == old(state).markets@,
        final(state).user_orders == old(state).user_orders,
{
    state.admin = Some(new_admin);
    Ok(())
}

/// Creates a market over the given currency pair under the next sequential
/// identifier; duplicate pairs are permitted.
pub fn add_market(
    state: &mut State,
    base_currency: CurrencyInfo,
    quote_currency: CurrencyInfo,
) -> (r: Result<u64, ContractError>)
    requires
        old(state).wf(),
    ensures
        final(state).wf(),
        final(state).user_orders == old(state).user_orders,
        final(state).admin == old(state).admin,
        match r {
            Ok(id) => {
                &&& id == old(state).markets@.len()
                &&& old(state).markets@.len() < u64::MAX
                &&& final(state).markets@.len() == old(state).markets@.len() + 1
                &&& final(state).markets@.subrange(0, old(state).markets@.len() as int) == old(
                    state,
                ).markets@
                &&& final(state).markets@.last().info == (MarketInfo {
                    market_id: id,
                    base_currency,
                    quote_currency,
                    top_level_bid: None,
                    top_level_ask: None,
                })
                &&& final(state).markets@.last().bids@.len() == 0
                &&& final(state).markets@.last().asks@.len() == 0
            },
            Err(e) => {
                &&& e == ContractError::Never
                &&& old(state).markets@.len() >= u64::MAX
                &&& final(state).markets@ == old(state).markets@
            },
        },
{
    state.add_market(base_currency, quote_currency)
}

} // verus!
