//! Shared helpers: fixed-point settlement arithmetic and small comparison
//! utilities.

use core::cmp::Ordering;
use vstd::arithmetic::div_mod::{
    lemma_div_is_ordered, lemma_div_nonincreasing, lemma_div_pos_is_pos,
};
use vstd::prelude::*;

verus! {

/// The product of a quantity and a fixed-point price (eighteen fractional
/// decimal digits), rounded up.
pub open spec fn ceil_mul(amount: u128, price: u128) -> int {
    (amount * price + (crate::DECIMAL_FRACTIONAL - 1)) / (crate::DECIMAL_FRACTIONAL as int)
}

/// `ceil_mul` over an unbounded quantity, for stating bounds on whole
/// ledgers.
pub open spec fn ceil_mul_int(amount: int, price: u128) -> int {
    (amount * price + (crate::DECIMAL_FRACTIONAL - 1)) / (crate::DECIMAL_FRACTIONAL as int)
}

/// `ceil_mul_int` grows with the quantity.
pub proof fn lemma_ceil_mul_int_monotone(a: int, b: int, price: u128)
    requires
        a <= b,
    ensures
        ceil_mul_int(a, price) <= ceil_mul_int(b, price),
{
    assert(a * price <= b * price) by (nonlinear_arith)
        requires
            a <= b,
    ;
    lemma_div_is_ordered(
        a * price + (crate::DECIMAL_FRACTIONAL - 1) as int,
        b * price + (crate::DECIMAL_FRACTIONAL - 1) as int,
        crate::DECIMAL_FRACTIONAL as int,
    );
}

/// `ceil_mul_int` of a nonnegative quantity is nonnegative.
pub proof fn lemma_ceil_mul_int_nonneg(a: int, price: u128)
    requires
        a >= 0,
    ensures
        ceil_mul_int(a, price) >= 0,
{
    assert(a * price >= 0) by (nonlinear_arith)
        requires
            a >= 0,
    ;
    lemma_div_pos_is_pos(
        a * price + (crate::DECIMAL_FRACTIONAL - 1) as int,
        crate::DECIMAL_FRACTIONAL as int,
    );
}

/// `ceil_mul` never yields a negative value.
pub proof fn lemma_ceil_mul_nonneg(a: u128, price: u128)
    ensures
        ceil_mul(a, price) >= 0,
{
    assert(a * price >= 0) by (nonlinear_arith);
    lemma_div_pos_is_pos(
        a * price + (crate::DECIMAL_FRACTIONAL - 1) as int,
        crate::DECIMAL_FRACTIONAL as int,
    );
}

/// Relies on `cosmwasm_std::Uint128::checked_mul_ceil` with a `Decimal`
/// factor built from raw atomics: the result is the quantity times the
/// fixed-point price, rounded up, or `None` when that value does not fit in
/// `u128`. The divisor, `Decimal`'s fractional base, is never zero.
#[verifier::external_body]
fn checked_mul_ceil_raw(amount: u128, price: u128) -> (r: Option<u128>)
    ensures
        r == (if ceil_mul(amount, price) <= u128::MAX {
            Some(ceil_mul(amount, price) as u128)
        } else {
            None::<u128>
        }),
{
    match cosmwasm_std::Uint128::new(amount).checked_mul_ceil(
        cosmwasm_std::Decimal::new(cosmwasm_std::Uint128::new(price)),
    ) {
        Ok(v) => Some(v.u128()),
        Err(_) => None,
    }
}

/// The quantity times the fixed-point price, rounded up; the value must be
/// known to fit.
pub fn mul_price_ceil(amount: u128, price: u128) -> (r: u128)
    requires
        ceil_mul(amount, price) <= u128::MAX,
    ensures
        r == ceil_mul(amount, price),
{
    proof {
        lemma_ceil_mul_nonneg(amount, price);
    }
    match checked_mul_ceil_raw(amount, price) {
        Some(v) => v,
        None => 0,  // unreachable: the product fits
    }
}

/// The attached funds must be exactly one coin, which is returned.
pub fn check_only_one_fund(funds: &Vec<crate::structs::CoinData>) -> (r: Result<
    crate::structs::CoinData,
    crate::ContractError,
>)
    ensures
        funds@.len() == 1 ==> r == Ok::<crate::structs::CoinData, crate::ContractError>(
            funds@[0],
        ),
        funds@.len() != 1 ==> r == Err::<crate::structs::CoinData, crate::ContractError>(
            crate::ContractError::InvalidNumberOfFunds,
        ),
{
    if funds.len() != 1 {
        Err(crate::ContractError::InvalidNumberOfFunds)
    } else {
        let c = crate::structs::CoinData { denom: funds[0].denom.clone(), amount: funds[0].amount };
        proof {
            assert(c == funds@[0]);
        }
        Ok(c)
    }
}

/// Whether comparing `elem_1` to `elem_2` yields `target_ordering`.
pub fn wrapped_comparison(elem_1: u128, elem_2: u128, target_ordering: Ordering) -> (r: bool)
    ensures
        r == (match target_ordering {
            Ordering::Less => elem_1 < elem_2,
            Ordering::Equal => elem_1 == elem_2,
            Ordering::Greater => elem_1 > elem_2,
        }),
{
    match target_ordering {
        Ordering::Less => elem_1 < elem_2,
        Ordering::Equal => elem_1 == elem_2,
        Ordering::Greater => elem_1 > elem_2,
    }
}

/// The midpoint of a bid and an ask price, each halved with its fixed-point
/// atomics truncated.
pub fn compute_midprice(bid_price: u128, ask_price: u128) -> (r: u128)
    ensures
        r == bid_price / 2 + ask_price / 2,
{
    proof {
        lemma_div_nonincreasing(bid_price as int, 2);
        lemma_div_nonincreasing(ask_price as int, 2);
    }
    bid_price / 2 + ask_price / 2
}

} // verus!
