use selene_markets::market_logic::liquidity_consumer::LiquidityConsumer;
use selene_markets::structs::{LevelOrder, LevelOrders};

/// Consume, single order in book that matches amount to be consumed
/// so level is fully consumed, nothing left in the incoming order
#[test]
fn liquidity_consumer_full_single_no_remaining() {
    let mut level: LevelOrders = vec![LevelOrder { user: "user".to_string(), amount: 10000u128 }];

    let res = level.consume(10000u128);

    assert!(res.is_fully_consumed);
    assert!(res.remaining_to_consume == 0);
    assert_eq!(
        res.bin_records_consumed,
        vec![LevelOrder { user: "user".to_string(), amount: 10000u128 }]
    );
}

/// Consume, single order in book that is higher than amount to be consumed
/// so level is not fully consumed, nothing left in the incoming order
#[test]
fn liquidity_consumer_full_single_remainder_in_level() {
    let mut level: LevelOrders = vec![LevelOrder { user: "user".to_string(), amount: 12000u128 }];

    let res = level.consume(10000u128);

    assert!(!res.is_fully_consumed);
    assert!(res.remaining_to_consume == 0);
    assert_eq!(
        res.bin_records_consumed,
        vec![LevelOrder { user: "user".to_string(), amount: 10000u128 }]
    );
}

/// Consume, single order in book that is lower than amount to consume
/// so level should be fully consumed, and there should still be amount remaining in order
#[test]
fn liquidity_consumer_full_single_remaining_to_consume() {
    let mut level: LevelOrders = vec![LevelOrder { user: "user".to_string(), amount: 10000u128 }];

    let res = level.consume(12000u128);

    assert!(res.is_fully_consumed);
    assert!(res.remaining_to_consume != 0);
    assert_eq!(
        res.bin_records_consumed,
        vec![LevelOrder { user: "user".to_string(), amount: 10000u128 }]
    );
}
