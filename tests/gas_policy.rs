use airdrop_ledger::gas::{
    with_margin, minimum_gas_limit, minimum_gas_price, ChainQuote, DeferReason, GasAction,
    GasDecision, GasError, GasPolicy,
};

fn market(price: u128) -> ChainQuote {
    ChainQuote { market_price: Some(price), base_fee: None, gas_estimate: None }
}

fn gated(ceiling: u128, max_attempts: u32) -> GasPolicy {
    GasPolicy::GatedRetry { ceiling, limit: 60_000, max_attempts, retry_interval_ms: 5_000 }
}

#[test]
fn gated_ceiling_is_inclusive() {
    let policy = gated(100, 10);
    let at = policy.decide(&market(100)).unwrap();
    assert_eq!(at, GasDecision { price: 100, limit: 60_000, action: GasAction::Proceed });
    let above = policy.decide(&market(101)).unwrap();
    assert_eq!(above.action, GasAction::Defer(DeferReason::PriceTooHigh));
    assert_eq!(policy.decide(&market(0)).unwrap().action, GasAction::Proceed);
}

#[test]
fn estimated_minimum_price_and_limit() {
    assert_eq!(minimum_gas_price(1_000_000_000), Some(1_010_000_000));
    assert_eq!(minimum_gas_limit(50_000), Some(51_000));
    let quote = ChainQuote { market_price: None, base_fee: Some(1_000_000_000), gas_estimate: Some(50_000) };
    let d = GasPolicy::estimated_minimum().decide(&quote).unwrap();
    assert_eq!(d, GasDecision { price: 1_010_000_000, limit: 51_000, action: GasAction::Proceed });
}

#[test]
fn margin_rounds_down() {
    assert_eq!(with_margin(199, 1), Some(200));
    assert_eq!(with_margin(149, 2), Some(151));
    assert_eq!(with_margin(150, 2), Some(153));
    assert_eq!(with_margin(0, 1), Some(0));
    assert_eq!(with_margin(1_000, 0), Some(1_000));
    assert_eq!(with_margin(u128::MAX, 0), Some(u128::MAX));
    assert_eq!(with_margin(u128::MAX - 5, 1), None);
    assert_eq!(with_margin(u128::MAX / 100 * 99, 1), Some(u128::MAX / 100 * 99 + u128::MAX / 100 * 99 / 100));
}

#[test]
fn fixed_policy_always_proceeds() {
    let d = GasPolicy::fixed().decide(&ChainQuote { market_price: None, base_fee: None, gas_estimate: None }).unwrap();
    assert_eq!(d, GasDecision { price: 1_000_000, limit: 500_000, action: GasAction::Proceed });
}

#[test]
fn policy_errors() {
    let none = ChainQuote { market_price: None, base_fee: None, gas_estimate: None };
    let est = GasPolicy::estimated_minimum();
    assert_eq!(est.decide(&none), Err(GasError::BaseFeeUnavailable));
    let fee_only = ChainQuote { market_price: None, base_fee: Some(10), gas_estimate: None };
    assert_eq!(est.decide(&fee_only), Err(GasError::EstimateUnavailable));
    let huge = ChainQuote { market_price: None, base_fee: Some(u128::MAX), gas_estimate: Some(1) };
    assert_eq!(est.decide(&huge), Err(GasError::Overflow));
    assert_eq!(gated(100, 3).decide(&none), Err(GasError::MarketPriceUnavailable));
}
