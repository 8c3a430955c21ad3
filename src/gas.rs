//! Gas-price policies: what price and limit a transfer is submitted with, or
//! whether to wait for a cheaper moment.
use vstd::prelude::*;
use vstd::arithmetic::div_mod::lemma_hoist_over_denominator;

verus! {

/// Margin added to the base fee by the estimated-minimum policy, in percent.
pub const BASE_FEE_MARGIN_PERCENT: u32 = 1;

/// Buffer added to the gas estimate by the estimated-minimum policy, in percent.
pub const GAS_LIMIT_BUFFER_PERCENT: u32 = 2;

/// Price of the fixed policy, in wei (0.001 gwei).
pub const FIXED_GAS_PRICE: u128 = 1_000_000;

/// Conservative gas limit of the fixed policy.
pub const FIXED_GAS_LIMIT: u128 = 500_000;

/// How a transaction's gas price and limit are chosen.
#[derive(Debug, Clone, Copy, PartialEq, Eq, Structural)]
pub enum GasPolicy {
    /// Always the same price and limit; never defers.
    Fixed { price: u128, limit: u128 },
    /// The current base fee plus a margin, and the transfer's gas estimate
    /// plus a buffer; never defers.
    EstimatedMinimum { price_margin_percent: u32, limit_buffer_percent: u32 },
    /// The market price when it is at or below `ceiling`, else wait
    /// `retry_interval_ms` and ask again, at most `max_attempts` times.
    GatedRetry { ceiling: u128, limit: u128, max_attempts: u32, retry_interval_ms: u64 },
}

/// What was learnt from the chain for one decision; `None` where the query
/// was not made or failed.
#[derive(Debug, Clone, Copy)]
pub struct ChainQuote {
    pub market_price: Option<u128>,
    pub base_fee: Option<u128>,
    pub gas_estimate: Option<u128>,
}

#[derive(Debug, Clone, Copy, PartialEq, Eq, Structural)]
pub enum DeferReason {
    PriceTooHigh,
}

#[derive(Debug, Clone, Copy, PartialEq, Eq, Structural)]
pub enum GasAction {
    Proceed,
    Defer(DeferReason),
}

/// The price and limit to submit with, and whether to submit now.
#[derive(Debug, Clone, Copy, PartialEq, Eq, Structural)]
pub struct GasDecision {
    pub price: u128,
    pub limit: u128,
    pub action: GasAction,
}

#[derive(Debug, Clone, Copy, PartialEq, Eq, Structural)]
pub enum GasError {
    /// The base fee could not be read.
    BaseFeeUnavailable,
    /// The transfer's gas could not be estimated.
    EstimateUnavailable,
    /// The market gas price could not be read.
    MarketPriceUnavailable,
    /// A price or limit with its margin does not fit in 128 bits.
    Overflow,
}

/// `value` raised by `percent` percent, the increase rounded down.
pub open spec fn margin_of(value: nat, percent: nat) -> nat {
    value + value * percent / 100
}

/// `value` raised by `percent` percent, the increase rounded down, in integer
/// arithmetic; `None` where that does not fit in a `u128`.
pub fn with_margin(value: u128, percent: u32) -> (r: Option<u128>)
    ensures
        margin_of(value as nat, percent as nat) <= u128::MAX ==> r == Some(
            margin_of(value as nat, percent as nat) as u128,
        ),
        margin_of(value as nat, percent as nat) > u128::MAX ==> r is None,
{
    let q = value / 100;
    let rem = value % 100;
    let p = percent as u128;
    let ghost v = value as int;
    let ghost pi = p as int;
    proof {
        assert(v * pi == (q as int) * pi * 100 + (rem as int) * pi) by (nonlinear_arith)
            requires
                v == 100 * (q as int) + rem as int,
        ;
        lemma_hoist_over_denominator((rem as int) * pi, (q as int) * pi, 100);
        assert((rem as int) * pi + ((q as int) * pi) * 100 == (q as int) * pi * 100 + (rem as int)
            * pi) by (nonlinear_arith);
        assert(v * pi / 100 == (rem as int) * pi / 100 + (q as int) * pi);
        assert(0 <= (rem as int) * pi <= 99 * pi) by (nonlinear_arith)
            requires
                0 <= rem < 100,
                pi >= 0,
        ;
        assert(0 <= (q as int) * pi) by (nonlinear_arith)
            requires
                q >= 0,
                pi >= 0,
        ;
    }
    let small = rem * p / 100;
    match q.checked_mul(p) {
        None => None,
        Some(big) => match big.checked_add(small) {
            None => None,
            Some(extra) => value.checked_add(extra),
        },
    }
}

/// The estimated-minimum price: the base fee plus its margin.
pub fn minimum_gas_price(base_fee: u128) -> (r: Option<u128>)
    ensures
        margin_of(base_fee as nat, 1) <= u128::MAX ==> r == Some(
            margin_of(base_fee as nat, 1) as u128,
        ),
        margin_of(base_fee as nat, 1) > u128::MAX ==> r is None,
{
    with_margin(base_fee, BASE_FEE_MARGIN_PERCENT)
}

/// The estimated-minimum limit: the gas estimate plus its buffer.
pub fn minimum_gas_limit(gas_estimate: u128) -> (r: Option<u128>)
    ensures
        margin_of(gas_estimate as nat, 2) <= u128::MAX ==> r == Some(
            margin_of(gas_estimate as nat, 2) as u128,
        ),
        margin_of(gas_estimate as nat, 2) > u128::MAX ==> r is None,
{
    with_margin(gas_estimate, GAS_LIMIT_BUFFER_PERCENT)
}

/// `value` raised by `percent` percent, where that fits in a `u128`.
pub open spec fn checked_margin(value: u128, percent: u32) -> Option<u128> {
    if margin_of(value as nat, percent as nat) <= u128::MAX {
        Some(margin_of(value as nat, percent as nat) as u128)
    } else {
        None
    }
}

/// The decision a policy makes on what was learnt from the chain.
pub open spec fn decision_of(policy: GasPolicy, quote: ChainQuote) -> Result<GasDecision, GasError> {
    match policy {
        GasPolicy::Fixed { price, limit } => Ok(
            GasDecision { price, limit, action: GasAction::Proceed },
        ),
        GasPolicy::EstimatedMinimum { price_margin_percent, limit_buffer_percent } => {
            match (quote.base_fee, quote.gas_estimate) {
                (None, _) => Err(GasError::BaseFeeUnavailable),
                (Some(_), None) => Err(GasError::EstimateUnavailable),
                (Some(fee), Some(estimate)) => {
                    match (
                        checked_margin(fee, price_margin_percent),
                        checked_margin(estimate, limit_buffer_percent),
                    ) {
                        (Some(price), Some(limit)) => Ok(
                            GasDecision { price, limit, action: GasAction::Proceed },
                        ),
                        _ => Err(GasError::Overflow),
                    }
                },
            }
        },
        GasPolicy::GatedRetry { ceiling, limit, .. } => match quote.market_price {
            None => Err(GasError::MarketPriceUnavailable),
            Some(price) => Ok(
                GasDecision {
                    price,
                    limit,
                    action: if price <= ceiling {
                        GasAction::Proceed
                    } else {
                        GasAction::Defer(DeferReason::PriceTooHigh)
                    },
                },
            ),
        },
    }
}

impl GasPolicy {
    /// The fixed policy at its usual price and limit.
    pub fn fixed() -> (r: Self)
        ensures
            r == (GasPolicy::Fixed { price: FIXED_GAS_PRICE, limit: FIXED_GAS_LIMIT }),
    {
        GasPolicy::Fixed { price: FIXED_GAS_PRICE, limit: FIXED_GAS_LIMIT }
    }

    /// The estimated-minimum policy with its usual margins.
    pub fn estimated_minimum() -> (r: Self)
        ensures
            r == (GasPolicy::EstimatedMinimum {
                price_margin_percent: BASE_FEE_MARGIN_PERCENT,
                limit_buffer_percent: GAS_LIMIT_BUFFER_PERCENT,
            }),
    {
        GasPolicy::EstimatedMinimum {
            price_margin_percent: BASE_FEE_MARGIN_PERCENT,
            limit_buffer_percent: GAS_LIMIT_BUFFER_PERCENT,
        }
    }

    /// Decides the price and limit for one transfer, or to defer it.
    pub fn decide(&self, quote: &ChainQuote) -> (r: Result<GasDecision, GasError>)
        ensures
            r == decision_of(*self, *quote),
    {
        match *self {
            GasPolicy::Fixed { price, limit } => Ok(
                GasDecision { price, limit, action: GasAction::Proceed },
            ),
            GasPolicy::EstimatedMinimum { price_margin_percent, limit_buffer_percent } => {
                let fee = match quote.base_fee {
                    None => return Err(GasError::BaseFeeUnavailable),
                    Some(fee) => fee,
                };
                let estimate = match quote.gas_estimate {
                    None => return Err(GasError::EstimateUnavailable),
                    Some(estimate) => estimate,
                };
                match (
                    with_margin(fee, price_margin_percent),
                    with_margin(estimate, limit_buffer_percent),
                ) {
                    (Some(price), Some(limit)) => Ok(
                        GasDecision { price, limit, action: GasAction::Proceed },
                    ),
                    _ => Err(GasError::Overflow),
                }
            },
            GasPolicy::GatedRetry { ceiling, limit, .. } => match quote.market_price {
                None => Err(GasError::MarketPriceUnavailable),
                Some(price) => {
                    let action = if price <= ceiling {
                        GasAction::Proceed
                    } else {
                        GasAction::Defer(DeferReason::PriceTooHigh)
                    };
                    Ok(GasDecision { price, limit, action })
                },
            },
        }
    }
}

/// The gated-retry policy admits a price exactly when it is at or below the
/// ceiling, and then submits at that very price.
pub proof fn lemma_gated_ceiling_inclusive(policy: GasPolicy, quote: ChainQuote, price: u128)
    requires
        policy is GatedRetry,
        quote.market_price == Some(price),
    ensures
        decision_of(policy, quote) is Ok,
        (decision_of(policy, quote).unwrap().action == GasAction::Proceed) <==> price
            <= policy->GatedRetry_ceiling,
        decision_of(policy, quote).unwrap().price == price,
{
}

/// The fixed and estimated-minimum policies never defer.
pub proof fn lemma_only_gated_defers(policy: GasPolicy, quote: ChainQuote)
    requires
        !(policy is GatedRetry),
        decision_of(policy, quote) is Ok,
    ensures
        decision_of(policy, quote).unwrap().action == GasAction::Proceed,
{
}

} // verus!
