//! Hard limits that every outgoing action must pass.

use crate::config::GuardConfig;
use crate::number::{Float64, Quote};
use vstd::prelude::*;

verus! {

/// Whether a number can be a price: finite and positive.
pub open spec fn sane(mark: Float64) -> bool {
    mark.finite() && (Float64 { bits: 0 }).less(mark)
}

/// Hard limits every outgoing action must pass. Constructed from the configuration
/// once. The executor releases no order above the value cap, and releases an order or a
/// cancellation only together with the slot that it has reserved for it; the host waits for
/// that slot before it sends, and computes the value that is held against the cap.
#[derive(Debug)]
pub struct SafetyLimits {
    pub max_order_notional: Quote,
    pub min_action_interval_ms: u64,
}

impl SafetyLimits {
    pub fn new(max_order_notional: Quote, min_action_interval_ms: u64) -> (r: Self)
        ensures
            r.max_order_notional == max_order_notional,
            r.min_action_interval_ms == min_action_interval_ms,
    {
        SafetyLimits { max_order_notional, min_action_interval_ms }
    }

    /// The limits that a configuration sets.
    pub fn from_config(config: &GuardConfig) -> (r: Self)
        ensures
            r.max_order_notional == config.guard.max_order_notional,
            r.min_action_interval_ms == config.guard.min_action_interval_ms,
    {
        SafetyLimits::new(
            config.guard.max_order_notional.clone(),
            config.guard.min_action_interval_ms,
        )
    }

    /// Backstop against malformed feeds: zero, negative, and non-finite marks are
    /// never valid prices.
    pub fn price_is_sane(mark: Float64) -> (r: bool)
        ensures
            r == sane(mark),
    {
        mark.is_finite() && (Float64 { bits: 0 }).lt(mark)
    }
}

/// A sane price is a positive value.
pub proof fn law_sane_prices_are_positive(mark: Float64)
    requires
        sane(mark),
    ensures
        mark.finite(),
        mark.units() > 0,
{
    crate::number::law_comparison_is_numeric(Float64 { bits: 0 }, mark);
    assert((Float64 { bits: 0 }).units() == 0);
}

/// Every finite number above zero is a sane price, and nothing else is.
pub proof fn law_sane_prices_are_the_positive_numbers(mark: Float64)
    ensures
        sane(mark) <==> mark.finite() && mark.units() > 0,
{
    if mark.finite() {
        crate::number::law_sign_of_finite_numbers(mark);
    }
}

}
