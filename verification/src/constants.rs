//! Defaults of the bots' settings.
use crate::decimal::Dec;
use vstd::prelude::*;

verus! {

/// Resting maker orders per side when the configuration sets no cap.
pub const DEFAULT_ORDER_CAP: u8 = 10;

/// Cycles a taker keeps one bias before drawing another.
pub const TICKER_STATE_CYCLE: u8 = 15;

/// The maker spread when the configuration sets none: 0.003.
pub fn default_spread() -> (d: Dec)
    ensures
        d@ == (3int, 3nat),
{
    Dec::new(3, 3)
}

/// The drift from the mid price beyond which a resting order is stale when the
/// configuration sets no threshold: 0.005.
pub fn stale_threshold() -> (d: Dec)
    ensures
        d@ == (5int, 3nat),
{
    Dec::new(5, 3)
}

} // verus!
