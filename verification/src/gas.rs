//! The two fee caps of a dynamic-fee transaction.

use crate::uint::{saturating_percent_increase, U256};
use vstd::prelude::*;

verus! {

/// The fee caps a transaction was sent with.
#[derive(Clone, Copy, Debug, PartialEq, Eq)]
pub struct GasFees {
    pub max_fee_per_gas: U256,
    pub max_priority_fee_per_gas: U256,
}

impl GasFees {
    /// True when `self` is `base` with both caps raised by `percent` percent.
    pub open spec fn is_increase_of(self, base: GasFees, percent: u64) -> bool {
        &&& self.max_fee_per_gas.value() == saturating_percent_increase(
            base.max_fee_per_gas.value(),
            percent as nat,
        )
        &&& self.max_priority_fee_per_gas.value() == saturating_percent_increase(
            base.max_priority_fee_per_gas.value(),
            percent as nat,
        )
    }

    /// True when both caps of `self` are at least those of `base` raised by
    /// `percent` percent.
    pub open spec fn meets_increase_of(self, base: GasFees, percent: u64) -> bool {
        &&& self.max_fee_per_gas.value() >= saturating_percent_increase(
            base.max_fee_per_gas.value(),
            percent as nat,
        )
        &&& self.max_priority_fee_per_gas.value() >= saturating_percent_increase(
            base.max_priority_fee_per_gas.value(),
            percent as nat,
        )
    }

    /// True when both caps of `self` are at least those of `floor`.
    pub open spec fn meets(self, floor: GasFees) -> bool {
        &&& self.max_fee_per_gas.value() >= floor.max_fee_per_gas.value()
        &&& self.max_priority_fee_per_gas.value() >= floor.max_priority_fee_per_gas.value()
    }

    /// Both caps raised by `percent` percent, rounded down.
    pub fn increase_by_percent(self, percent: u64) -> (r: GasFees)
        ensures
            r.is_increase_of(self, percent),
    {
        GasFees {
            max_fee_per_gas: self.max_fee_per_gas.saturating_increase_by_percent(percent),
            max_priority_fee_per_gas: self.max_priority_fee_per_gas.saturating_increase_by_percent(
                percent,
            ),
        }
    }

    /// Whether both caps are at least those of `floor`.
    pub fn covers(&self, floor: &GasFees) -> (r: bool)
        ensures
            r == self.meets(*floor),
    {
        !self.max_fee_per_gas.lt(&floor.max_fee_per_gas) && !self.max_priority_fee_per_gas.lt(
            &floor.max_priority_fee_per_gas,
        )
    }
}

} // verus!
