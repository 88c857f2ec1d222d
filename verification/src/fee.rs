//! Fee schedules.
use vstd::prelude::*;
use crate::fixed::{mul_fixed, product, stored, SCALE};

verus! {

/// What the broker charges on each execution.
#[derive(Debug, Clone, Copy, PartialEq, Eq, Structural)]
pub enum FeeType {
    /// The same amount on every execution.
    Flat(i64),
    /// A fraction of the traded amount, in millionths.
    Percentage(i64),
}

/// The fee that a schedule charges on a traded amount; nothing without a
/// schedule.
pub open spec fn fee_on(schedule: Option<FeeType>, amount: int) -> int {
    match schedule {
        Some(FeeType::Flat(fee)) => fee as int,
        Some(FeeType::Percentage(fraction)) => product(amount, fraction as int),
        None => 0,
    }
}

/// A flat fee is not negative and a fraction lies between zero and one.
pub open spec fn acceptable(schedule: FeeType) -> bool {
    match schedule {
        FeeType::Flat(fee) => fee >= 0,
        FeeType::Percentage(fraction) => 0 <= fraction <= SCALE,
    }
}

impl FeeType {
    /// Decides `acceptable`.
    pub fn is_acceptable(&self) -> (r: bool)
        ensures
            r == acceptable(*self),
    {
        match self {
            FeeType::Flat(fee) => *fee >= 0,
            FeeType::Percentage(fraction) => 0 <= *fraction && *fraction <= SCALE,
        }
    }
}

/// Computes the fee on a traded amount; `None` where it cannot be stored.
pub fn charge(schedule: &Option<FeeType>, amount: i64) -> (r: Option<i64>)
    ensures
        r == stored(fee_on(*schedule, amount as int)),
{
    match schedule {
        Some(FeeType::Flat(fee)) => Some(*fee),
        Some(FeeType::Percentage(fraction)) => mul_fixed(amount, *fraction),
        None => Some(0),
    }
}

} // verus!
