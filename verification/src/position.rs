//! Long holdings of one symbol.
use vstd::prelude::*;
use crate::fixed::{mean_weighted, weighted_mean};

verus! {

/// A long holding: how much is held and what it cost on average.
#[derive(Debug, Clone, Copy, PartialEq, Eq, Structural)]
pub struct Position {
    pub quantity: i64,
    pub average_price: i64,
}

/// Why a holding could not be reduced.
#[derive(Debug, Clone, Copy, PartialEq, Eq, Structural)]
pub enum PositionError {
    /// More was to be removed than is held.
    InsufficientQuantity,
}

impl PositionError {
    /// The error in words.
    pub fn message(&self) -> (r: &'static str)
        ensures
            r@ == "Cannot remove more than the available quantity."@,
    {
        "Cannot remove more than the available quantity."
    }
}

impl Position {
    pub fn new(quantity: i64, price: i64) -> (r: Position)
        ensures
            r.quantity == quantity,
            r.average_price == price,
    {
        Position { quantity, average_price: price }
    }

    /// Adds `quantity` bought at `price`: the average price becomes the
    /// cost-weighted mean of the old holding and the addition.
    pub fn update(&mut self, quantity: i64, price: i64)
        requires
            old(self).quantity >= 0,
            quantity > 0,
            old(self).quantity + quantity <= i64::MAX,
        ensures
            final(self).quantity == old(self).quantity + quantity,
            final(self).average_price == weighted_mean(
                old(self).average_price as int,
                old(self).quantity as int,
                price as int,
                quantity as int,
            ),
    {
        let average: i64 = mean_weighted(self.average_price, self.quantity, price, quantity);
        self.quantity = self.quantity + quantity;
        self.average_price = average;
    }

    /// Takes `quantity` out of the holding, which keeps its average price;
    /// fails, changing nothing, where more is asked than is held.
    pub fn remove(&mut self, quantity: i64) -> (r: Result<(), PositionError>)
        requires
            quantity >= 0,
        ensures
            r.is_err() <==> quantity > old(self).quantity,
            r.is_err() ==> *final(self) == *old(self),
            r.is_ok() ==> final(self).quantity == old(self).quantity - quantity,
            r.is_ok() ==> final(self).average_price == old(self).average_price,
    {
        if quantity > self.quantity {
            return Err(PositionError::InsufficientQuantity);
        }
        self.quantity = self.quantity - quantity;
        Ok(())
    }
}

} // verus!
