//! Pending instructions to the broker.
use vstd::prelude::*;

verus! {

/// How an order is triggered against the opening price of a tick.
#[derive(Debug, Clone, Copy, PartialEq, Eq, Structural)]
pub enum OrderType {
    /// Executes at the next tick, whatever the price.
    Market,
    /// Buys at or below the price, sells at or above it.
    Limit(i64),
    /// Buys at or above the price, sells at or below it.
    Stop(i64),
}

/// The side of an order.
#[derive(Debug, Clone, Copy, PartialEq, Eq, Structural)]
pub enum OrderDirection {
    Buy,
    Sell,
}

/// An instruction waiting in the order book.
#[derive(Debug, Clone)]
pub struct Order {
    /// The symbol traded.
    pub asset: String,
    pub direction: OrderDirection,
    /// The quantity, in millionths of a unit.
    pub size: i64,
    pub order_type: OrderType,
    /// The last instant, in seconds, at which the order is still live.
    pub valid_until: Option<i64>,
}

/// The mathematical content of an order.
pub struct OrderView {
    pub asset: Seq<char>,
    pub direction: OrderDirection,
    pub size: i64,
    pub order_type: OrderType,
    pub valid_until: Option<i64>,
}

impl View for Order {
    type V = OrderView;

    open spec fn view(&self) -> OrderView {
        OrderView {
            asset: self.asset@,
            direction: self.direction,
            size: self.size,
            order_type: self.order_type,
            valid_until: self.valid_until,
        }
    }
}

/// Whether an order has outlived its expiry at `now`: only an instant
/// strictly after `valid_until` drops it.
pub open spec fn expired(valid_until: Option<i64>, now: i64) -> bool {
    match valid_until {
        Some(limit) => now > limit,
        None => false,
    }
}

/// Whether an order of the given kind and side fires at the opening price.
pub open spec fn triggers(order_type: OrderType, direction: OrderDirection, open: i64) -> bool {
    match order_type {
        OrderType::Market => true,
        OrderType::Limit(p) => match direction {
            OrderDirection::Buy => open <= p,
            OrderDirection::Sell => open >= p,
        },
        OrderType::Stop(p) => match direction {
            OrderDirection::Buy => open >= p,
            OrderDirection::Sell => open <= p,
        },
    }
}

impl Order {
    /// A copy of the order with the same content.
    pub fn duplicate(&self) -> (r: Order)
        ensures
            r@ == self@,
    {
        Order {
            asset: self.asset.clone(),
            direction: self.direction,
            size: self.size,
            order_type: self.order_type,
            valid_until: self.valid_until,
        }
    }

    /// Whether the order is past its expiry at `now`.
    pub fn is_expired(&self, now: i64) -> (r: bool)
        ensures
            r == expired(self.valid_until, now),
    {
        match self.valid_until {
            Some(limit) => now > limit,
            None => false,
        }
    }

    /// Whether the order fires at the opening price `open`.
    pub fn is_triggered(&self, open: i64) -> (r: bool)
        ensures
            r == triggers(self.order_type, self.direction, open),
    {
        match self.order_type {
            OrderType::Market => true,
            OrderType::Limit(p) => match self.direction {
                OrderDirection::Buy => open <= p,
                OrderDirection::Sell => open >= p,
            },
            OrderType::Stop(p) => match self.direction {
                OrderDirection::Buy => open >= p,
                OrderDirection::Sell => open <= p,
            },
        }
    }
}

} // verus!
