//! Closed round trips and the lots they are cut from.
use vstd::prelude::*;
use crate::fixed::{
    div_trunc, fits, hundredfold, narrow, percentage, product, product_wide, stored,
};

verus! {

/// The side of a round trip; only long positions exist.
#[derive(Debug, Clone, Copy, PartialEq, Eq, Structural)]
pub enum TradeDirection {
    Long,
}

/// A buy, open until it is sold, and the sale that closes it.
#[derive(Debug, Clone)]
pub struct Trade {
    pub id: u64,
    pub asset: String,
    pub entry_time: i64,
    pub entry_price: i64,
    pub quantity: i64,
    pub entry_fees: i64,
    pub entry_slippage: i64,
    pub exit_time: Option<i64>,
    pub exit_price: Option<i64>,
    pub exit_fees: i64,
    pub exit_slippage: i64,
    /// What the round trip earned; absent while the trade is open, and where
    /// the amount cannot be stored.
    pub profit_loss: Option<i64>,
    /// The profit in percent of the entry cost; absent while the trade is
    /// open, where the entry cost is not positive, and where the figure
    /// cannot be stored.
    pub return_pct: Option<i64>,
    pub direction: TradeDirection,
}

/// The mathematical content of a trade.
pub struct TradeView {
    pub id: u64,
    pub asset: Seq<char>,
    pub entry_time: i64,
    pub entry_price: i64,
    pub quantity: i64,
    pub entry_fees: i64,
    pub entry_slippage: i64,
    pub exit_time: Option<i64>,
    pub exit_price: Option<i64>,
    pub exit_fees: i64,
    pub exit_slippage: i64,
    pub profit_loss: Option<i64>,
    pub return_pct: Option<i64>,
    pub direction: TradeDirection,
}

impl View for Trade {
    type V = TradeView;

    open spec fn view(&self) -> TradeView {
        TradeView {
            id: self.id,
            asset: self.asset@,
            entry_time: self.entry_time,
            entry_price: self.entry_price,
            quantity: self.quantity,
            entry_fees: self.entry_fees,
            entry_slippage: self.entry_slippage,
            exit_time: self.exit_time,
            exit_price: self.exit_price,
            exit_fees: self.exit_fees,
            exit_slippage: self.exit_slippage,
            profit_loss: self.profit_loss,
            return_pct: self.return_pct,
            direction: self.direction,
        }
    }
}

/// The contents of a list of trades.
pub open spec fn trade_views(trades: Seq<Trade>) -> Seq<TradeView> {
    trades.map_values(|t: Trade| t@)
}

/// What a trade cost to enter: price times quantity, plus the entry fees.
pub open spec fn entry_cost(t: TradeView) -> int {
    product(t.entry_price as int, t.quantity as int) + t.entry_fees
}

/// What leaving a trade at a price brings: price times quantity, less the
/// exit fees.
pub open spec fn exit_value(t: TradeView, exit_price: i64, exit_fees: i64) -> int {
    product(exit_price as int, t.quantity as int) - exit_fees
}

/// What a trade earns when it is left at a price.
pub open spec fn profit(t: TradeView, exit_price: i64, exit_fees: i64) -> int {
    exit_value(t, exit_price, exit_fees) - entry_cost(t)
}

/// The return of a trade left at a price, where it is defined and can be
/// stored.
pub open spec fn return_on(t: TradeView, exit_price: i64, exit_fees: i64) -> Option<i64> {
    if entry_cost(t) > 0 && fits(profit(t, exit_price, exit_fees)) {
        stored(percentage(profit(t, exit_price, exit_fees), entry_cost(t)))
    } else {
        None
    }
}

/// A trade after it was left.
pub open spec fn closed(
    t: TradeView,
    exit_time: i64,
    exit_price: i64,
    exit_fees: i64,
    exit_slippage: i64,
) -> TradeView {
    TradeView {
        exit_time: Some(exit_time),
        exit_price: Some(exit_price),
        exit_fees,
        exit_slippage,
        profit_loss: stored(profit(t, exit_price, exit_fees)),
        return_pct: return_on(t, exit_price, exit_fees),
        ..t
    }
}

impl Trade {
    /// An open trade.
    pub fn new(
        id: u64,
        asset: String,
        entry_time: i64,
        entry_price: i64,
        quantity: i64,
        entry_fees: i64,
        entry_slippage: i64,
        direction: TradeDirection,
    ) -> (r: Trade)
        ensures
            r@ == (TradeView {
                id,
                asset: asset@,
                entry_time,
                entry_price,
                quantity,
                entry_fees,
                entry_slippage,
                exit_time: None,
                exit_price: None,
                exit_fees: 0,
                exit_slippage: 0,
                profit_loss: None,
                return_pct: None,
                direction,
            }),
    {
        Trade {
            id,
            asset,
            entry_time,
            entry_price,
            quantity,
            entry_fees,
            entry_slippage,
            exit_time: None,
            exit_price: None,
            exit_fees: 0,
            exit_slippage: 0,
            profit_loss: None,
            return_pct: None,
            direction,
        }
    }

    /// A copy of the trade with the same content.
    pub fn duplicate(&self) -> (r: Trade)
        ensures
            r@ == self@,
    {
        Trade {
            id: self.id,
            asset: self.asset.clone(),
            entry_time: self.entry_time,
            entry_price: self.entry_price,
            quantity: self.quantity,
            entry_fees: self.entry_fees,
            entry_slippage: self.entry_slippage,
            exit_time: self.exit_time,
            exit_price: self.exit_price,
            exit_fees: self.exit_fees,
            exit_slippage: self.exit_slippage,
            profit_loss: self.profit_loss,
            return_pct: self.return_pct,
            direction: self.direction,
        }
    }

    /// Leaves the trade: records the exit and what the round trip earned,
    /// in money and in percent of the entry cost.
    pub fn close(&mut self, exit_time: i64, exit_price: i64, exit_fees: i64, exit_slippage: i64)
        ensures
            final(self)@ == closed(old(self)@, exit_time, exit_price, exit_fees, exit_slippage),
    {
        let cost: i128 = product_wide(self.entry_price, self.quantity) + self.entry_fees as i128;
        let value: i128 = product_wide(exit_price, self.quantity) - exit_fees as i128;
        let earned: Option<i64> = narrow(value - cost);
        let gained: Option<i64> = match earned {
            Some(pl) => {
                if cost > 0 {
                    narrow(div_trunc(hundredfold(pl as i128), cost))
                } else {
                    None
                }
            },
            None => None,
        };
        self.exit_time = Some(exit_time);
        self.exit_price = Some(exit_price);
        self.exit_fees = exit_fees;
        self.exit_slippage = exit_slippage;
        self.profit_loss = earned;
        self.return_pct = gained;
    }
}

} // verus!
