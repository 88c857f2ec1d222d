//! The trade ledger: open lots matched first in, first out against sales,
//! the round trips that result, and the equity curve.
use vstd::prelude::*;
use crate::fixed::{fits, lemma_portion_bounds, narrow, portion, product, product_wide, share};
use crate::trade::{closed, trade_views, Trade, TradeDirection, TradeView};

verus! {

/// Why an execution could not be recorded.
#[derive(Debug, Clone, Copy, PartialEq, Eq, Structural)]
pub enum TrackerError {
    /// The quantity is not positive.
    InvalidQuantity,
    /// A total, or the next lot's number, cannot be stored.
    OutOfRange,
}

/// A sale as the ledger sees it.
pub struct Sale {
    pub asset: Seq<char>,
    pub time: i64,
    pub price: i64,
    pub quantity: i64,
    pub fees: i64,
    pub slippage: i64,
}

/// The ledger as mathematics.
pub struct TrackerView {
    /// The lots not yet sold, of all symbols, oldest first.
    pub open: Seq<TradeView>,
    /// The round trips, in the order in which they were closed.
    pub closed: Seq<TradeView>,
    /// The number that the next lot gets.
    pub next_id: u64,
    /// Instants and the equity at each.
    pub equity: Seq<(i64, i64)>,
    pub initial_capital: i64,
    pub total_fees: i64,
    pub total_slippage: i64,
}

pub struct TradeTracker {
    open_trades: Vec<Trade>,
    closed_trades: Vec<Trade>,
    next_trade_id: u64,
    equity_curve: Vec<(i64, i64)>,
    initial_capital: i64,
    total_fees: i64,
    total_slippage: i64,
}

/// Every open lot holds something, and every lot and round trip carries a
/// number that was given out: one below the number that the next lot gets.
pub open spec fn well_formed(t: TrackerView) -> bool {
    &&& forall|i: int| 0 <= i < t.open.len() ==> (#[trigger] t.open[i]).quantity > 0
    &&& forall|i: int| 0 <= i < t.open.len() ==> (#[trigger] t.open[i]).id < t.next_id
    &&& forall|i: int| 0 <= i < t.closed.len() ==> (#[trigger] t.closed[i]).id < t.next_id
}

/// The totals of fees and of slippage after an execution of `quantity`, where
/// they can be stored.
pub open spec fn totals_after(t: TrackerView, quantity: i64, fees: i64, slippage: i64) -> Option<
    (i64, i64),
> {
    let total_fees: int = t.total_fees + fees;
    let total_slippage: int = t.total_slippage + product(slippage as int, quantity as int);
    if fits(total_fees) && fits(total_slippage) {
        Some((total_fees as i64, total_slippage as i64))
    } else {
        None
    }
}

/// The lot that a buy opens.
pub open spec fn lot_of(
    id: u64,
    asset: Seq<char>,
    time: i64,
    price: i64,
    quantity: i64,
    fees: i64,
    slippage: i64,
) -> TradeView {
    TradeView {
        id,
        asset,
        entry_time: time,
        entry_price: price,
        quantity,
        entry_fees: fees,
        entry_slippage: slippage,
        exit_time: None,
        exit_price: None,
        exit_fees: 0,
        exit_slippage: 0,
        profit_loss: None,
        return_pct: None,
        direction: TradeDirection::Long,
    }
}

/// The ledger after a buy: the totals grow and a new lot joins the queue;
/// or the reason why nothing changes.
pub open spec fn after_buy(
    t: TrackerView,
    asset: Seq<char>,
    time: i64,
    price: i64,
    quantity: i64,
    fees: i64,
    slippage: i64,
) -> Result<TrackerView, TrackerError> {
    if quantity <= 0 {
        Err(TrackerError::InvalidQuantity)
    } else {
        match totals_after(t, quantity, fees, slippage) {
            None => Err(TrackerError::OutOfRange),
            Some(totals) => if t.next_id == u64::MAX {
                Err(TrackerError::OutOfRange)
            } else {
                Ok(
                    TrackerView {
                        open: t.open.push(
                            lot_of(t.next_id, asset, time, price, quantity, fees, slippage),
                        ),
                        next_id: (t.next_id + 1) as u64,
                        total_fees: totals.0,
                        total_slippage: totals.1,
                        ..t
                    },
                )
            },
        }
    }
}

/// The round trip that closes `matched` units of a lot in a sale: the lot's
/// entry fees and slippage by the fraction of the lot, the sale's fees and
/// slippage by the fraction of the sale.
pub open spec fn cut(lot: TradeView, matched: i64, sale: Sale) -> TradeView {
    closed(
        TradeView {
            quantity: matched,
            entry_fees: portion(lot.entry_fees as int, matched as int, lot.quantity as int) as i64,
            entry_slippage: portion(
                lot.entry_slippage as int,
                matched as int,
                lot.quantity as int,
            ) as i64,
            ..lot
        },
        sale.time,
        sale.price,
        portion(sale.fees as int, matched as int, sale.quantity as int) as i64,
        portion(sale.slippage as int, matched as int, sale.quantity as int) as i64,
    )
}

/// What is left of a lot after `matched` units of it were sold: the quantity
/// and the entry fees shrink by the fraction sold.
pub open spec fn rest(lot: TradeView, matched: i64) -> TradeView {
    TradeView {
        quantity: (lot.quantity - matched) as i64,
        entry_fees: (lot.entry_fees - portion(
            lot.entry_fees as int,
            matched as int,
            lot.quantity as int,
        )) as i64,
        ..lot
    }
}

/// The smaller of two quantities.
pub open spec fn least(a: i64, b: i64) -> i64 {
    if a < b {
        a
    } else {
        b
    }
}

/// The ledger after `remaining` units of a sale were matched against the
/// lots from place `k` on, oldest first. A lot of another symbol is passed
/// over; a lot that the sale uses up becomes a round trip; a lot larger than
/// what remains gives a round trip of that size and stays, smaller. What
/// remains when the lots run out is dropped.
pub open spec fn settle(t: TrackerView, k: int, sale: Sale, remaining: i64) -> TrackerView
    decreases t.open.len() - k,
    when 0 <= k
{
    if k >= t.open.len() || remaining <= 0 {
        t
    } else if t.open[k].asset != sale.asset {
        settle(t, k + 1, sale, remaining)
    } else {
        let lot: TradeView = t.open[k];
        let matched: i64 = least(remaining, lot.quantity);
        if matched == lot.quantity {
            settle(
                TrackerView {
                    open: t.open.remove(k),
                    closed: t.closed.push(cut(lot, matched, sale)),
                    ..t
                },
                k,
                sale,
                (remaining - matched) as i64,
            )
        } else {
            TrackerView {
                open: t.open.update(k, rest(lot, matched)),
                closed: t.closed.push(cut(lot, matched, sale)),
                ..t
            }
        }
    }
}

/// The ledger after a sale: the totals grow and the sale is matched against
/// the open lots of its symbol; or the reason why nothing changes.
pub open spec fn after_sell(t: TrackerView, sale: Sale) -> Result<TrackerView, TrackerError> {
    if sale.quantity <= 0 {
        Err(TrackerError::InvalidQuantity)
    } else {
        match totals_after(t, sale.quantity, sale.fees, sale.slippage) {
            None => Err(TrackerError::OutOfRange),
            Some(totals) => Ok(
                settle(
                    TrackerView { total_fees: totals.0, total_slippage: totals.1, ..t },
                    0,
                    sale,
                    sale.quantity,
                ),
            ),
        }
    }
}

impl View for TradeTracker {
    type V = TrackerView;

    closed spec fn view(&self) -> TrackerView {
        TrackerView {
            open: trade_views(self.open_trades@),
            closed: trade_views(self.closed_trades@),
            next_id: self.next_trade_id,
            equity: self.equity_curve@,
            initial_capital: self.initial_capital,
            total_fees: self.total_fees,
            total_slippage: self.total_slippage,
        }
    }
}

impl TradeTracker {
    /// The invariant that every operation keeps.
    pub open spec fn wf(&self) -> bool {
        well_formed(self@)
    }

    /// An empty ledger; the first lot will be number one.
    pub fn new() -> (r: TradeTracker)
        ensures
            r.wf(),
            r@ == (TrackerView {
                open: Seq::empty(),
                closed: Seq::empty(),
                next_id: 1,
                equity: Seq::empty(),
                initial_capital: 0,
                total_fees: 0,
                total_slippage: 0,
            }),
    {
        let r: TradeTracker = TradeTracker {
            open_trades: Vec::new(),
            closed_trades: Vec::new(),
            next_trade_id: 1,
            equity_curve: Vec::new(),
            initial_capital: 0,
            total_fees: 0,
            total_slippage: 0,
        };
        proof {
            assert(r@.open =~= Seq::empty());
            assert(r@.closed =~= Seq::empty());
            assert(r@.equity =~= Seq::empty());
        }
        r
    }

    pub fn set_initial_capital(&mut self, capital: i64)
        ensures
            final(self)@ == (TrackerView { initial_capital: capital, ..old(self)@ }),
    {
        self.initial_capital = capital;
    }

    pub fn initial_capital(&self) -> (r: i64)
        ensures
            r == self@.initial_capital,
    {
        self.initial_capital
    }

    pub fn total_fees(&self) -> (r: i64)
        ensures
            r == self@.total_fees,
    {
        self.total_fees
    }

    pub fn total_slippage(&self) -> (r: i64)
        ensures
            r == self@.total_slippage,
    {
        self.total_slippage
    }

    /// The totals after an execution; `None` where they cannot be stored.
    fn totals(&self, quantity: i64, fees: i64, slippage: i64) -> (r: Option<(i64, i64)>)
        ensures
            r == totals_after(self@, quantity, fees, slippage),
    {
        let total_fees: i64 = match crate::fixed::add_fixed(self.total_fees, fees) {
            Some(t) => t,
            None => { return None; },
        };
        let cost: i128 = product_wide(slippage, quantity);
        match narrow(self.total_slippage as i128 + cost) {
            Some(total_slippage) => Some((total_fees, total_slippage)),
            None => None,
        }
    }

    /// Records a buy: a new lot joins the queue of open lots. Fails,
    /// changing nothing, for a quantity that is not positive and where a
    /// total or the lot's number cannot be stored.
    pub fn record_buy(
        &mut self,
        asset: &str,
        time: i64,
        price: i64,
        quantity: i64,
        fees: i64,
        slippage: i64,
    ) -> (r: Result<(), TrackerError>)
        requires
            old(self).wf(),
        ensures
            final(self).wf(),
            match r {
                Ok(_) => after_buy(old(self)@, asset@, time, price, quantity, fees, slippage) == Ok::<
                    TrackerView,
                    TrackerError,
                >(final(self)@),
                Err(e) => after_buy(old(self)@, asset@, time, price, quantity, fees, slippage)
                    == Err::<TrackerView, TrackerError>(e) && final(self)@ == old(self)@,
            },
    {
        if quantity <= 0 {
            return Err(TrackerError::InvalidQuantity);
        }
        let totals: (i64, i64) = match self.totals(quantity, fees, slippage) {
            Some(t) => t,
            None => { return Err(TrackerError::OutOfRange); },
        };
        if self.next_trade_id == u64::MAX {
            return Err(TrackerError::OutOfRange);
        }
        let trade: Trade = Trade::new(
            self.next_trade_id,
            asset.to_owned(),
            time,
            price,
            quantity,
            fees,
            slippage,
            TradeDirection::Long,
        );
        self.total_fees = totals.0;
        self.total_slippage = totals.1;
        self.next_trade_id = self.next_trade_id + 1;
        self.open_trades.push(trade);
        proof {
            assert(trade_views(self.open_trades@) =~= trade_views(old(self).open_trades@).push(
                trade@,
            ));
        }
        Ok(())
    }

    /// Records a sale: the open lots of the symbol are used up oldest first,
    /// each giving a round trip. Fails, changing nothing, for a quantity
    /// that is not positive and where a total cannot be stored.
    pub fn record_sell(
        &mut self,
        asset: &str,
        time: i64,
        price: i64,
        quantity: i64,
        fees: i64,
        slippage: i64,
    ) -> (r: Result<(), TrackerError>)
        requires
            old(self).wf(),
        ensures
            final(self).wf(),
            match r {
                Ok(_) => after_sell(
                    old(self)@,
                    Sale { asset: asset@, time, price, quantity, fees, slippage },
                ) == Ok::<TrackerView, TrackerError>(final(self)@),
                Err(e) => after_sell(
                    old(self)@,
                    Sale { asset: asset@, time, price, quantity, fees, slippage },
                ) == Err::<TrackerView, TrackerError>(e) && final(self)@ == old(self)@,
            },
    {
        if quantity <= 0 {
            return Err(TrackerError::InvalidQuantity);
        }
        let totals: (i64, i64) = match self.totals(quantity, fees, slippage) {
            Some(t) => t,
            None => { return Err(TrackerError::OutOfRange); },
        };
        self.total_fees = totals.0;
        self.total_slippage = totals.1;
        let name: String = asset.to_owned();
        let ghost sale: Sale = Sale { asset: asset@, time, price, quantity, fees, slippage };
        let ghost start: TrackerView = self@;
        let mut remaining: i64 = quantity;
        let mut k: usize = 0;
        while k < self.open_trades.len() && remaining > 0
            invariant
                self.wf(),
                quantity > 0,
                0 <= remaining <= quantity,
                k <= self.open_trades.len(),
                name@ == asset@,
                sale == (Sale { asset: asset@, time, price, quantity, fees, slippage }),
                settle(self@, k as int, sale, remaining) == settle(start, 0, sale, quantity),
            decreases self.open_trades.len() - k,
        {
            let ghost here: TrackerView = self@;
            proof {
                assert(here.open[k as int] == self.open_trades@[k as int]@);
            }
            if !(self.open_trades[k].asset == name) {
                k += 1;
            } else {
                let held: i64 = self.open_trades[k].quantity;
                let matched: i64 = if remaining < held { remaining } else { held };
                let exit_fees: i64 = share(fees, matched, quantity);
                let exit_slippage: i64 = share(slippage, matched, quantity);
                let ghost lot: TradeView = here.open[k as int];
                if matched == held {
                    let mut trade: Trade = self.open_trades.remove(k);
                    proof {
                        lemma_portion_bounds(trade.entry_fees as int, held as int, held as int);
                        lemma_portion_bounds(trade.entry_slippage as int, held as int, held as int);
                        assert(trade@ == lot);
                    }
                    trade.close(time, price, exit_fees, exit_slippage);
                    self.closed_trades.push(trade);
                    proof {
                        assert(self@.open =~= here.open.remove(k as int));
                        assert(self@.closed =~= here.closed.push(cut(lot, matched, sale)));
                        assert forall|i: int| 0 <= i < self@.open.len() implies (
                        #[trigger] self@.open[i]).quantity > 0 by {
                            let a: int = if i < k { i } else { i + 1 };
                            assert(self@.open[i] == here.open[a]);
                        }
                    }
                } else {
                    let mut piece: Trade = self.open_trades[k].duplicate();
                    let entry_fees: i64 = share(piece.entry_fees, matched, held);
                    let entry_slippage: i64 = share(piece.entry_slippage, matched, held);
                    proof {
                        lemma_portion_bounds(piece.entry_fees as int, matched as int, held as int);
                    }
                    let fees_left: i64 = piece.entry_fees - entry_fees;
                    piece.quantity = matched;
                    piece.entry_fees = entry_fees;
                    piece.entry_slippage = entry_slippage;
                    piece.close(time, price, exit_fees, exit_slippage);
                    self.closed_trades.push(piece);
                    self.open_trades[k].quantity = held - matched;
                    self.open_trades[k].entry_fees = fees_left;
                    proof {
                        assert(self@.open =~= here.open.update(k as int, rest(lot, matched)));
                        assert(self@.closed =~= here.closed.push(cut(lot, matched, sale)));
                    }
                    k += 1;
                }
                remaining = remaining - matched;
            }
        }
        Ok(())
    }

    /// Appends a point to the equity curve.
    pub fn record_equity_snapshot(&mut self, time: i64, total_value: i64)
        ensures
            final(self)@ == (TrackerView {
                equity: old(self)@.equity.push((time, total_value)),
                ..old(self)@
            }),
    {
        self.equity_curve.push((time, total_value));
    }

    /// The round trips, in the order in which they were closed.
    pub fn get_closed_trades(&self) -> (r: &[Trade])
        ensures
            trade_views(r@) == self@.closed,
    {
        self.closed_trades.as_slice()
    }

    /// The lots not yet sold, oldest first.
    pub fn get_open_trades(&self) -> (r: &[Trade])
        ensures
            trade_views(r@) == self@.open,
    {
        self.open_trades.as_slice()
    }

    /// The equity curve.
    pub fn get_equity_curve(&self) -> (r: &[(i64, i64)])
        ensures
            r@ == self@.equity,
    {
        self.equity_curve.as_slice()
    }
}

} // verus!
