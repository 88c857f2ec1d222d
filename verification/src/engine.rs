//! The scheduler: it advances simulated time over the price feed and, at
//! each tick, lets the broker execute, the ledger record and the strategy
//! act, in that order.
use vstd::prelude::*;
use crate::broker::{
    fill_views, handled, portfolio_worth, Broker, BrokerView, Fill, FillView,
};
use crate::data::{strictly_ordered, OHLCVData};
use crate::fixed::{add_fixed, stored};
use crate::metrics::{metrics_of, GlobalMetrics};
use crate::order::OrderDirection;
use crate::strategy::{only_placed, Strategy};
use crate::tracker::{
    after_buy, after_sell, settle, Sale, TrackerError, TrackerView, TradeTracker,
};
use crate::trade::{trade_views, Trade};

verus! {

/// The yearly risk-free rate that the Sharpe ratio is measured against:
/// three percent.
pub const RISK_FREE_RATE: i64 = 30_000;

/// The tick of an engine that was given none: one minute.
pub const DEFAULT_TICK: i64 = 60;

/// Why a run produced no result.
#[derive(Debug, Clone, Copy, PartialEq, Eq, Structural)]
pub enum EngineError {
    /// There is no price to run on.
    DataFeedEmpty,
    /// The tick is not positive, so time would not advance.
    InvalidTick,
    /// An amount of the run cannot be stored.
    OutOfRange,
}

impl EngineError {
    /// The error in words.
    pub fn message(&self) -> (r: &'static str)
        ensures
            r@ == match *self {
                EngineError::DataFeedEmpty => "Error: Data feed is empty."@,
                EngineError::InvalidTick => "Error: Tick must be positive."@,
                EngineError::OutOfRange => "Error: Amount out of range."@,
            },
    {
        match self {
            EngineError::DataFeedEmpty => "Error: Data feed is empty.",
            EngineError::InvalidTick => "Error: Tick must be positive.",
            EngineError::OutOfRange => "Error: Amount out of range.",
        }
    }
}

/// What a run produces: the round trips and the figures drawn from them.
#[derive(Debug)]
pub struct BacktestResult {
    pub trades: Vec<Trade>,
    pub metrics: GlobalMetrics,
}

pub struct Engine<S: Strategy> {
    pub broker: Broker,
    pub data_feed: Vec<OHLCVData>,
    pub strategy: S,
    /// The first and the last instant of the run, in seconds.
    pub time_range: (i64, i64),
    /// The seconds between two ticks.
    pub tick: i64,
    /// The ledger of the last run.
    pub tracker: TradeTracker,
}

/// The place in the feed of the sample that is current at `now`, starting
/// from place `index`: the feed is followed for as long as the next sample
/// is not in the future.
pub open spec fn caught_up(feed: Seq<OHLCVData>, index: int, now: i64) -> int
    decreases feed.len() - index,
    when index >= 0
{
    if index + 1 < feed.len() && feed[index + 1].timestamp <= now {
        caught_up(feed, index + 1, now)
    } else {
        index
    }
}

/// The ledger after one execution was reported to it.
pub open spec fn noted(t: TrackerView, f: FillView) -> Result<TrackerView, TrackerError> {
    match f.direction {
        OrderDirection::Buy => after_buy(t, f.asset, f.time, f.price, f.size, f.fees, f.slippage),
        OrderDirection::Sell => after_sell(
            t,
            Sale {
                asset: f.asset,
                time: f.time,
                price: f.price,
                quantity: f.size,
                fees: f.fees,
                slippage: f.slippage,
            },
        ),
    }
}

/// The ledger after the first `k` executions of a list were reported to it,
/// each once and in their order; or the first failure.
pub open spec fn recorded(t: TrackerView, fills: Seq<FillView>, k: int) -> Result<
    TrackerView,
    TrackerError,
>
    decreases k,
{
    if k <= 0 {
        Ok(t)
    } else {
        match recorded(t, fills, k - 1) {
            Err(e) => Err(e),
            Ok(mid) => noted(mid, fills[k - 1]),
        }
    }
}

/// The equity of a broker at a closing price: cash plus the worth of what is
/// held; absent where it cannot be stored.
pub open spec fn equity_of(b: BrokerView, close: i64) -> Option<i64> {
    match portfolio_worth(b.portfolio, close) {
        Some(worth) => stored(b.cash + worth),
        None => None,
    }
}

/// The broker and the ledger after the market's part of a tick: the pending
/// orders are examined at the opening price, every execution is reported to
/// the ledger, and the equity at the closing price is noted.
pub open spec fn stepped(b: BrokerView, t: TrackerView, now: i64, sample: OHLCVData) -> Result<
    (BrokerView, TrackerView),
    EngineError,
> {
    let after: (BrokerView, Seq<FillView>) = handled(b, now, sample.open);
    match recorded(t, after.1, after.1.len() as int) {
        Err(_) => Err(EngineError::OutOfRange),
        Ok(ledger) => match equity_of(after.0, sample.close) {
            None => Err(EngineError::OutOfRange),
            Some(equity) => Ok(
                (after.0, TrackerView { equity: ledger.equity.push((now, equity)), ..ledger }),
            ),
        },
    }
}

/// How many ticks a run has: none where it starts after its end; else the
/// first, and one more for every further tick that lies neither after the
/// end nor after the last sample.
pub open spec fn tick_count(start: i64, end: i64, tick: i64, last: i64) -> int {
    if start > end {
        0
    } else {
        let bound: i64 = if end < last { end } else { last };
        if bound < start {
            1
        } else {
            1 + (bound - start) / (tick as int)
        }
    }
}

/// The place in the feed of the sample that is current at tick `j` of a
/// run: the feed is followed from where the tick before left it.
pub open spec fn sample_at(feed: Seq<OHLCVData>, start: i64, tick: i64, j: int) -> int
    decreases j,
{
    if j <= 0 {
        caught_up(feed, 0, start)
    } else {
        caught_up(feed, sample_at(feed, start, tick, j - 1), (start + j * tick) as i64)
    }
}

/// The ledger at the start of a run: empty, with the capital at hand.
pub open spec fn fresh_ledger(capital: i64) -> TrackerView {
    TrackerView {
        open: Seq::empty(),
        closed: Seq::empty(),
        next_id: 1,
        equity: Seq::empty(),
        initial_capital: capital,
        total_fees: 0,
        total_slippage: 0,
    }
}

/// Whether tick `j` leads from the strategy, the broker and the ledger at
/// place `j` to those at place `j + 1`: first the market's part of the tick,
/// on the sample that is current; then the strategy, which is given the
/// instant, that sample and the broker, places orders and does nothing else
/// to the broker, and leaves it well formed.
pub open spec fn ticked<S: Strategy>(
    feed: Seq<OHLCVData>,
    start: i64,
    tick: i64,
    strategies: Seq<S>,
    brokers: Seq<BrokerView>,
    ledgers: Seq<TrackerView>,
    j: int,
) -> bool {
    &&& stepped(
        brokers[j],
        ledgers[j],
        (start + j * tick) as i64,
        feed[sample_at(feed, start, tick, j)],
    ) matches Ok(next)
    &&& ledgers[j + 1] == next.1
    &&& only_placed(next.0, brokers[j + 1])
    &&& crate::broker::well_formed(brokers[j + 1])
    &&& S::reacts(
        strategies[j],
        (start + j * tick) as i64,
        Some(feed[sample_at(feed, start, tick, j)]),
        next.0,
        strategies[j + 1],
        brokers[j + 1],
    )
}

/// Whether strategies, brokers and ledgers are those of a run, tick after
/// tick, from a broker and a fresh ledger on.
pub open spec fn is_run<S: Strategy>(
    feed: Seq<OHLCVData>,
    start: i64,
    tick: i64,
    first: BrokerView,
    strategies: Seq<S>,
    brokers: Seq<BrokerView>,
    ledgers: Seq<TrackerView>,
) -> bool {
    &&& brokers.len() >= 1
    &&& brokers.len() == ledgers.len()
    &&& brokers.len() == strategies.len()
    &&& brokers[0] == first
    &&& ledgers[0] == fresh_ledger(first.cash)
    &&& forall|j: int|
        0 <= j < brokers.len() - 1 ==> #[trigger] ticked(
            feed,
            start,
            tick,
            strategies,
            brokers,
            ledgers,
            j,
        )
}

/// Whether a run that got as far as these brokers and ledgers stops there
/// for an amount that cannot be stored: in the market's part of a tick that
/// was still to come, or, after the last tick, in the worth of what is held
/// at the last closing price.
pub open spec fn stopped(
    feed: Seq<OHLCVData>,
    start: i64,
    end: i64,
    tick: i64,
    brokers: Seq<BrokerView>,
    ledgers: Seq<TrackerView>,
) -> bool {
    let ticks: int = tick_count(start, end, tick, feed.last().timestamp);
    &&& brokers.len() <= 1 + ticks
    &&& if brokers.len() <= ticks {
        stepped(
            brokers.last(),
            ledgers.last(),
            (start + (brokers.len() - 1) * tick) as i64,
            feed[sample_at(feed, start, tick, brokers.len() - 1)],
        ).is_err()
    } else {
        portfolio_worth(brokers.last().portfolio, feed.last().close).is_none()
    }
}

/// The broker that a run leaves behind when it stops as `stopped` says: in
/// the market's part of a tick the broker has examined its book; after the
/// last tick it is the last broker.
pub open spec fn left_at(
    feed: Seq<OHLCVData>,
    start: i64,
    end: i64,
    tick: i64,
    brokers: Seq<BrokerView>,
) -> BrokerView {
    if brokers.len() <= tick_count(start, end, tick, feed.last().timestamp) {
        handled(
            brokers.last(),
            (start + (brokers.len() - 1) * tick) as i64,
            feed[sample_at(feed, start, tick, brokers.len() - 1)].open,
        ).0
    } else {
        brokers.last()
    }
}

/// The points of a curve lie one tick apart, from `start` on.
pub open spec fn paced(curve: Seq<(i64, i64)>, start: i64, tick: i64) -> bool {
    forall|j: int| 0 <= j < curve.len() ==> (#[trigger] curve[j]).0 == start + j * tick
}

/// The instants of a curve strictly increase.
pub open spec fn increasing_in_time(curve: Seq<(i64, i64)>) -> bool {
    forall|i: int, j: int| 0 <= i < j < curve.len() ==> curve[i].0 < curve[j].0
}

/// A curve whose points lie a positive tick apart increases in time.
pub proof fn lemma_paced_increases(curve: Seq<(i64, i64)>, start: i64, tick: i64)
    requires
        paced(curve, start, tick),
        tick > 0,
    ensures
        increasing_in_time(curve),
{
    assert forall|i: int, j: int| 0 <= i < j < curve.len() implies curve[i].0 < curve[j].0 by {
        assert(curve[i].0 == start + i * tick);
        assert(curve[j].0 == start + j * tick);
        assert(i * tick < j * tick) by (nonlinear_arith)
            requires
                i < j,
                tick > 0,
        ;
    }
}

/// A run whose second tick would lie after the last sample has at most one
/// tick.
pub proof fn lemma_one_tick(start: i64, end: i64, tick: i64, last: i64)
    requires
        tick > 0,
        start + tick > last,
    ensures
        tick_count(start, end, tick, last) <= 1,
{
    let bound: i64 = if end < last { end } else { last };
    if start <= end && bound >= start {
        assert((bound - start) / (tick as int) == 0) by (nonlinear_arith)
            requires
                0 <= bound - start < tick,
        ;
    }
}

/// Reporting executions to the ledger leaves the equity curve and the
/// capital alone.
pub proof fn lemma_recorded_keeps(t: TrackerView, fills: Seq<FillView>, k: int)
    requires
        recorded(t, fills, k).is_ok(),
    ensures
        recorded(t, fills, k).unwrap().equity == t.equity,
        recorded(t, fills, k).unwrap().initial_capital == t.initial_capital,
    decreases k,
{
    if k > 0 {
        lemma_recorded_keeps(t, fills, k - 1);
        let mid: TrackerView = recorded(t, fills, k - 1).unwrap();
        let f: FillView = fills[k - 1];
        if f.direction == OrderDirection::Sell {
            let totals: (i64, i64) = crate::tracker::totals_after(
                mid,
                f.size,
                f.fees,
                f.slippage,
            ).unwrap();
            lemma_settle_keeps_any(
                TrackerView { total_fees: totals.0, total_slippage: totals.1, ..mid },
                0,
                Sale {
                    asset: f.asset,
                    time: f.time,
                    price: f.price,
                    quantity: f.size,
                    fees: f.fees,
                    slippage: f.slippage,
                },
                f.size,
            );
        }
    }
}

/// Matching a sale leaves the equity curve, the capital, the totals and the
/// numbering of lots alone.
pub proof fn lemma_settle_keeps_any(t: TrackerView, k: int, sale: Sale, remaining: i64)
    requires
        0 <= k,
    ensures
        settle(t, k, sale, remaining).equity == t.equity,
        settle(t, k, sale, remaining).initial_capital == t.initial_capital,
        settle(t, k, sale, remaining).next_id == t.next_id,
        settle(t, k, sale, remaining).total_fees == t.total_fees,
        settle(t, k, sale, remaining).total_slippage == t.total_slippage,
    decreases t.open.len() - k,
{
    if k < t.open.len() && remaining > 0 {
        if t.open[k].asset != sale.asset {
            lemma_settle_keeps_any(t, k + 1, sale, remaining);
        } else {
            let lot: crate::trade::TradeView = t.open[k];
            let matched: i64 = crate::tracker::least(remaining, lot.quantity);
            if matched == lot.quantity {
                lemma_settle_keeps_any(
                    TrackerView {
                        open: t.open.remove(k),
                        closed: t.closed.push(crate::tracker::cut(lot, matched, sale)),
                        ..t
                    },
                    k,
                    sale,
                    (remaining - matched) as i64,
                );
            }
        }
    }
}

/// In a feed ordered by time, following the feed from a sample that is not
/// in the future ends at the latest sample that is not in the future.
pub proof fn lemma_caught_up_is_latest(feed: Seq<OHLCVData>, index: int, now: i64)
    requires
        strictly_ordered(feed),
        0 <= index < feed.len(),
        feed[index].timestamp <= now,
    ensures
        index <= caught_up(feed, index, now) < feed.len(),
        feed[caught_up(feed, index, now)].timestamp <= now,
        forall|j: int|
            caught_up(feed, index, now) < j < feed.len() ==> (#[trigger] feed[j]).timestamp > now,
    decreases feed.len() - index,
{
    if index + 1 < feed.len() && feed[index + 1].timestamp <= now {
        lemma_caught_up_is_latest(feed, index + 1, now);
    } else {
        assert forall|j: int| index < j < feed.len() implies (#[trigger] feed[j]).timestamp
            > now by {
            if j > index + 1 {
                assert(feed[index + 1].timestamp < feed[j].timestamp);
            }
        }
    }
}

/// Following the feed ends at a sample of the feed.
pub proof fn lemma_caught_up_in_feed(feed: Seq<OHLCVData>, index: int, now: i64)
    requires
        0 <= index < feed.len(),
    ensures
        index <= caught_up(feed, index, now) < feed.len(),
    decreases feed.len() - index,
{
    if index + 1 < feed.len() && feed[index + 1].timestamp <= now {
        lemma_caught_up_in_feed(feed, index + 1, now);
    }
}

/// The sample that is current at a tick is a sample of the feed.
pub proof fn lemma_sample_in_feed(feed: Seq<OHLCVData>, start: i64, tick: i64, j: int)
    requires
        feed.len() > 0,
    ensures
        0 <= sample_at(feed, start, tick, j) < feed.len(),
    decreases j,
{
    if j <= 0 {
        lemma_caught_up_in_feed(feed, 0, start);
    } else {
        lemma_sample_in_feed(feed, start, tick, j - 1);
        lemma_caught_up_in_feed(
            feed,
            sample_at(feed, start, tick, j - 1),
            (start + j * tick) as i64,
        );
    }
}

/// How many of the first `k` executions of a list are buys.
pub open spec fn buys_among(fills: Seq<FillView>, k: int) -> int
    decreases k,
{
    if k <= 0 {
        0
    } else {
        buys_among(fills, k - 1) + (if fills[k - 1].direction == OrderDirection::Buy {
            1int
        } else {
            0int
        })
    }
}

/// Every execution reaches the ledger once: each buy opens one lot, which
/// gets the next number, and no sale opens any.
pub proof fn lemma_each_buy_opens_one_lot(t: TrackerView, fills: Seq<FillView>, k: int)
    requires
        recorded(t, fills, k).is_ok(),
    ensures
        recorded(t, fills, k).unwrap().next_id == t.next_id + buys_among(fills, k),
    decreases k,
{
    if k > 0 {
        lemma_each_buy_opens_one_lot(t, fills, k - 1);
        let mid: TrackerView = recorded(t, fills, k - 1).unwrap();
        let f: FillView = fills[k - 1];
        if f.direction == OrderDirection::Sell {
            let totals: (i64, i64) = crate::tracker::totals_after(
                mid,
                f.size,
                f.fees,
                f.slippage,
            ).unwrap();
            lemma_settle_keeps_any(
                TrackerView { total_fees: totals.0, total_slippage: totals.1, ..mid },
                0,
                Sale {
                    asset: f.asset,
                    time: f.time,
                    price: f.price,
                    quantity: f.size,
                    fees: f.fees,
                    slippage: f.slippage,
                },
                f.size,
            );
        }
    }
}

/// Follows the feed from place `index` to the sample that is current at
/// `now`: in a feed ordered by time, and from a sample that is not in the
/// future, that is the latest sample that is not in the future.
pub fn catch_up(feed: &Vec<OHLCVData>, index: usize, now: i64) -> (r: usize)
    requires
        index < feed.len(),
    ensures
        r == caught_up(feed@, index as int, now),
        index <= r < feed.len(),
        strictly_ordered(feed@) && feed@[index as int].timestamp <= now ==> feed@[r as int].timestamp
            <= now && forall|j: int| r < j < feed@.len() ==> (#[trigger] feed@[j]).timestamp > now,
{
    proof {
        if strictly_ordered(feed@) && feed@[index as int].timestamp <= now {
            lemma_caught_up_is_latest(feed@, index as int, now);
        }
    }
    let mut place: usize = index;
    while place + 1 < feed.len() && feed[place + 1].timestamp <= now
        invariant
            index <= place < feed.len(),
            caught_up(feed@, place as int, now) == caught_up(feed@, index as int, now),
        decreases feed.len() - place,
    {
        place += 1;
    }
    place
}

/// Reports executions to the ledger, each once and in their order, and
/// stops at the first that the ledger refuses.
pub fn record_fills(tracker: &mut TradeTracker, fills: &Vec<Fill>) -> (r: Result<(), TrackerError>)
    requires
        old(tracker).wf(),
    ensures
        final(tracker).wf(),
        final(tracker)@.equity == old(tracker)@.equity,
        final(tracker)@.initial_capital == old(tracker)@.initial_capital,
        match r {
            Ok(_) => recorded(old(tracker)@, fill_views(fills@), fills@.len() as int) == Ok::<
                TrackerView,
                TrackerError,
            >(final(tracker)@),
            Err(e) => recorded(old(tracker)@, fill_views(fills@), fills@.len() as int) == Err::<
                TrackerView,
                TrackerError,
            >(e) && exists|k: int|
                0 <= k < fills@.len() && #[trigger] recorded(old(tracker)@, fill_views(fills@), k)
                    == Ok::<TrackerView, TrackerError>(final(tracker)@),
        },
{
    let ghost start: TrackerView = tracker@;
    let ghost all: Seq<FillView> = fill_views(fills@);
    let mut k: usize = 0;
    while k < fills.len()
        invariant
            tracker.wf(),
            k <= fills.len(),
            all == fill_views(fills@),
            recorded(start, all, k as int) == Ok::<TrackerView, TrackerError>(tracker@),
            tracker@.equity == start.equity,
            tracker@.initial_capital == start.initial_capital,
            start == old(tracker)@,
        decreases fills.len() - k,
    {
        proof {
            assert(all[k as int] == fills@[k as int]@);
        }
        let fill: &Fill = &fills[k];
        let outcome: Result<(), TrackerError> = match fill.direction {
            OrderDirection::Buy => tracker.record_buy(
                fill.asset.as_str(),
                fill.time,
                fill.price,
                fill.size,
                fill.fees,
                fill.slippage,
            ),
            OrderDirection::Sell => tracker.record_sell(
                fill.asset.as_str(),
                fill.time,
                fill.price,
                fill.size,
                fill.fees,
                fill.slippage,
            ),
        };
        match outcome {
            Ok(_) => {
                proof {
                    lemma_recorded_keeps(start, all, k as int + 1);
                }
            },
            Err(e) => {
                proof {
                    lemma_recorded_fails_on(start, all, k as int + 1, fills@.len() as int);
                }
                return Err(e);
            },
        }
        k += 1;
    }
    Ok(())
}

/// Once reporting has failed it has failed for every longer list.
pub proof fn lemma_recorded_fails_on(t: TrackerView, fills: Seq<FillView>, k: int, n: int)
    requires
        0 <= k <= n,
        recorded(t, fills, k).is_err(),
    ensures
        recorded(t, fills, n) == recorded(t, fills, k),
    decreases n - k,
{
    if k < n {
        lemma_recorded_fails_on(t, fills, k, n - 1);
    }
}

/// The market's part of a tick: the broker examines its book at the opening
/// price of the sample, the ledger records every execution, and the equity
/// at the closing price joins the curve.
pub fn market_step(broker: &mut Broker, tracker: &mut TradeTracker, now: i64, sample: &OHLCVData) -> (r:
    Result<(), EngineError>)
    requires
        old(broker).wf(),
        old(tracker).wf(),
    ensures
        final(broker).wf(),
        final(tracker).wf(),
        final(broker)@ == handled(old(broker)@, now, sample.open).0,
        final(tracker)@.initial_capital == old(tracker)@.initial_capital,
        match r {
            Ok(_) => {
                &&& stepped(old(broker)@, old(tracker)@, now, *sample) == Ok::<
                    (BrokerView, TrackerView),
                    EngineError,
                >((final(broker)@, final(tracker)@))
                &&& final(tracker)@.equity.len() == old(tracker)@.equity.len() + 1
                &&& final(tracker)@.equity.drop_last() == old(tracker)@.equity
                &&& final(tracker)@.equity.last().0 == now
            },
            Err(e) => {
                &&& e == EngineError::OutOfRange
                &&& stepped(old(broker)@, old(tracker)@, now, *sample).is_err()
                &&& exists|k: int|
                    0 <= k <= handled(old(broker)@, now, sample.open).1.len() && #[trigger] recorded(
                        old(tracker)@,
                        handled(old(broker)@, now, sample.open).1,
                        k,
                    ) == Ok::<TrackerView, TrackerError>(final(tracker)@)
            },
        },
{
    let fills: Vec<Fill> = broker.handle_unfulfilled_orders(now, sample);
    let ghost before: TrackerView = tracker@;
    match record_fills(tracker, &fills) {
        Ok(_) => {},
        Err(_) => {
            return Err(EngineError::OutOfRange);
        },
    }
    let worth: i64 = match broker.portfolio_value(sample) {
        Some(w) => w,
        None => { return Err(EngineError::OutOfRange); },
    };
    let equity: i64 = match add_fixed(broker.cash(), worth) {
        Some(e) => e,
        None => { return Err(EngineError::OutOfRange); },
    };
    let ghost ledger: TrackerView = tracker@;
    tracker.record_equity_snapshot(now, equity);
    proof {
        assert(tracker@.equity.drop_last() =~= ledger.equity);
    }
    Ok(())
}

/// Copies round trips.
pub fn copy_trades(trades: &[Trade]) -> (r: Vec<Trade>)
    ensures
        trade_views(r@) == trade_views(trades@),
{
    let mut copies: Vec<Trade> = Vec::new();
    let mut k: usize = 0;
    while k < trades.len()
        invariant
            k <= trades.len(),
            trade_views(copies@) == trade_views(trades@).take(k as int),
        decreases trades.len() - k,
    {
        let ghost before: Seq<Trade> = copies@;
        copies.push(trades[k].duplicate());
        proof {
            assert(trade_views(copies@) =~= trade_views(before).push(trades@[k as int]@));
            assert(trade_views(copies@) =~= trade_views(trades@).take(k as int + 1));
        }
        k += 1;
    }
    proof {
        assert(trade_views(trades@).take(k as int) =~= trade_views(trades@));
    }
    copies
}

/// A quotient is the number whose multiples enclose the dividend.
proof fn lemma_quotient_is(x: int, d: int, q: int)
    requires
        d > 0,
        q * d <= x < (q + 1) * d,
    ensures
        x / d == q,
{
    assert(x / d == q) by (nonlinear_arith)
        requires
            d > 0,
            q * d <= x < (q + 1) * d,
    ;
}

/// A quotient is at least a number whose multiple the dividend reaches.
proof fn lemma_quotient_at_least(x: int, d: int, q: int)
    requires
        d > 0,
        q * d <= x,
    ensures
        x / d >= q,
{
    assert(x / d >= q) by (nonlinear_arith)
        requires
            d > 0,
            q * d <= x,
    ;
}

impl<S: Strategy> Engine<S> {
    /// An engine for a strategy and a time range, with a fresh broker, no
    /// data and a tick of one minute.
    pub fn new(strategy: S, time_range: (i64, i64)) -> (r: Engine<S>)
        ensures
            r.broker.wf(),
            r.broker@ == crate::broker::fresh(),
            r.tracker.wf(),
            r.tracker@ == fresh_ledger(0),
            r.data_feed@.len() == 0,
            r.strategy == strategy,
            r.time_range == time_range,
            r.tick == DEFAULT_TICK,
    {
        Engine {
            broker: Broker::new(),
            data_feed: Vec::new(),
            strategy,
            time_range,
            tick: DEFAULT_TICK,
            tracker: TradeTracker::new(),
        }
    }

    /// Sets the price feed, which is to be ordered by time.
    pub fn add_data(&mut self, data: Vec<OHLCVData>)
        ensures
            final(self).data_feed == data,
            final(self).broker == old(self).broker,
            final(self).strategy == old(self).strategy,
            final(self).time_range == old(self).time_range,
            final(self).tick == old(self).tick,
            final(self).tracker == old(self).tracker,
    {
        self.data_feed = data;
    }

    pub fn set_broker(&mut self, broker: Broker)
        ensures
            final(self).broker == broker,
            final(self).data_feed == old(self).data_feed,
            final(self).strategy == old(self).strategy,
            final(self).time_range == old(self).time_range,
            final(self).tick == old(self).tick,
            final(self).tracker == old(self).tracker,
    {
        self.broker = broker;
    }

    /// Sets the seconds between two ticks.
    pub fn set_tick(&mut self, tick: i64)
        ensures
            final(self).tick == tick,
            final(self).broker == old(self).broker,
            final(self).data_feed == old(self).data_feed,
            final(self).strategy == old(self).strategy,
            final(self).time_range == old(self).time_range,
            final(self).tracker == old(self).tracker,
    {
        self.tick = tick;
    }

    /// Runs the strategy over the time range. It fails on an empty feed and
    /// on a tick that is not positive, before the first tick and changing
    /// nothing but the strategy, which was initialised. It fails for an
    /// amount that cannot be stored, and only for that: then the run went
    /// tick by tick as `is_run` says up to a tick whose market part fails,
    /// or through all its ticks to holdings whose worth cannot be stored, as
    /// `stopped` says. A run without a tick succeeds exactly where the worth
    /// of what the broker holds can be stored. On success the strategy, the
    /// broker and the ledger went tick by tick as `is_run` says, from the
    /// strategy initialised, the broker given and a fresh ledger to those
    /// that the engine is left with; the ledger holds one equity point for
    /// each tick, a tick apart from the start on; and the result holds the
    /// ledger's round trips with the figures drawn from them, from the
    /// equity curve and from the broker's state at the end.
    pub fn run(&mut self) -> (r: Result<BacktestResult, EngineError>)
        requires
            old(self).broker.wf(),
        ensures
            final(self).broker.wf(),
            final(self).data_feed == old(self).data_feed,
            final(self).time_range == old(self).time_range,
            final(self).tick == old(self).tick,
            r matches Err(EngineError::DataFeedEmpty) <==> old(self).data_feed@.len() == 0,
            r matches Err(EngineError::InvalidTick) <==> old(self).data_feed@.len() > 0 && old(
                self,
            ).tick <= 0,
            (r matches Err(EngineError::DataFeedEmpty) || r matches Err(EngineError::InvalidTick))
                ==> {
                &&& final(self).broker == old(self).broker
                &&& final(self).tracker == old(self).tracker
                &&& S::initialised(old(self).strategy, final(self).strategy)
            },
            old(self).data_feed@.len() > 0 && old(self).tick > 0 && tick_count(
                old(self).time_range.0,
                old(self).time_range.1,
                old(self).tick,
                old(self).data_feed@.last().timestamp,
            ) == 0 ==> (r.is_ok() <==> portfolio_worth(
                old(self).broker@.portfolio,
                old(self).data_feed@.last().close,
            ).is_some()),
            r matches Err(EngineError::OutOfRange) ==> exists|
                strategies: Seq<S>,
                brokers: Seq<BrokerView>,
                ledgers: Seq<TrackerView>,
            |
                {
                    &&& #[trigger] is_run(
                        old(self).data_feed@,
                        old(self).time_range.0,
                        old(self).tick,
                        old(self).broker@,
                        strategies,
                        brokers,
                        ledgers,
                    )
                    &&& S::initialised(old(self).strategy, strategies[0])
                    &&& stopped(
                        old(self).data_feed@,
                        old(self).time_range.0,
                        old(self).time_range.1,
                        old(self).tick,
                        brokers,
                        ledgers,
                    )
                    &&& strategies.last() == final(self).strategy
                    &&& final(self).broker@ == left_at(
                        old(self).data_feed@,
                        old(self).time_range.0,
                        old(self).time_range.1,
                        old(self).tick,
                        brokers,
                    )
                },
            r matches Ok(result) ==> {
                &&& final(self).tracker.wf()
                &&& final(self).tracker@.equity.len() == tick_count(
                    old(self).time_range.0,
                    old(self).time_range.1,
                    old(self).tick,
                    old(self).data_feed@.last().timestamp,
                )
                &&& exists|strategies: Seq<S>, brokers: Seq<BrokerView>, ledgers: Seq<TrackerView>|
                    {
                        &&& #[trigger] is_run(
                            old(self).data_feed@,
                            old(self).time_range.0,
                            old(self).tick,
                            old(self).broker@,
                            strategies,
                            brokers,
                            ledgers,
                        )
                        &&& S::initialised(old(self).strategy, strategies[0])
                        &&& strategies.last() == final(self).strategy
                        &&& brokers.len() == 1 + tick_count(
                            old(self).time_range.0,
                            old(self).time_range.1,
                            old(self).tick,
                            old(self).data_feed@.last().timestamp,
                        )
                        &&& brokers.last() == final(self).broker@
                        &&& ledgers.last() == final(self).tracker@
                    }
                &&& paced(final(self).tracker@.equity, old(self).time_range.0, old(self).tick)
                &&& increasing_in_time(final(self).tracker@.equity)
                &&& trade_views(result.trades@) == final(self).tracker@.closed
                &&& portfolio_worth(
                    final(self).broker@.portfolio,
                    old(self).data_feed@.last().close,
                ) matches Some(worth)
                &&& result.metrics == metrics_of(
                    final(self).tracker@.closed,
                    final(self).tracker@.equity,
                    old(self).broker@.cash,
                    RISK_FREE_RATE,
                    final(self).broker@.cash,
                    worth,
                    final(self).broker@.analytics.total_placed_orders,
                    final(self).broker@.analytics.total_exec_orders,
                    final(self).tracker@.total_fees,
                    final(self).tracker@.total_slippage,
                    Some(old(self).data_feed@[0].close),
                    Some(old(self).data_feed@.last().close),
                    final(self).broker@.fee_type,
                )
                &&& result.metrics.max_drawdown <= 0
                &&& 0 <= result.metrics.win_rate <= 100 * crate::fixed::SCALE
                &&& final(self).tracker@.equity.len() < 2 ==> result.metrics.sharpe_ratio == 0
            },
    {
        self.strategy.init();
        if self.data_feed.len() == 0 {
            return Err(EngineError::DataFeedEmpty);
        }
        if self.tick <= 0 {
            return Err(EngineError::InvalidTick);
        }
        self.tracker = TradeTracker::new();
        self.tracker.set_initial_capital(self.broker.cash());
        let start: i64 = self.time_range.0;
        let end: i64 = self.time_range.1;
        let tick: i64 = self.tick;
        let last_index: usize = self.data_feed.len() - 1;
        let last: i64 = self.data_feed[last_index].timestamp;
        let mut current: i64 = start;
        let mut index: usize = 0;
        let mut running: bool = current <= end;
        let ghost mut done: int = 0;
        proof {
            let bound: i64 = if end < last { end } else { last };
            if running && bound >= start {
                lemma_quotient_at_least(bound - start, tick as int, 0);
            }
        }
        let ghost feed: Seq<OHLCVData> = self.data_feed@;
        let ghost first: BrokerView = self.broker@;
        let ghost mut strategies: Seq<S> = seq![self.strategy];
        let ghost mut brokers: Seq<BrokerView> = seq![self.broker@];
        let ghost mut ledgers: Seq<TrackerView> = seq![self.tracker@];
        while running
            invariant
                feed == self.data_feed@,
                first == old(self).broker@,
                is_run(feed, start, tick, first, strategies, brokers, ledgers),
                S::initialised(old(self).strategy, strategies[0]),
                strategies.last() == self.strategy,
                brokers.len() == done + 1,
                brokers.last() == self.broker@,
                ledgers.last() == self.tracker@,
                running ==> (if done == 0 {
                    index == 0
                } else {
                    index == sample_at(feed, start, tick, done - 1)
                }),
                self.broker.wf(),
                self.tracker.wf(),
                self.data_feed == old(self).data_feed,
                self.time_range == old(self).time_range,
                self.tick == old(self).tick,
                start == self.time_range.0,
                end == self.time_range.1,
                tick == self.tick,
                tick > 0,
                last_index == self.data_feed@.len() - 1,
                last == self.data_feed@.last().timestamp,
                index < self.data_feed@.len(),
                done >= 0,
                self.tracker@.equity.len() == done,
                paced(self.tracker@.equity, start, tick),
                self.tracker@.initial_capital == old(self).broker@.cash,
                running ==> current == start + done * tick && current <= end && (done == 0
                    || current <= last),
                running ==> done < tick_count(start, end, tick, last),
                !running ==> done == tick_count(start, end, tick, last),
            decreases (if running { end - current + 1 } else { 0 }),
        {
            index = catch_up(&self.data_feed, index, current);
            let sample: OHLCVData = self.data_feed[index];
            proof {
                assert(index == sample_at(feed, start, tick, done));
            }
            match market_step(&mut self.broker, &mut self.tracker, current, &sample) {
                Ok(_) => {},
                Err(e) => {
                    proof {
                        assert(stopped(feed, start, end, tick, brokers, ledgers));
                    }
                    return Err(e);
                },
            }
            proof {
                assert forall|j: int| 0 <= j < self.tracker@.equity.len() implies (
                #[trigger] self.tracker@.equity[j]).0 == start + j * tick by {
                    if j < done {
                        assert(self.tracker@.equity[j] == self.tracker@.equity.drop_last()[j]);
                    }
                }
            }
            let ghost mid: BrokerView = self.broker@;
            self.strategy.tick(current, Some(&sample), &mut self.broker);
            proof {
                let grown: Seq<S> = strategies.push(self.strategy);
                let longer: Seq<BrokerView> = brokers.push(self.broker@);
                let later: Seq<TrackerView> = ledgers.push(self.tracker@);
                assert(index == sample_at(feed, start, tick, done));
                assert(ticked(feed, start, tick, grown, longer, later, done));
                assert forall|j: int| 0 <= j < longer.len() - 1 implies #[trigger] ticked(
                    feed,
                    start,
                    tick,
                    grown,
                    longer,
                    later,
                    j,
                ) by {
                    if j < done {
                        assert(ticked(feed, start, tick, strategies, brokers, ledgers, j));
                        assert(grown[j] == strategies[j]);
                        assert(grown[j + 1] == strategies[j + 1]);
                        assert(longer[j] == brokers[j]);
                        assert(longer[j + 1] == brokers[j + 1]);
                        assert(later[j] == ledgers[j]);
                        assert(later[j + 1] == ledgers[j + 1]);
                    }
                }
                strategies = grown;
                brokers = longer;
                ledgers = later;
            }
            let ghost bound: i64 = if end < last { end } else { last };
            let mut next: i64 = current;
            let mut more: bool = false;
            match add_fixed(current, tick) {
                Some(later) => {
                    if later <= end && later <= last {
                        next = later;
                        more = true;
                    }
                },
                None => {},
            }
            proof {
                assert((done + 1) * tick == done * tick + tick) by (nonlinear_arith);
                if more {
                    lemma_quotient_at_least(bound - start, tick as int, done + 1);
                }
                if !more {
                    assert(current + tick > bound);
                    if done == 0 {
                        if bound >= start {
                            lemma_quotient_is(bound - start, tick as int, 0);
                        }
                    } else {
                        lemma_quotient_is(bound - start, tick as int, done);
                    }
                }
                done = done + 1;
            }
            current = next;
            running = more;
        }
        proof {
            lemma_paced_increases(self.tracker@.equity, start, tick);
        }
        let last_tick: OHLCVData = self.data_feed[last_index];
        let cash: i64 = self.broker.cash();
        let portfolio_value: i64 = match self.broker.portfolio_value(&last_tick) {
            Some(v) => v,
            None => {
                proof {
                    assert(stopped(feed, start, end, tick, brokers, ledgers));
                }
                return Err(EngineError::OutOfRange);
            },
        };
        let analytics: crate::broker::BrokerAnalytics = self.broker.analytics();
        let fee_type: Option<crate::fee::FeeType> = self.broker.fee_type();
        let first_price: i64 = self.data_feed[0].close;
        let metrics: GlobalMetrics = GlobalMetrics::calculate(
            self.tracker.get_closed_trades(),
            self.tracker.get_equity_curve(),
            self.tracker.initial_capital(),
            RISK_FREE_RATE,
            cash,
            portfolio_value,
            analytics.total_placed_orders,
            analytics.total_exec_orders,
            self.tracker.total_fees(),
            self.tracker.total_slippage(),
            Some(first_price),
            Some(last_tick.close),
            &fee_type,
        );
        let trades: Vec<Trade> = copy_trades(self.tracker.get_closed_trades());
        Ok(BacktestResult { trades, metrics })
    }
}

} // verus!
