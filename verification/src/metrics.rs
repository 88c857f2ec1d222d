//! Performance figures derived from the trade ledger and the equity curve.
//!
//! Every figure is computed in fixed-point arithmetic that stops at the ends
//! of the range (see [`crate::saturating`]), so each of them is defined for
//! every input.
use vstd::prelude::*;
use crate::fee::FeeType;
use crate::fixed::{
    div_trunc, hundredfold, percentage, portion, product, quotient, scaled, trunc_div, SCALE,
};
use crate::saturating::{
    cents, clamp, root, sat_add, sat_div, sat_mul, sat_portion, sat_sub, saturate, sqrt_floor,
    to_cents,
};
use crate::trade::{trade_views, Trade, TradeView};

verus! {

/// The square root of the 252 trading days of a year, in millionths.
pub const SQRT_TRADING_DAYS: i64 = 15_874_507;

/// The trading days of a year.
pub const TRADING_DAYS: i64 = 252;

/// What stands for a profit factor without bound: profits and no loss.
pub const UNBOUNDED: i64 = i64::MAX;

#[derive(Debug, Clone, Copy, PartialEq, Eq, Structural)]
pub struct GlobalMetrics {
    pub cash: i64,
    pub portfolio_value: i64,
    pub total_equity: i64,
    pub gross_profit: i64,
    pub total_fees: i64,
    pub total_slippage: i64,
    pub net_profit: i64,
    pub net_profit_percentage: i64,
    pub num_orders_placed: u64,
    pub num_orders_executed: u64,
    pub roi: i64,
    pub sharpe_ratio: i64,
    pub max_drawdown: i64,
    pub max_drawdown_duration_days: i64,
    pub win_rate: i64,
    pub profit_factor: i64,
    pub avg_win: i64,
    pub avg_loss: i64,
    pub largest_win: i64,
    pub largest_loss: i64,
    pub total_trades: usize,
    pub winning_trades: usize,
    pub losing_trades: usize,
    pub avg_trade_duration_hours: i64,
    pub buy_hold_roi: i64,
    pub buy_hold_final_value: i64,
    pub buy_hold_net_profit: i64,
}

/// The figures of a run without a round trip: all zero.
pub open spec fn zeroed() -> GlobalMetrics {
    GlobalMetrics {
        cash: 0,
        portfolio_value: 0,
        total_equity: 0,
        gross_profit: 0,
        total_fees: 0,
        total_slippage: 0,
        net_profit: 0,
        net_profit_percentage: 0,
        num_orders_placed: 0,
        num_orders_executed: 0,
        roi: 0,
        sharpe_ratio: 0,
        max_drawdown: 0,
        max_drawdown_duration_days: 0,
        win_rate: 0,
        profit_factor: 0,
        avg_win: 0,
        avg_loss: 0,
        largest_win: 0,
        largest_loss: 0,
        total_trades: 0,
        winning_trades: 0,
        losing_trades: 0,
        avg_trade_duration_hours: 0,
        buy_hold_roi: 0,
        buy_hold_final_value: 0,
        buy_hold_net_profit: 0,
    }
}

impl Default for GlobalMetrics {
    fn default() -> (r: GlobalMetrics)
        ensures
            r == zeroed(),
    {
        GlobalMetrics {
            cash: 0,
            portfolio_value: 0,
            total_equity: 0,
            gross_profit: 0,
            total_fees: 0,
            total_slippage: 0,
            net_profit: 0,
            net_profit_percentage: 0,
            num_orders_placed: 0,
            num_orders_executed: 0,
            roi: 0,
            sharpe_ratio: 0,
            max_drawdown: 0,
            max_drawdown_duration_days: 0,
            win_rate: 0,
            profit_factor: 0,
            avg_win: 0,
            avg_loss: 0,
            largest_win: 0,
            largest_loss: 0,
            total_trades: 0,
            winning_trades: 0,
            losing_trades: 0,
            avg_trade_duration_hours: 0,
            buy_hold_roi: 0,
            buy_hold_final_value: 0,
            buy_hold_net_profit: 0,
        }
    }
}

/// What a round trip earned; nothing where no amount is recorded.
pub open spec fn earned(t: TradeView) -> i64 {
    match t.profit_loss {
        Some(p) => p,
        None => 0,
    }
}

/// The seconds between the entry and the exit of a round trip; nothing for
/// a trade without exit.
pub open spec fn seconds_held(t: TradeView) -> i64 {
    match t.exit_time {
        Some(exit) => clamp(exit - t.entry_time),
        None => 0,
    }
}

/// What is counted over the round trips.
pub struct Tally {
    /// How many earned more than nothing.
    pub wins: nat,
    /// How many earned less than nothing.
    pub losses: nat,
    /// The sum of what the winners earned.
    pub profit: i64,
    /// The sum of what the losers lost, as a positive amount.
    pub loss: i64,
    /// The most that one earned, or zero.
    pub best: i64,
    /// The most that one lost, as a negative amount, or zero.
    pub worst: i64,
    /// The sum of the seconds held.
    pub seconds: i64,
}

/// A tally with one more round trip.
pub open spec fn counted(t: Tally, trade: TradeView) -> Tally {
    let pl: i64 = earned(trade);
    Tally {
        wins: if pl > 0 { t.wins + 1 } else { t.wins },
        losses: if pl < 0 { t.losses + 1 } else { t.losses },
        profit: if pl > 0 { clamp(t.profit + pl) } else { t.profit },
        loss: if pl < 0 { clamp(t.loss - pl) } else { t.loss },
        best: if pl > t.best { pl } else { t.best },
        worst: if pl < t.worst { pl } else { t.worst },
        seconds: clamp(t.seconds + seconds_held(trade)),
    }
}

/// The tally of a list of round trips.
pub open spec fn tally(trades: Seq<TradeView>) -> Tally
    decreases trades.len(),
{
    if trades.len() == 0 {
        Tally { wins: 0, losses: 0, profit: 0, loss: 0, best: 0, worst: 0, seconds: 0 }
    } else {
        counted(tally(trades.drop_last()), trades.last())
    }
}

/// A tally counts no more winners and losers than there are round trips, and
/// its sums have the signs of what they add up.
pub proof fn lemma_tally_bounds(trades: Seq<TradeView>)
    ensures
        tally(trades).wins + tally(trades).losses <= trades.len(),
        tally(trades).profit >= 0,
        tally(trades).loss >= 0,
        tally(trades).best >= 0,
        tally(trades).worst <= 0,
        tally(trades).wins == 0 ==> tally(trades).profit == 0,
        tally(trades).losses == 0 ==> tally(trades).loss == 0,
    decreases trades.len(),
{
    if trades.len() > 0 {
        lemma_tally_bounds(trades.drop_last());
    }
}

/// The share of winners in percent.
pub open spec fn win_rate_of(wins: nat, total: nat) -> i64 {
    if total > 0 {
        percentage(wins as int, total as int) as i64
    } else {
        0
    }
}

/// The greatest profit factor that has a bound.
pub const GREATEST_FACTOR: i64 = i64::MAX - 1;

/// What the winners earned for each unit that the losers lost: without
/// bound where nothing was lost, zero where nothing was won either. Where
/// something was lost the factor stops below `UNBOUNDED`, so that the two
/// cannot be taken for one another.
pub open spec fn profit_factor_of(profit: i64, loss: i64) -> i64 {
    if loss > 0 {
        if quotient(profit as int, loss as int) >= GREATEST_FACTOR {
            GREATEST_FACTOR
        } else {
            clamp(quotient(profit as int, loss as int))
        }
    } else if profit > 0 {
        UNBOUNDED
    } else {
        0
    }
}

/// The mean of a sum over a count; zero for a count of zero.
pub open spec fn mean_of(total: int, count: nat) -> i64 {
    if count > 0 {
        clamp(trunc_div(total, count as int))
    } else {
        0
    }
}

/// The seconds of an hour.
pub const HOUR: i64 = 3600;

/// The mean of durations, given as the sum of their seconds and their count,
/// in hours: rounded once, at the millionth of an hour.
pub open spec fn mean_hours(seconds: i64, count: nat) -> i64 {
    if count > 0 {
        clamp(trunc_div(seconds * SCALE, HOUR * count))
    } else {
        0
    }
}

/// A change in percent of a base; zero where the base is not positive.
pub open spec fn change_percent(change: int, base: i64) -> i64 {
    if base > 0 {
        clamp(percentage(change, base as int))
    } else {
        0
    }
}

/// The relative step from one equity to the next; zero where the first is
/// not positive.
pub open spec fn step_return(previous: i64, current: i64) -> i64 {
    if previous > 0 {
        clamp(quotient(current - previous, previous as int))
    } else {
        0
    }
}

/// The sum of the first `n` steps of a curve.
pub open spec fn returns_sum(curve: Seq<(i64, i64)>, n: int) -> i64
    decreases n,
{
    if n <= 0 {
        0
    } else {
        clamp(returns_sum(curve, n - 1) + step_return(curve[n - 1].1, curve[n].1))
    }
}

/// The square of how far a step is from the mean.
pub open spec fn squared_distance(step: i64, mean: i64) -> i64 {
    clamp(product(clamp(step - mean) as int, clamp(step - mean) as int))
}

/// The sum of the squared distances of the first `n` steps from the mean.
pub open spec fn squares_sum(curve: Seq<(i64, i64)>, mean: i64, n: int) -> i64
    decreases n,
{
    if n <= 0 {
        0
    } else {
        clamp(
            squares_sum(curve, mean, n - 1) + squared_distance(
                step_return(curve[n - 1].1, curve[n].1),
                mean,
            ),
        )
    }
}

/// The mean step of a curve of at least two points.
pub open spec fn mean_return(curve: Seq<(i64, i64)>) -> i64 {
    trunc_div(returns_sum(curve, curve.len() - 1) as int, curve.len() - 1) as i64
}

/// The variance of the steps of a curve of at least two points.
pub open spec fn variance(curve: Seq<(i64, i64)>) -> i64 {
    trunc_div(squares_sum(curve, mean_return(curve), curve.len() - 1) as int, curve.len() - 1) as i64
}

/// The standard deviation of the steps, rounded down to a millionth.
pub open spec fn deviation(curve: Seq<(i64, i64)>) -> i64 {
    root(variance(curve) * SCALE) as i64
}

/// The Sharpe ratio of a curve for a yearly risk-free rate: the mean step
/// above the daily rate, over the deviation, by the year. Zero for fewer
/// than two points and where the steps do not deviate.
pub open spec fn sharpe_of(curve: Seq<(i64, i64)>, risk_free_rate: i64) -> i64 {
    if curve.len() < 2 {
        0
    } else if deviation(curve) == 0 {
        0
    } else {
        let excess: i64 = clamp(
            mean_return(curve) - trunc_div(risk_free_rate as int, TRADING_DAYS as int),
        );
        clamp(
            product(
                clamp(quotient(excess as int, deviation(curve) as int)) as int,
                SQRT_TRADING_DAYS as int,
            ),
        )
    }
}

/// The state of the search for the worst decline along a curve.
pub struct Drawdown {
    /// The highest equity so far.
    pub peak: i64,
    /// When that equity was first reached.
    pub peak_time: i64,
    /// The deepest decline from a peak, in percent; never positive.
    pub worst: i64,
    /// The longest time, in seconds, from a peak to a point at or below it.
    pub longest: i64,
}

/// The decline of a point from the peak before it, in percent.
pub open spec fn decline(value: i64, peak: i64) -> i64 {
    change_percent(value - peak, peak)
}

/// The search after one more point.
pub open spec fn declined(d: Drawdown, time: i64, value: i64) -> Drawdown {
    if value > d.peak {
        Drawdown { peak: value, peak_time: time, ..d }
    } else {
        Drawdown {
            worst: if decline(value, d.peak) < d.worst { decline(value, d.peak) } else { d.worst },
            longest: if clamp(time - d.peak_time) > d.longest {
                clamp(time - d.peak_time)
            } else {
                d.longest
            },
            ..d
        }
    }
}

/// The search after the first `n` points of a curve that is not empty.
pub open spec fn drawdown_upto(curve: Seq<(i64, i64)>, n: int) -> Drawdown
    decreases n,
{
    if n <= 1 {
        Drawdown { peak: curve[0].1, peak_time: curve[0].0, worst: 0, longest: 0 }
    } else {
        declined(drawdown_upto(curve, n - 1), curve[n - 1].0, curve[n - 1].1)
    }
}

/// The deepest decline of a curve from a peak, in percent, and the longest
/// time below a peak, in whole days.
pub open spec fn max_drawdown_of(curve: Seq<(i64, i64)>) -> (i64, i64) {
    if curve.len() == 0 {
        (0, 0)
    } else {
        (
            drawdown_upto(curve, curve.len() as int).worst,
            trunc_div(drawdown_upto(curve, curve.len() as int).longest as int, 86_400) as i64,
        )
    }
}

/// The deepest decline is never positive and the longest time never
/// negative.
pub proof fn lemma_drawdown_signs(curve: Seq<(i64, i64)>, n: int)
    ensures
        drawdown_upto(curve, n).worst <= 0,
        drawdown_upto(curve, n).longest >= 0,
    decreases n,
{
    if n > 1 {
        lemma_drawdown_signs(curve, n - 1);
    }
}

/// The highest equity among the first `n` points of a curve.
pub open spec fn peak_upto(curve: Seq<(i64, i64)>, n: int) -> i64
    decreases n,
{
    if n <= 1 {
        curve[0].1
    } else if curve[n - 1].1 > peak_upto(curve, n - 1) {
        curve[n - 1].1
    } else {
        peak_upto(curve, n - 1)
    }
}

/// The decline, in percent, of the point at place `i` from the highest
/// equity up to it; nothing for a point that is itself the highest.
pub open spec fn decline_at(curve: Seq<(i64, i64)>, i: int) -> i64 {
    decline(curve[i].1, peak_upto(curve, i + 1))
}

/// A point does not decline from itself.
pub proof fn lemma_no_decline_from_itself(value: i64)
    ensures
        decline(value, value) == 0,
{
    if value > 0 {
        assert(0int * (100 * SCALE) == 0);
        assert(0int / (value as int) == 0) by (nonlinear_arith)
            requires
                value > 0,
        ;
    }
}

/// The deepest decline is the least of the declines of the points, each
/// from the highest equity up to it.
pub proof fn lemma_drawdown_is_least_decline(curve: Seq<(i64, i64)>, n: int)
    requires
        1 <= n <= curve.len(),
    ensures
        drawdown_upto(curve, n).peak == peak_upto(curve, n),
        forall|i: int| 0 <= i < n ==> drawdown_upto(curve, n).worst <= #[trigger] decline_at(curve, i),
        exists|i: int| 0 <= i < n && drawdown_upto(curve, n).worst == #[trigger] decline_at(curve, i),
    decreases n,
{
    lemma_no_decline_from_itself(curve[0].1);
    if n <= 1 {
        assert(decline_at(curve, 0) == 0);
    } else {
        lemma_drawdown_is_least_decline(curve, n - 1);
        lemma_drawdown_signs(curve, n - 1);
        let before: Drawdown = drawdown_upto(curve, n - 1);
        let after: Drawdown = drawdown_upto(curve, n);
        let value: i64 = curve[n - 1].1;
        let found: int = choose|i: int|
            0 <= i < n - 1 && before.worst == #[trigger] decline_at(curve, i);
        if value > before.peak {
            lemma_no_decline_from_itself(value);
            assert(decline_at(curve, n - 1) == 0);
            assert(after.worst == decline_at(curve, found));
        } else {
            assert(decline_at(curve, n - 1) == decline(value, before.peak));
            if decline(value, before.peak) < before.worst {
                assert(after.worst == decline_at(curve, n - 1));
            } else {
                assert(after.worst == decline_at(curve, found));
            }
        }
        assert forall|i: int| 0 <= i < n implies after.worst <= #[trigger] decline_at(
            curve,
            i,
        ) by {
            if i < n - 1 {
                assert(before.worst <= decline_at(curve, i));
            }
        }
    }
}

/// The highest equity up to a point is no less than the point, and positive
/// where the points are.
pub proof fn lemma_peak_bounds(curve: Seq<(i64, i64)>, n: int)
    requires
        1 <= n <= curve.len(),
    ensures
        curve[n - 1].1 <= peak_upto(curve, n),
        (forall|i: int| 0 <= i < n ==> (#[trigger] curve[i]).1 > 0) ==> peak_upto(curve, n) > 0,
    decreases n,
{
    if n > 1 {
        lemma_peak_bounds(curve, n - 1);
    }
}

/// A point above nothing declines from a peak by less than a hundred
/// percent.
pub proof fn lemma_decline_above_all(value: i64, peak: i64)
    requires
        0 < value <= peak,
    ensures
        -100 * SCALE < decline(value, peak) <= 0,
{
    let change: int = (value - peak) * (100 * SCALE);
    assert(-(100 * SCALE) * peak < change <= 0) by (nonlinear_arith)
        requires
            0 < value <= peak,
            change == (value - peak) * (100 * SCALE),
            SCALE == 1_000_000,
    ;
    crate::fixed::lemma_trunc_div_bounds(change, peak as int);
    let q: int = trunc_div(change, peak as int);
    assert(q > -(100 * SCALE)) by (nonlinear_arith)
        requires
            peak > 0,
            change <= q * peak,
            -(100 * SCALE) * peak < change,
    ;
}

/// The deepest decline of a curve whose points are all above nothing is
/// less than a hundred percent.
pub proof fn lemma_drawdown_above_all(curve: Seq<(i64, i64)>)
    requires
        forall|i: int| 0 <= i < curve.len() ==> (#[trigger] curve[i]).1 > 0,
    ensures
        -100 * SCALE < max_drawdown_of(curve).0 <= 0,
{
    if curve.len() > 0 {
        let n: int = curve.len() as int;
        lemma_drawdown_is_least_decline(curve, n);
        let found: int = choose|i: int|
            0 <= i < n && drawdown_upto(curve, n).worst == #[trigger] decline_at(curve, i);
        lemma_peak_bounds(curve, found + 1);
        lemma_decline_above_all(curve[found].1, peak_upto(curve, found + 1));
    }
}

/// The points of a curve never fall.
pub open spec fn never_falls(curve: Seq<(i64, i64)>) -> bool {
    forall|i: int, j: int| 0 <= i <= j < curve.len() ==> curve[i].1 <= curve[j].1
}

/// In a curve that never falls every point is the highest up to it.
pub proof fn lemma_peak_of_rising(curve: Seq<(i64, i64)>, n: int)
    requires
        never_falls(curve),
        1 <= n <= curve.len(),
    ensures
        peak_upto(curve, n) == curve[n - 1].1,
    decreases n,
{
    if n > 1 {
        lemma_peak_of_rising(curve, n - 1);
    }
}

/// A curve that never falls has no decline.
pub proof fn lemma_rising_has_no_drawdown(curve: Seq<(i64, i64)>)
    requires
        never_falls(curve),
    ensures
        max_drawdown_of(curve).0 == 0,
{
    if curve.len() > 0 {
        let n: int = curve.len() as int;
        lemma_drawdown_is_least_decline(curve, n);
        let found: int = choose|i: int|
            0 <= i < n && drawdown_upto(curve, n).worst == #[trigger] decline_at(curve, i);
        lemma_peak_of_rising(curve, found + 1);
        lemma_no_decline_from_itself(curve[found].1);
    }
}

/// What a schedule charges on an amount, clamped.
pub open spec fn fee_charged(schedule: Option<FeeType>, amount: i64) -> i64 {
    match schedule {
        Some(FeeType::Flat(fee)) => fee,
        Some(FeeType::Percentage(fraction)) => clamp(product(amount as int, fraction as int)),
        None => 0,
    }
}

/// Buying at the first price with all the capital and selling at the last,
/// fees paid on both sides: the return in percent, the final value and the
/// profit. All zero where the capital or a price is not positive, and where
/// the fee on the purchase leaves nothing to invest.
pub open spec fn buy_and_hold_of(
    initial_capital: i64,
    first_price: i64,
    last_price: i64,
    schedule: Option<FeeType>,
) -> (i64, i64, i64) {
    if first_price <= 0 || last_price <= 0 || initial_capital <= 0 {
        (0, 0, 0)
    } else {
        let invested: i64 = clamp(initial_capital - fee_charged(schedule, initial_capital));
        if invested <= 0 {
            (0, 0, 0)
        } else {
            let value: i64 = clamp(portion(invested as int, last_price as int, first_price as int));
            let final_value: i64 = clamp(value - fee_charged(schedule, value));
            let net_profit: i64 = clamp(final_value - initial_capital);
            (change_percent(net_profit as int, initial_capital), final_value, net_profit)
        }
    }
}

/// The equity at the end of a curve; the initial capital for an empty one.
pub open spec fn final_value_of(curve: Seq<(i64, i64)>, initial_capital: i64) -> i64 {
    if curve.len() == 0 {
        initial_capital
    } else {
        curve.last().1
    }
}

/// All the figures of a run. Amounts of money are cut down to hundredths;
/// ratios and percentages of behaviour are not.
pub open spec fn metrics_of(
    trades: Seq<TradeView>,
    curve: Seq<(i64, i64)>,
    initial_capital: i64,
    risk_free_rate: i64,
    cash: i64,
    portfolio_value: i64,
    num_orders_placed: u64,
    num_orders_executed: u64,
    total_fees: i64,
    total_slippage: i64,
    first_price: Option<i64>,
    last_price: Option<i64>,
    schedule: Option<FeeType>,
) -> GlobalMetrics {
    if trades.len() == 0 {
        zeroed()
    } else {
        let t: Tally = tally(trades);
        let total_equity: i64 = clamp(cash + portfolio_value);
        let gross_profit: i64 = clamp(total_equity - initial_capital);
        let net_profit: i64 = clamp(clamp(gross_profit - total_fees) - total_slippage);
        let held: (i64, i64, i64) = match (first_price, last_price) {
            (Some(first), Some(last)) => buy_and_hold_of(initial_capital, first, last, schedule),
            _ => (0, 0, 0),
        };
        GlobalMetrics {
            cash: cents(cash),
            portfolio_value: cents(portfolio_value),
            total_equity: cents(total_equity),
            gross_profit: cents(gross_profit),
            total_fees: cents(total_fees),
            total_slippage: cents(total_slippage),
            net_profit: cents(net_profit),
            net_profit_percentage: cents(change_percent(net_profit as int, initial_capital)),
            num_orders_placed,
            num_orders_executed,
            roi: change_percent(
                final_value_of(curve, initial_capital) - initial_capital,
                initial_capital,
            ),
            sharpe_ratio: sharpe_of(curve, risk_free_rate),
            max_drawdown: max_drawdown_of(curve).0,
            max_drawdown_duration_days: max_drawdown_of(curve).1,
            win_rate: win_rate_of(t.wins, trades.len()),
            profit_factor: profit_factor_of(t.profit, t.loss),
            avg_win: mean_of(t.profit as int, t.wins),
            avg_loss: mean_of(-(t.loss as int), t.losses),
            largest_win: t.best,
            largest_loss: t.worst,
            total_trades: trades.len() as usize,
            winning_trades: t.wins as usize,
            losing_trades: t.losses as usize,
            avg_trade_duration_hours: mean_hours(t.seconds, trades.len()),
            buy_hold_roi: cents(held.0),
            buy_hold_final_value: cents(held.1),
            buy_hold_net_profit: cents(held.2),
        }
    }
}

/// The tally as it is counted.
pub struct TradeTally {
    pub wins: usize,
    pub losses: usize,
    pub profit: i64,
    pub loss: i64,
    pub best: i64,
    pub worst: i64,
    pub seconds: i64,
}

impl View for TradeTally {
    type V = Tally;

    open spec fn view(&self) -> Tally {
        Tally {
            wins: self.wins as nat,
            losses: self.losses as nat,
            profit: self.profit,
            loss: self.loss,
            best: self.best,
            worst: self.worst,
            seconds: self.seconds,
        }
    }
}

/// Counts the round trips.
pub fn tally_trades(trades: &[Trade]) -> (r: TradeTally)
    ensures
        r@ == tally(trade_views(trades@)),
{
    let mut t: TradeTally = TradeTally {
        wins: 0,
        losses: 0,
        profit: 0,
        loss: 0,
        best: 0,
        worst: 0,
        seconds: 0,
    };
    let mut k: usize = 0;
    let ghost all: Seq<TradeView> = trade_views(trades@);
    while k < trades.len()
        invariant
            k <= trades.len(),
            all == trade_views(trades@),
            t@ == tally(all.take(k as int)),
            t.wins + t.losses <= k,
        decreases trades.len() - k,
    {
        proof {
            assert(all.take(k as int + 1).drop_last() =~= all.take(k as int));
            assert(all.take(k as int + 1).last() == trades@[k as int]@);
        }
        let pl: i64 = match trades[k].profit_loss {
            Some(p) => p,
            None => 0,
        };
        if pl > 0 {
            t.wins = t.wins + 1;
            t.profit = sat_add(t.profit, pl);
        }
        if pl < 0 {
            t.losses = t.losses + 1;
            t.loss = sat_sub(t.loss, pl);
        }
        if pl > t.best {
            t.best = pl;
        }
        if pl < t.worst {
            t.worst = pl;
        }
        let held: i64 = match trades[k].exit_time {
            Some(exit) => sat_sub(exit, trades[k].entry_time),
            None => 0,
        };
        t.seconds = sat_add(t.seconds, held);
        k += 1;
    }
    proof {
        assert(all.take(k as int) =~= all);
    }
    t
}

/// The share of `part` in `whole`, in percent: between nothing and a
/// hundred.
pub fn rate(part: usize, whole: usize) -> (r: i64)
    requires
        part <= whole,
    ensures
        r == win_rate_of(part as nat, whole as nat),
        0 <= r <= 100 * SCALE,
{
    if whole == 0 {
        return 0;
    }
    proof {
        assert(0 * whole <= part * (100 * SCALE) <= (100 * SCALE) * whole) by (nonlinear_arith)
            requires
                0 <= part <= whole,
                SCALE == 1_000_000,
        ;
        crate::fixed::lemma_trunc_div_between(
            part * (100 * SCALE),
            whole as int,
            0,
            100 * SCALE,
        );
    }
    let q: i128 = div_trunc(hundredfold(part as i128), whole as i128);
    q as i64
}

/// The mean of a sum over a count.
pub fn mean(total: i128, count: usize) -> (r: i64)
    requires
        -0x8000_0000_0000_0000 <= total <= 0x8000_0000_0000_0000,
    ensures
        r == mean_of(total as int, count as nat),
{
    if count == 0 {
        return 0;
    }
    saturate(div_trunc(total, count as i128))
}

/// The mean of durations in hours, from the sum of their seconds and their
/// count.
pub fn hours_mean(seconds: i64, count: usize) -> (r: i64)
    ensures
        r == mean_hours(seconds, count as nat),
{
    if count == 0 {
        return 0;
    }
    saturate(div_trunc(scaled(seconds as i128), 3600 * (count as i128)))
}

/// A change in percent of a base.
pub fn percent_change(change: i128, base: i64) -> (r: i64)
    requires
        -0x4_0000_0000_0000_0000 <= change <= 0x4_0000_0000_0000_0000,
    ensures
        r == change_percent(change as int, base),
{
    if base <= 0 {
        return 0;
    }
    saturate(div_trunc(hundredfold(change), base as i128))
}

/// The relative step from one equity to the next.
pub fn step(previous: i64, current: i64) -> (r: i64)
    ensures
        r == step_return(previous, current),
{
    if previous <= 0 {
        return 0;
    }
    saturate(div_trunc(scaled(current as i128 - previous as i128), previous as i128))
}

/// The square of how far a step is from the mean; never negative.
pub fn distance_squared(value: i64, mean: i64) -> (r: i64)
    ensures
        r == squared_distance(value, mean),
        r >= 0,
{
    let d: i64 = sat_sub(value, mean);
    proof {
        assert(d as int * d as int >= 0) by (nonlinear_arith);
        crate::fixed::lemma_trunc_div_bounds(d as int * d as int, SCALE as int);
    }
    sat_mul(d, d)
}

/// What a schedule charges on an amount, clamped.
pub fn charge_clamped(schedule: &Option<FeeType>, amount: i64) -> (r: i64)
    ensures
        r == fee_charged(*schedule, amount),
{
    match schedule {
        Some(FeeType::Flat(fee)) => *fee,
        Some(FeeType::Percentage(fraction)) => sat_mul(amount, *fraction),
        None => 0,
    }
}

impl GlobalMetrics {
    /// The annualised Sharpe ratio of an equity curve.
    pub fn calculate_sharpe_ratio(equity_curve: &[(i64, i64)], risk_free_rate: i64) -> (r: i64)
        ensures
            r == sharpe_of(equity_curve@, risk_free_rate),
            equity_curve@.len() < 2 ==> r == 0,
    {
        if equity_curve.len() < 2 {
            return 0;
        }
        let steps: usize = equity_curve.len() - 1;
        let mut sum: i64 = 0;
        let mut k: usize = 0;
        while k < steps
            invariant
                steps == equity_curve@.len() - 1,
                k <= steps,
                sum == returns_sum(equity_curve@, k as int),
            decreases steps - k,
        {
            sum = sat_add(sum, step(equity_curve[k].1, equity_curve[k + 1].1));
            k += 1;
        }
        proof {
            crate::fixed::lemma_trunc_div_bounds(sum as int, steps as int);
        }
        let mean: i64 = div_trunc(sum as i128, steps as i128) as i64;
        let mut squares: i64 = 0;
        let mut j: usize = 0;
        while j < steps
            invariant
                steps == equity_curve@.len() - 1,
                j <= steps,
                squares == squares_sum(equity_curve@, mean, j as int),
                squares >= 0,
            decreases steps - j,
        {
            let d: i64 = distance_squared(step(equity_curve[j].1, equity_curve[j + 1].1), mean);
            squares = sat_add(squares, d);
            j += 1;
        }
        proof {
            crate::fixed::lemma_trunc_div_bounds(squares as int, steps as int);
        }
        let spread: i64 = div_trunc(squares as i128, steps as i128) as i64;
        proof {
            assert(0 <= spread * SCALE < 0x1_0000_0000_0000_0000_0000_0000_0) by (nonlinear_arith)
                requires
                    0 <= spread <= 0x7fff_ffff_ffff_ffff,
                    SCALE == 1_000_000,
            ;
        }
        let dev: i64 = sqrt_floor(scaled(spread as i128)) as i64;
        if dev == 0 {
            return 0;
        }
        let daily: i128 = div_trunc(risk_free_rate as i128, 252i128);
        proof {
            crate::fixed::lemma_trunc_div_bounds(risk_free_rate as int, 252);
        }
        let excess: i64 = saturate(mean as i128 - daily);
        sat_mul(sat_div(excess, dev), SQRT_TRADING_DAYS)
    }

    /// The deepest decline from a peak, in percent, which is the least of the
    /// declines of the points, and the longest time below a peak, in whole
    /// days.
    pub fn calculate_max_drawdown(equity_curve: &[(i64, i64)]) -> (r: (i64, i64))
        ensures
            r == max_drawdown_of(equity_curve@),
            r.0 <= 0,
            r.1 >= 0,
            forall|i: int|
                0 <= i < equity_curve@.len() ==> r.0 <= #[trigger] decline_at(equity_curve@, i),
            equity_curve@.len() > 0 ==> exists|i: int|
                0 <= i < equity_curve@.len() && r.0 == #[trigger] decline_at(equity_curve@, i),
    {
        if equity_curve.len() == 0 {
            return (0, 0);
        }
        proof {
            lemma_drawdown_is_least_decline(equity_curve@, equity_curve@.len() as int);
        }
        let mut peak: i64 = equity_curve[0].1;
        let mut peak_time: i64 = equity_curve[0].0;
        let mut worst: i64 = 0;
        let mut longest: i64 = 0;
        let mut k: usize = 1;
        while k < equity_curve.len()
            invariant
                1 <= k <= equity_curve.len(),
                drawdown_upto(equity_curve@, k as int) == (Drawdown {
                    peak,
                    peak_time,
                    worst,
                    longest,
                }),
            decreases equity_curve.len() - k,
        {
            let time: i64 = equity_curve[k].0;
            let value: i64 = equity_curve[k].1;
            if value > peak {
                peak = value;
                peak_time = time;
            } else {
                let fall: i64 = percent_change(value as i128 - peak as i128, peak);
                if fall < worst {
                    worst = fall;
                }
                let span: i64 = sat_sub(time, peak_time);
                if span > longest {
                    longest = span;
                }
            }
            k += 1;
        }
        proof {
            lemma_drawdown_signs(equity_curve@, equity_curve@.len() as int);
            crate::fixed::lemma_trunc_div_bounds(longest as int, 86_400);
        }
        (worst, div_trunc(longest as i128, 86_400i128) as i64)
    }

    /// The return, final value and profit of buying at the first price and
    /// selling at the last.
    pub fn calculate_buy_and_hold(
        initial_capital: i64,
        first_price: i64,
        last_price: i64,
        fee_type: &Option<FeeType>,
    ) -> (r: (i64, i64, i64))
        ensures
            r == buy_and_hold_of(initial_capital, first_price, last_price, *fee_type),
    {
        if first_price <= 0 || last_price <= 0 || initial_capital <= 0 {
            return (0, 0, 0);
        }
        let invested: i64 = sat_sub(initial_capital, charge_clamped(fee_type, initial_capital));
        if invested <= 0 {
            return (0, 0, 0);
        }
        let value: i64 = sat_portion(invested, last_price, first_price);
        let final_value: i64 = sat_sub(value, charge_clamped(fee_type, value));
        let net_profit: i64 = sat_sub(final_value, initial_capital);
        (percent_change(net_profit as i128, initial_capital), final_value, net_profit)
    }

    /// All the figures of a run; all zero for a run without a round trip.
    pub fn calculate(
        trades: &[Trade],
        equity_curve: &[(i64, i64)],
        initial_capital: i64,
        risk_free_rate: i64,
        cash: i64,
        portfolio_value: i64,
        num_orders_placed: u64,
        num_orders_executed: u64,
        total_fees: i64,
        total_slippage: i64,
        first_price: Option<i64>,
        last_price: Option<i64>,
        fee_type: &Option<FeeType>,
    ) -> (r: GlobalMetrics)
        ensures
            r == metrics_of(
                trade_views(trades@),
                equity_curve@,
                initial_capital,
                risk_free_rate,
                cash,
                portfolio_value,
                num_orders_placed,
                num_orders_executed,
                total_fees,
                total_slippage,
                first_price,
                last_price,
                *fee_type,
            ),
            r.max_drawdown <= 0,
            0 <= r.win_rate <= 100 * SCALE,
            equity_curve@.len() < 2 ==> r.sharpe_ratio == 0,
    {
        if trades.len() == 0 {
            return GlobalMetrics::default();
        }
        let t: TradeTally = tally_trades(trades);
        proof {
            lemma_tally_bounds(trade_views(trades@));
        }
        let win_rate: i64 = rate(t.wins, trades.len());
        let profit_factor: i64 = if t.loss > 0 {
            let ratio: i64 = sat_div(t.profit, t.loss);
            if ratio >= GREATEST_FACTOR {
                GREATEST_FACTOR
            } else {
                ratio
            }
        } else if t.profit > 0 {
            UNBOUNDED
        } else {
            0
        };
        let avg_win: i64 = mean(t.profit as i128, t.wins);
        let avg_loss: i64 = mean(-(t.loss as i128), t.losses);
        let final_value: i64 = if equity_curve.len() == 0 {
            initial_capital
        } else {
            equity_curve[equity_curve.len() - 1].1
        };
        let roi: i64 = percent_change(final_value as i128 - initial_capital as i128, initial_capital);
        let sharpe_ratio: i64 = GlobalMetrics::calculate_sharpe_ratio(equity_curve, risk_free_rate);
        let drawdown: (i64, i64) = GlobalMetrics::calculate_max_drawdown(equity_curve);
        let avg_trade_duration_hours: i64 = hours_mean(t.seconds, trades.len());
        let total_equity: i64 = sat_add(cash, portfolio_value);
        let gross_profit: i64 = sat_sub(total_equity, initial_capital);
        let net_profit: i64 = sat_sub(sat_sub(gross_profit, total_fees), total_slippage);
        let net_profit_percentage: i64 = percent_change(net_profit as i128, initial_capital);
        let held: (i64, i64, i64) = match (first_price, last_price) {
            (Some(first), Some(last)) => GlobalMetrics::calculate_buy_and_hold(
                initial_capital,
                first,
                last,
                fee_type,
            ),
            _ => (0, 0, 0),
        };
        GlobalMetrics {
            cash: to_cents(cash),
            portfolio_value: to_cents(portfolio_value),
            total_equity: to_cents(total_equity),
            gross_profit: to_cents(gross_profit),
            total_fees: to_cents(total_fees),
            total_slippage: to_cents(total_slippage),
            net_profit: to_cents(net_profit),
            net_profit_percentage: to_cents(net_profit_percentage),
            num_orders_placed,
            num_orders_executed,
            roi,
            sharpe_ratio,
            max_drawdown: drawdown.0,
            max_drawdown_duration_days: drawdown.1,
            win_rate,
            profit_factor,
            avg_win,
            avg_loss,
            largest_win: t.best,
            largest_loss: t.worst,
            total_trades: trades.len(),
            winning_trades: t.wins,
            losing_trades: t.losses,
            avg_trade_duration_hours,
            buy_hold_roi: to_cents(held.0),
            buy_hold_final_value: to_cents(held.1),
            buy_hold_net_profit: to_cents(held.2),
        }
    }
}

} // verus!
