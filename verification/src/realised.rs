//! What round trips brought and earned, against what the sales that closed
//! them moved the cash by: the same, up to the millionths lost where
//! amounts were shared out, for one sale, for one tick and for a whole run.
use vstd::prelude::*;
use crate::accounting::{cash_flow, fair, lemma_walk_is_fair};
use crate::broker::{handled, BrokerView, FillView};
use crate::data::OHLCVData;
use crate::engine::{is_run, noted, sample_at, stepped, ticked};
use crate::fixed::{lemma_portion_bounds, lemma_trunc_div_bounds, portion, product, stored, SCALE};
use crate::order::OrderDirection;
use crate::engine::recorded;
use crate::strategy::Strategy;
use crate::reconcile::{
    covered, lemma_net_bought_step, lemma_recorded_moves, lemma_run_keeps_mirror,
    lemma_sum_around, lemma_sum_joined, lemma_walk_covers, mirrors, quantity_from, quantity_of,
    shares, sum,
};
use crate::tracker::{cut, least, settle, totals_after, well_formed, Sale, TrackerView};
use crate::trade::{entry_cost, TradeView};

verus! {

/// What a round trip brought when it was left: the exit price times the
/// quantity, less the exit fees. Nothing for a trade that is open.
pub open spec fn brought(t: TradeView) -> int {
    match t.exit_price {
        Some(price) => product(price as int, t.quantity as int) - t.exit_fees,
        None => 0,
    }
}

/// What each round trip brought.
pub open spec fn takings(trades: Seq<TradeView>) -> Seq<int> {
    trades.map_values(|t: TradeView| brought(t))
}

/// What the round trips from place `from` on brought together.
pub open spec fn brought_from(trades: Seq<TradeView>, from: int) -> int {
    sum(takings(trades).skip(from))
}

/// A round trip earned what it brought less what it cost to enter, where
/// that can be stored.
pub proof fn lemma_round_trip_earned(lot: TradeView, matched: i64, sale: Sale)
    ensures
        cut(lot, matched, sale).profit_loss == stored(
            brought(cut(lot, matched, sale)) - entry_cost(cut(lot, matched, sale)),
        ),
{
}

/// Two quotients rounded down are together the quotient of the sum rounded
/// down, or one less.
pub proof fn lemma_floor_of_sum(a: int, b: int, d: int)
    requires
        a >= 0,
        b >= 0,
        d > 0,
    ensures
        (a + b) / d - 1 <= a / d + b / d <= (a + b) / d,
{
    let qa: int = a / d;
    let qb: int = b / d;
    let q: int = (a + b) / d;
    assert(qa * d <= a < (qa + 1) * d && qb * d <= b < (qb + 1) * d && q * d <= a + b < (q + 1)
        * d) by (nonlinear_arith)
        requires
            a >= 0,
            b >= 0,
            d > 0,
            qa == a / d,
            qb == b / d,
            q == (a + b) / d,
    ;
    assert(qa + qb <= q) by (nonlinear_arith)
        requires
            d > 0,
            qa * d <= a,
            qb * d <= b,
            a + b < (q + 1) * d,
    ;
    assert(q - 1 <= qa + qb) by (nonlinear_arith)
        requires
            d > 0,
            a < (qa + 1) * d,
            b < (qb + 1) * d,
            q * d <= a + b,
    ;
}

/// The parts of an amount that fall to two quantities are together the part
/// that falls to their sum, or a millionth less.
pub proof fn lemma_portion_of_sum(a: int, m: int, r: int, whole: int)
    requires
        a >= 0,
        m >= 0,
        r >= 0,
        whole > 0,
    ensures
        portion(a, m + r, whole) - 1 <= portion(a, m, whole) + portion(a, r, whole) <= portion(
            a,
            m + r,
            whole,
        ),
{
    assert(a * m >= 0 && a * r >= 0 && a * (m + r) == a * m + a * r) by (nonlinear_arith)
        requires
            a >= 0,
            m >= 0,
            r >= 0,
    ;
    lemma_floor_of_sum(a * m, a * r, whole);
}

/// Matching a sale only adds round trips, after those that were there.
pub proof fn lemma_settle_appends(t: TrackerView, k: int, sale: Sale, remaining: i64)
    requires
        0 <= k,
    ensures
        t.closed.len() <= settle(t, k, sale, remaining).closed.len(),
        settle(t, k, sale, remaining).closed.take(t.closed.len() as int) == t.closed,
    decreases t.open.len() - k,
{
    let after: TrackerView = settle(t, k, sale, remaining);
    if k < t.open.len() && remaining > 0 {
        let lot: TradeView = t.open[k];
        if lot.asset != sale.asset {
            lemma_settle_appends(t, k + 1, sale, remaining);
        } else {
            let matched: i64 = least(remaining, lot.quantity);
            let closed: Seq<TradeView> = t.closed.push(cut(lot, matched, sale));
            if matched == lot.quantity {
                let next: TrackerView = TrackerView { open: t.open.remove(k), closed, ..t };
                lemma_settle_appends(next, k, sale, (remaining - matched) as i64);
                assert(after.closed.take(t.closed.len() as int) =~= after.closed.take(
                    closed.len() as int,
                ).take(t.closed.len() as int));
            }
            assert(closed.take(t.closed.len() as int) =~= t.closed);
        }
    } else {
        assert(t.closed.take(t.closed.len() as int) =~= t.closed);
    }
}

/// The round trips that a sale gives, while the open lots cover what
/// remains of it, bring together what the remainder of the sale brings: its
/// price times what remains, less the part of its fees that falls to it. A
/// millionth may be missing, or be too many, for each round trip.
pub proof fn lemma_settle_brings(t: TrackerView, k: int, sale: Sale, remaining: i64)
    requires
        well_formed(t),
        0 <= k <= t.open.len(),
        0 <= remaining <= quantity_from(t.open, k, sale.asset),
        0 < sale.quantity,
        remaining <= sale.quantity,
        sale.price >= 0,
        sale.fees >= 0,
    ensures
        t.closed.len() <= settle(t, k, sale, remaining).closed.len(),
        ({
            let after: Seq<TradeView> = settle(t, k, sale, remaining).closed;
            let due: int = product(sale.price as int, remaining as int) - portion(
                sale.fees as int,
                remaining as int,
                sale.quantity as int,
            );
            due - (after.len() - t.closed.len()) <= brought_from(after, t.closed.len() as int)
                <= due + (after.len() - t.closed.len())
        }),
    decreases t.open.len() - k,
{
    let end: TrackerView = settle(t, k, sale, remaining);
    let own: Seq<int> = shares(t.open, sale.asset);
    let old: int = t.closed.len() as int;
    let price: int = sale.price as int;
    let fees: int = sale.fees as int;
    let whole: int = sale.quantity as int;
    if k >= t.open.len() || remaining <= 0 {
        if k >= t.open.len() {
            assert(own.skip(k) =~= Seq::<int>::empty());
        }
        assert(remaining == 0);
        assert(end == t);
        assert(takings(end.closed).skip(old) =~= Seq::<int>::empty());
        assert(product(price, 0) == 0) by {
            assert(price * 0 == 0);
            lemma_trunc_div_bounds(0, SCALE as int);
        }
        lemma_portion_bounds(fees, 0, whole);
    } else {
        lemma_sum_around(own, k);
        let lot: TradeView = t.open[k];
        if lot.asset != sale.asset {
            assert(end == settle(t, k + 1, sale, remaining));
            lemma_settle_brings(t, k + 1, sale, remaining);
        } else {
            let matched: i64 = least(remaining, lot.quantity);
            let piece: TradeView = cut(lot, matched, sale);
            let closed: Seq<TradeView> = t.closed.push(piece);
            lemma_portion_bounds(fees, matched as int, whole);
            assert(brought(piece) == product(price, matched as int) - portion(
                fees,
                matched as int,
                whole,
            ));
            if matched == lot.quantity {
                let next: TrackerView = TrackerView { open: t.open.remove(k), closed, ..t };
                let left: i64 = (remaining - matched) as i64;
                assert(end == settle(next, k, sale, left));
                assert forall|i: int| 0 <= i < next.open.len() implies (
                #[trigger] next.open[i]).quantity > 0 by {
                    let a: int = if i < k { i } else { i + 1 };
                    assert(next.open[i] == t.open[a]);
                }
                assert(shares(next.open, sale.asset) =~= own.remove(k));
                assert(own.remove(k).skip(k) =~= own.skip(k + 1));
                lemma_settle_brings(next, k, sale, left);
                lemma_settle_appends(next, k, sale, left);
                assert(old + 1 == closed.len() <= end.closed.len());
                assert(end.closed[old] == piece) by {
                    assert(end.closed.take(closed.len() as int)[old] == closed[old]);
                }
                lemma_sum_around(takings(end.closed), old);
                assert(brought_from(end.closed, old) == brought(piece) + brought_from(
                    end.closed,
                    old + 1,
                ));
                assert(matched as int + left as int == remaining as int);
                lemma_product_of_sum(price, matched as int, left as int);
                lemma_portion_of_sum(fees, matched as int, left as int, whole);
            } else {
                assert(end.closed == closed);
                assert(takings(closed).skip(old) =~= seq![brought(piece)]);
                assert(seq![brought(piece)].drop_last() =~= Seq::<int>::empty());
                assert(sum(seq![brought(piece)]) == brought(piece)) by {
                    assert(sum(seq![brought(piece)].drop_last()) == 0);
                }
            }
        }
    }
}

/// The products of a price with two quantities are together its product
/// with their sum, or a millionth less.
pub proof fn lemma_product_of_sum(price: int, m: int, r: int)
    requires
        price >= 0,
        m >= 0,
        r >= 0,
    ensures
        product(price, m + r) - 1 <= product(price, m) + product(price, r) <= product(
            price,
            m + r,
        ),
{
    assert(price * m >= 0 && price * r >= 0 && price * (m + r) == price * m + price * r)
        by (nonlinear_arith)
        requires
            price >= 0,
            m >= 0,
            r >= 0,
    ;
    lemma_floor_of_sum(price * m, price * r, SCALE as int);
}

/// The round trips of a sale that the open lots cover bring together what
/// the sale moved the cash by, up to a millionth for each round trip; and
/// each of them earned what it brought less what it cost to enter.
pub proof fn lemma_sale_brings_its_cash(t: TrackerView, sold: FillView)
    requires
        well_formed(t),
        sold.direction == OrderDirection::Sell,
        sold.price >= 0,
        sold.fees >= 0,
        sold.size <= quantity_of(t.open, sold.asset),
        noted(t, sold).is_ok(),
    ensures
        t.closed.len() <= noted(t, sold).unwrap().closed.len(),
        noted(t, sold).unwrap().closed.take(t.closed.len() as int) == t.closed,
        ({
            let after: Seq<TradeView> = noted(t, sold).unwrap().closed;
            cash_flow(sold) - (after.len() - t.closed.len()) <= brought_from(
                after,
                t.closed.len() as int,
            ) <= cash_flow(sold) + (after.len() - t.closed.len())
        }),
{
    let sale: Sale = Sale {
        asset: sold.asset,
        time: sold.time,
        price: sold.price,
        quantity: sold.size,
        fees: sold.fees,
        slippage: sold.slippage,
    };
    let totals: (i64, i64) = totals_after(t, sold.size, sold.fees, sold.slippage).unwrap();
    let charged: TrackerView = TrackerView { total_fees: totals.0, total_slippage: totals.1, ..t };
    assert(shares(charged.open, sold.asset).skip(0) =~= shares(charged.open, sold.asset));
    lemma_settle_brings(charged, 0, sale, sold.size);
    lemma_settle_appends(charged, 0, sale, sold.size);
    lemma_portion_bounds(sold.fees as int, sold.size as int, sold.size as int);
    assert(sold.size as int * sold.price as int == sold.price as int * sold.size as int)
        by (nonlinear_arith);
}

/// What the sales among executions moved the cash by together.
pub open spec fn sales_of(fills: Seq<FillView>) -> int
    decreases fills.len(),
{
    if fills.len() == 0 {
        0
    } else {
        sales_of(fills.drop_last()) + (if fills.last().direction == OrderDirection::Sell {
            cash_flow(fills.last())
        } else {
            0
        })
    }
}

/// What the round trips from a place on brought is what those up to a later
/// place brought and what those from there on brought, together.
pub proof fn lemma_brought_splits(trades: Seq<TradeView>, from: int, middle: int)
    requires
        0 <= from <= middle <= trades.len(),
    ensures
        brought_from(trades, from) == brought_from(trades.take(middle), from) + brought_from(
            trades,
            middle,
        ),
{
    let all: Seq<int> = takings(trades);
    assert(all.skip(from) =~= takings(trades.take(middle)).skip(from) + all.skip(middle));
    lemma_sum_joined(takings(trades.take(middle)).skip(from), all.skip(middle));
}

/// The round trips that executions give, reported to the ledger one after
/// the other, bring together what the sales among them moved the cash by,
/// up to a millionth for each round trip: where the open lots cover every
/// sale and no sale has a negative price or negative fees.
pub proof fn lemma_recorded_brings(t: TrackerView, fills: Seq<FillView>, k: int)
    requires
        well_formed(t),
        0 <= k <= fills.len(),
        recorded(t, fills, k).is_ok(),
        forall|a: Seq<char>| covered(quantity_of(t.open, a), fills, a),
        forall|j: int|
            0 <= j < fills.len() && (#[trigger] fills[j]).direction == OrderDirection::Sell
                ==> fills[j].price >= 0 && fills[j].fees >= 0,
    ensures
        t.closed.len() <= recorded(t, fills, k).unwrap().closed.len(),
        recorded(t, fills, k).unwrap().closed.take(t.closed.len() as int) == t.closed,
        ({
            let after: Seq<TradeView> = recorded(t, fills, k).unwrap().closed;
            sales_of(fills.take(k)) - (after.len() - t.closed.len()) <= brought_from(
                after,
                t.closed.len() as int,
            ) <= sales_of(fills.take(k)) + (after.len() - t.closed.len())
        }),
    decreases k,
{
    let before: int = t.closed.len() as int;
    if k <= 0 {
        assert(fills.take(0) =~= Seq::<FillView>::empty());
        assert(t.closed.take(before) =~= t.closed);
        assert(takings(t.closed).skip(before) =~= Seq::<int>::empty());
    } else {
        lemma_recorded_brings(t, fills, k - 1);
        let mid: TrackerView = recorded(t, fills, k - 1).unwrap();
        let end: TrackerView = recorded(t, fills, k).unwrap();
        let f: FillView = fills[k - 1];
        assert(fills.take(k).drop_last() =~= fills.take(k - 1));
        assert(fills.take(k).last() == f);
        lemma_recorded_moves(t, fills, k - 1, f.asset);
        if f.direction == OrderDirection::Sell {
            lemma_net_bought_step(fills, k - 1, f.asset);
            assert(covered(quantity_of(t.open, f.asset), fills, f.asset));
            assert(quantity_of(t.open, f.asset) + net_of(fills, k, f.asset) >= 0);
            lemma_sale_brings_its_cash(mid, f);
            let reached: int = mid.closed.len() as int;
            assert(end.closed.take(before) =~= end.closed.take(reached).take(before));
            lemma_brought_splits(end.closed, before, reached);
        }
    }
}

/// What the first `k` of a list of executions add to the holding of a
/// symbol.
pub open spec fn net_of(fills: Seq<FillView>, k: int, asset: Seq<char>) -> int {
    crate::accounting::net_bought(fills.take(k), asset)
}

/// The round trips that the market's part of a tick gives bring together
/// what the sales of that tick moved the cash by, up to a millionth for
/// each round trip: for a fair broker whose holdings the ledger's open lots
/// account for, at an opening price that is not negative.
pub proof fn lemma_tick_brings(b: BrokerView, t: TrackerView, now: i64, sample: OHLCVData)
    requires
        crate::broker::well_formed(b),
        well_formed(t),
        mirrors(b, t),
        fair(b),
        sample.open >= 0,
        stepped(b, t, now, sample).is_ok(),
    ensures
        t.closed.len() <= stepped(b, t, now, sample).unwrap().1.closed.len(),
        stepped(b, t, now, sample).unwrap().1.closed.take(t.closed.len() as int) == t.closed,
        ({
            let after: Seq<TradeView> = stepped(b, t, now, sample).unwrap().1.closed;
            let sales: int = sales_of(handled(b, now, sample.open).1);
            sales - (after.len() - t.closed.len()) <= brought_from(after, t.closed.len() as int)
                <= sales + (after.len() - t.closed.len())
        }),
{
    let fills: Seq<FillView> = handled(b, now, sample.open).1;
    let n: int = fills.len() as int;
    assert(fills.take(n) =~= fills);
    assert forall|a: Seq<char>| covered(quantity_of(t.open, a), fills, a) by {
        lemma_walk_covers(b, 0, Seq::empty(), now, sample.open, a);
        assert(quantity_of(t.open, a) == crate::broker::held(b.portfolio, a));
    }
    lemma_walk_is_fair(b, 0, Seq::empty(), now, sample.open);
    lemma_recorded_brings(t, fills, n);
}

/// What the sales of the first `j` ticks of a run moved the cash by
/// together.
pub open spec fn sales_upto(
    feed: Seq<OHLCVData>,
    start: i64,
    tick: i64,
    brokers: Seq<BrokerView>,
    j: int,
) -> int
    decreases j,
{
    if j <= 0 {
        0
    } else {
        sales_upto(feed, start, tick, brokers, j - 1) + sales_of(
            handled(
                brokers[j - 1],
                (start + (j - 1) * tick) as i64,
                feed[sample_at(feed, start, tick, j - 1)].open,
            ).1,
        )
    }
}

/// Throughout a run of a fair broker that starts with nothing held, on a
/// feed whose opening prices are not negative, all the round trips of the
/// ledger bring together what all the sales so far moved the cash by, up to
/// a millionth for each round trip; and the broker stays fair.
pub proof fn lemma_run_brings<S: Strategy>(
    feed: Seq<OHLCVData>,
    start: i64,
    tick: i64,
    first: BrokerView,
    strategies: Seq<S>,
    brokers: Seq<BrokerView>,
    ledgers: Seq<TrackerView>,
    j: int,
)
    requires
        is_run(feed, start, tick, first, strategies, brokers, ledgers),
        crate::broker::well_formed(first),
        first.portfolio.len() == 0,
        fair(first),
        feed.len() > 0,
        forall|i: int| 0 <= i < feed.len() ==> (#[trigger] feed[i]).open >= 0,
        0 <= j < brokers.len(),
    ensures
        fair(brokers[j]),
        sales_upto(feed, start, tick, brokers, j) - ledgers[j].closed.len() <= brought_from(
            ledgers[j].closed,
            0,
        ) <= sales_upto(feed, start, tick, brokers, j) + ledgers[j].closed.len(),
    decreases j,
{
    if j == 0 {
        assert(takings(ledgers[0].closed).skip(0) =~= Seq::<int>::empty());
    } else {
        lemma_run_brings(feed, start, tick, first, strategies, brokers, ledgers, j - 1);
        lemma_run_keeps_mirror(feed, start, tick, first, strategies, brokers, ledgers, j - 1);
        assert(ticked(feed, start, tick, strategies, brokers, ledgers, j - 1));
        let now: i64 = (start + (j - 1) * tick) as i64;
        let place: int = sample_at(feed, start, tick, j - 1);
        crate::engine::lemma_sample_in_feed(feed, start, tick, j - 1);
        let sample: OHLCVData = feed[place];
        let before: TrackerView = ledgers[j - 1];
        lemma_tick_brings(brokers[j - 1], before, now, sample);
        lemma_walk_is_fair(brokers[j - 1], 0, Seq::empty(), now, sample.open);
        lemma_brought_splits(ledgers[j].closed, 0, before.closed.len() as int);
    }
}

/// What each round trip cost to enter.
pub open spec fn costs(trades: Seq<TradeView>) -> Seq<int> {
    trades.map_values(|t: TradeView| entry_cost(t))
}

/// What each round trip earned: what it brought less what it cost to enter.
pub open spec fn profits(trades: Seq<TradeView>) -> Seq<int> {
    trades.map_values(|t: TradeView| brought(t) - entry_cost(t))
}

/// What round trips earned together is what they brought together less what
/// they cost to enter together.
pub proof fn lemma_profits_add_up(trades: Seq<TradeView>)
    ensures
        sum(profits(trades)) == sum(takings(trades)) - sum(costs(trades)),
    decreases trades.len(),
{
    if trades.len() > 0 {
        lemma_profits_add_up(trades.drop_last());
        assert(profits(trades).drop_last() =~= profits(trades.drop_last()));
        assert(takings(trades).drop_last() =~= takings(trades.drop_last()));
        assert(costs(trades).drop_last() =~= costs(trades.drop_last()));
    }
}

/// Throughout a run as in `lemma_run_brings`, what all the round trips of
/// the ledger earned together is what all the sales so far moved the cash
/// by, less what the round trips cost to enter, up to a millionth for each
/// round trip.
pub proof fn lemma_run_earns<S: Strategy>(
    feed: Seq<OHLCVData>,
    start: i64,
    tick: i64,
    first: BrokerView,
    strategies: Seq<S>,
    brokers: Seq<BrokerView>,
    ledgers: Seq<TrackerView>,
    j: int,
)
    requires
        is_run(feed, start, tick, first, strategies, brokers, ledgers),
        crate::broker::well_formed(first),
        first.portfolio.len() == 0,
        fair(first),
        feed.len() > 0,
        forall|i: int| 0 <= i < feed.len() ==> (#[trigger] feed[i]).open >= 0,
        0 <= j < brokers.len(),
    ensures
        ({
            let closed: Seq<TradeView> = ledgers[j].closed;
            let realised: int = sales_upto(feed, start, tick, brokers, j) - sum(costs(closed));
            realised - closed.len() <= sum(profits(closed)) <= realised + closed.len()
        }),
{
    lemma_run_brings(feed, start, tick, first, strategies, brokers, ledgers, j);
    lemma_profits_add_up(ledgers[j].closed);
    assert(takings(ledgers[j].closed).skip(0) =~= takings(ledgers[j].closed));
}

} // verus!
