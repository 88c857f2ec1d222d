//! The ledger's open lots account for the broker's holdings: what is open
//! of a symbol in the ledger is what the broker holds of it.
use vstd::prelude::*;
use crate::accounting::{
    fees_of, lemma_execution_moves_one_holding, lemma_tick_totals, lemma_walk_spares_expired,
    net_bought, slippage_of,
};
use crate::broker::{fill_of, handled, held, outcome, walk, well_formed, BrokerView, FillView};
use crate::engine::{is_run, recorded, stepped, ticked};
use crate::data::OHLCVData;
use crate::order::{expired, triggers, OrderDirection, OrderView};
use crate::strategy::Strategy;
use crate::tracker::{cut, least, lot_of, rest, settle, totals_after, Sale, TrackerView};
use crate::trade::TradeView;

verus! {

/// The sum of numbers.
pub open spec fn sum(s: Seq<int>) -> int
    decreases s.len(),
{
    if s.len() == 0 {
        0
    } else {
        sum(s.drop_last()) + s.last()
    }
}

/// The sum of two lists joined is the sum of their sums.
pub proof fn lemma_sum_joined(a: Seq<int>, b: Seq<int>)
    ensures
        sum(a + b) == sum(a) + sum(b),
    decreases b.len(),
{
    if b.len() == 0 {
        assert(a + b =~= a);
    } else {
        lemma_sum_joined(a, b.drop_last());
        assert((a + b).drop_last() =~= a + b.drop_last());
        assert((a + b).last() == b.last());
    }
}

/// A list is what stands before a place, what stands at it and what stands
/// after it.
pub proof fn lemma_sum_around(s: Seq<int>, k: int)
    requires
        0 <= k < s.len(),
    ensures
        sum(s) == sum(s.take(k)) + s[k] + sum(s.skip(k + 1)),
        sum(s.skip(k)) == s[k] + sum(s.skip(k + 1)),
        sum(s.remove(k)) == sum(s) - s[k],
        forall|v: int| sum(#[trigger] s.update(k, v)) == sum(s) - s[k] + v,
{
    let one: Seq<int> = seq![s[k]];
    assert(sum(one) == s[k]) by {
        assert(one.drop_last() =~= Seq::<int>::empty());
        assert(sum(one.drop_last()) == 0);
    }
    assert(s =~= s.take(k) + one + s.skip(k + 1));
    lemma_sum_joined(s.take(k), one);
    lemma_sum_joined(s.take(k) + one, s.skip(k + 1));
    assert(s.skip(k) =~= one + s.skip(k + 1));
    lemma_sum_joined(one, s.skip(k + 1));
    assert(s.remove(k) =~= s.take(k) + s.skip(k + 1));
    lemma_sum_joined(s.take(k), s.skip(k + 1));
    assert forall|v: int| sum(#[trigger] s.update(k, v)) == sum(s) - s[k] + v by {
        let other: Seq<int> = seq![v];
        assert(sum(other) == v) by {
            assert(other.drop_last() =~= Seq::<int>::empty());
            assert(sum(other.drop_last()) == 0);
        }
        assert(s.update(k, v) =~= s.take(k) + other + s.skip(k + 1));
        lemma_sum_joined(s.take(k), other);
        lemma_sum_joined(s.take(k) + other, s.skip(k + 1));
    }
}

/// What a lot holds of a symbol: its quantity, or nothing where it is of
/// another symbol.
pub open spec fn lot_share(lot: TradeView, asset: Seq<char>) -> int {
    if lot.asset == asset {
        lot.quantity as int
    } else {
        0
    }
}

/// What each lot holds of a symbol.
pub open spec fn shares(lots: Seq<TradeView>, asset: Seq<char>) -> Seq<int> {
    lots.map_values(|lot: TradeView| lot_share(lot, asset))
}

/// What lots, or round trips, hold of a symbol together.
pub open spec fn quantity_of(lots: Seq<TradeView>, asset: Seq<char>) -> int {
    sum(shares(lots, asset))
}

/// What the lots from place `k` on hold of a symbol together.
pub open spec fn quantity_from(lots: Seq<TradeView>, k: int, asset: Seq<char>) -> int {
    sum(shares(lots, asset).skip(k))
}

/// Matching a sale that the lots of its symbol cover takes the sale's
/// quantity out of the open lots of that symbol, leaves the lots of every
/// other symbol as they are, and leaves no lot empty.
pub proof fn lemma_settle_takes(
    t: TrackerView,
    k: int,
    sale: Sale,
    remaining: i64,
    asset: Seq<char>,
)
    requires
        crate::tracker::well_formed(t),
        0 <= k <= t.open.len(),
        0 <= remaining <= quantity_from(t.open, k, sale.asset),
    ensures
        crate::tracker::well_formed(settle(t, k, sale, remaining)),
        quantity_of(settle(t, k, sale, remaining).open, asset) == quantity_of(t.open, asset)
            - (if asset == sale.asset {
            remaining as int
        } else {
            0
        }),
    decreases t.open.len() - k,
{
    let own: Seq<int> = shares(t.open, sale.asset);
    let all: Seq<int> = shares(t.open, asset);
    if k >= t.open.len() {
        assert(own.skip(k) =~= Seq::<int>::empty());
    } else if remaining <= 0 {
    } else {
        lemma_sum_around(own, k);
        lemma_sum_around(all, k);
        let lot: TradeView = t.open[k];
        if lot.asset != sale.asset {
            lemma_settle_takes(t, k + 1, sale, remaining, asset);
        } else {
            let matched: i64 = least(remaining, lot.quantity);
            if matched == lot.quantity {
                let next: TrackerView = TrackerView {
                    open: t.open.remove(k),
                    closed: t.closed.push(cut(lot, matched, sale)),
                    ..t
                };
                assert forall|i: int| 0 <= i < next.open.len() implies (
                #[trigger] next.open[i]).quantity > 0 by {
                    let a: int = if i < k { i } else { i + 1 };
                    assert(next.open[i] == t.open[a]);
                }
                assert(shares(next.open, sale.asset) =~= own.remove(k));
                assert(shares(next.open, asset) =~= all.remove(k));
                assert(own.remove(k).skip(k) =~= own.skip(k + 1));
                lemma_settle_takes(next, k, sale, (remaining - matched) as i64, asset);
            } else {
                let after: Seq<TradeView> = t.open.update(k, rest(lot, matched));
                assert(shares(after, asset) =~= all.update(
                    k,
                    lot_share(rest(lot, matched), asset),
                ));
                assert forall|i: int| 0 <= i < after.len() implies (#[trigger] after[i]).quantity
                    > 0 by {
                    if i != k {
                        assert(after[i] == t.open[i]);
                    }
                }
            }
        }
    }
}

/// What a list of executions adds to the holding of a symbol is, one
/// execution more, that and what the execution adds.
pub proof fn lemma_net_bought_step(fills: Seq<FillView>, k: int, asset: Seq<char>)
    requires
        0 <= k < fills.len(),
    ensures
        net_bought(fills.take(k + 1), asset) == net_bought(fills.take(k), asset) + (if fills[k].asset
            == asset {
            match fills[k].direction {
                OrderDirection::Buy => fills[k].size as int,
                OrderDirection::Sell => -(fills[k].size as int),
            }
        } else {
            0
        }),
{
    assert(fills.take(k + 1).drop_last() =~= fills.take(k));
    assert(fills.take(k + 1).last() == fills[k]);
}

/// Whether no sale among executions asks for more of a symbol than a
/// quantity and the executions before the sale leave.
pub open spec fn covered(base: int, fills: Seq<FillView>, asset: Seq<char>) -> bool {
    forall|j: int| 0 <= j <= fills.len() ==> base + net_bought(#[trigger] fills.take(j), asset) >= 0
}

/// Reporting executions to the ledger moves what is open of a symbol by
/// what the executions add to it, where the open lots cover every sale.
pub proof fn lemma_recorded_moves(t: TrackerView, fills: Seq<FillView>, k: int, asset: Seq<char>)
    requires
        crate::tracker::well_formed(t),
        0 <= k <= fills.len(),
        recorded(t, fills, k).is_ok(),
        forall|a: Seq<char>| covered(quantity_of(t.open, a), fills, a),
    ensures
        crate::tracker::well_formed(recorded(t, fills, k).unwrap()),
        quantity_of(recorded(t, fills, k).unwrap().open, asset) == quantity_of(t.open, asset)
            + net_bought(fills.take(k), asset),
    decreases k,
{
    if k <= 0 {
        assert(fills.take(0) =~= Seq::<FillView>::empty());
    } else {
        let mid: TrackerView = recorded(t, fills, k - 1).unwrap();
        let f: FillView = fills[k - 1];
        lemma_recorded_moves(t, fills, k - 1, asset);
        lemma_recorded_moves(t, fills, k - 1, f.asset);
        lemma_net_bought_step(fills, k - 1, asset);
        lemma_net_bought_step(fills, k - 1, f.asset);
        match f.direction {
            OrderDirection::Buy => {
                let lot: TradeView = lot_of(
                    mid.next_id,
                    f.asset,
                    f.time,
                    f.price,
                    f.size,
                    f.fees,
                    f.slippage,
                );
                let after: Seq<TradeView> = mid.open.push(lot);
                assert(shares(after, asset) =~= shares(mid.open, asset).push(lot_share(lot, asset)));
                assert(shares(after, asset).drop_last() =~= shares(mid.open, asset));
            },
            OrderDirection::Sell => {
                let totals: (i64, i64) = totals_after(mid, f.size, f.fees, f.slippage).unwrap();
                let charged: TrackerView = TrackerView {
                    total_fees: totals.0,
                    total_slippage: totals.1,
                    ..mid
                };
                let sale: Sale = Sale {
                    asset: f.asset,
                    time: f.time,
                    price: f.price,
                    quantity: f.size,
                    fees: f.fees,
                    slippage: f.slippage,
                };
                assert(covered(quantity_of(t.open, f.asset), fills, f.asset));
                assert(quantity_of(t.open, f.asset) + net_bought(fills.take(k), f.asset) >= 0);
                assert(shares(charged.open, f.asset).skip(0) =~= shares(charged.open, f.asset));
                lemma_settle_takes(charged, 0, sale, f.size, asset);
            },
        }
    }
}

/// Nothing less than nothing is held of any symbol.
pub proof fn lemma_held_not_negative(b: BrokerView, asset: Seq<char>)
    requires
        well_formed(b),
    ensures
        held(b.portfolio, asset) >= 0,
{
}

/// Along a tick no sale asks for more of a symbol than is held when its
/// turn comes.
pub proof fn lemma_walk_covers(
    b: BrokerView,
    i: int,
    reported: Seq<FillView>,
    now: i64,
    open: i64,
    asset: Seq<char>,
)
    requires
        well_formed(b),
        0 <= i <= b.orders.len(),
    ensures
        forall|j: int|
            reported.len() <= j <= walk(b, i, reported, now, open).1.len() ==> held(
                b.portfolio,
                asset,
            ) - net_bought(reported, asset) + net_bought(
                #[trigger] walk(b, i, reported, now, open).1.take(j),
                asset,
            ) >= 0,
    decreases b.orders.len() - i,
{
    let end: (BrokerView, Seq<FillView>) = walk(b, i, reported, now, open);
    let base: int = held(b.portfolio, asset) - net_bought(reported, asset);
    lemma_walk_spares_expired(b, i, reported, now, open);
    lemma_held_not_negative(b, asset);
    assert(end.1.take(reported.len() as int) =~= reported);
    if i < b.orders.len() {
        let o: OrderView = b.orders[i];
        let shorter: Seq<OrderView> = b.orders.remove(i);
        assert forall|j: int| 0 <= j < shorter.len() implies (#[trigger] shorter[j]).size > 0 by {
            let a: int = if j < i { j } else { j + 1 };
            assert(shorter[j] == b.orders[a]);
        }
        if expired(o.valid_until, now) {
            let inner: BrokerView = BrokerView { orders: shorter, ..b };
            assert(end == walk(inner, i, reported, now, open));
            lemma_walk_covers(inner, i, reported, now, open, asset);
        } else if !triggers(o.order_type, o.direction, open) || outcome(b, o, open).is_err() {
            assert(end == walk(b, i + 1, reported, now, open));
            lemma_walk_covers(b, i + 1, reported, now, open, asset);
        } else {
            let next: BrokerView = outcome(b, o, open).unwrap();
            lemma_execution_moves_one_holding(b, o, open, asset);
            let fill: FillView = fill_of(b, o, now, open);
            let longer: Seq<FillView> = reported.push(fill);
            let inner: BrokerView = BrokerView { orders: shorter, ..next };
            assert(longer.drop_last() =~= reported);
            assert(longer.last() == fill);
            assert(end == walk(inner, i, longer, now, open));
            assert(held(inner.portfolio, asset) - net_bought(longer, asset) == base);
            lemma_walk_covers(inner, i, longer, now, open, asset);
        }
    }
    assert forall|j: int| reported.len() <= j <= end.1.len() implies base + net_bought(
        #[trigger] end.1.take(j),
        asset,
    ) >= 0 by {
        if j == reported.len() {
            assert(end.1.take(j) =~= reported);
        }
    }
}

/// Whether the ledger's open lots account for the broker's holdings: of
/// every symbol, as much is open in the ledger as the broker holds.
pub open spec fn mirrors(b: BrokerView, t: TrackerView) -> bool {
    forall|asset: Seq<char>| held(b.portfolio, asset) == #[trigger] quantity_of(t.open, asset)
}

/// The market's part of a tick keeps the ledger's open lots in step with
/// the broker's holdings.
pub proof fn lemma_tick_keeps_mirror(b: BrokerView, t: TrackerView, now: i64, sample: OHLCVData)
    requires
        well_formed(b),
        crate::tracker::well_formed(t),
        mirrors(b, t),
        stepped(b, t, now, sample).is_ok(),
    ensures
        well_formed(stepped(b, t, now, sample).unwrap().0),
        crate::tracker::well_formed(stepped(b, t, now, sample).unwrap().1),
        mirrors(stepped(b, t, now, sample).unwrap().0, stepped(b, t, now, sample).unwrap().1),
{
    let after: (BrokerView, Seq<FillView>) = handled(b, now, sample.open);
    let fills: Seq<FillView> = after.1;
    let n: int = fills.len() as int;
    let ledger: TrackerView = recorded(t, fills, n).unwrap();
    assert(fills.take(n) =~= fills);
    assert forall|a: Seq<char>| covered(quantity_of(t.open, a), fills, a) by {
        lemma_walk_covers(b, 0, Seq::empty(), now, sample.open, a);
        assert(quantity_of(t.open, a) == held(b.portfolio, a));
    }
    crate::accounting::lemma_tick_accounts(b, now, sample.open, Seq::empty());
    lemma_recorded_moves(t, fills, n, Seq::empty());
    assert forall|a: Seq<char>|
        held(after.0.portfolio, a) == #[trigger] quantity_of(
            stepped(b, t, now, sample).unwrap().1.open,
            a,
        ) by {
        crate::accounting::lemma_tick_accounts(b, now, sample.open, a);
        lemma_recorded_moves(t, fills, n, a);
        assert(quantity_of(t.open, a) == held(b.portfolio, a));
    }
}

/// Throughout a run that starts with nothing held, the ledger's open lots
/// account for the broker's holdings, and the broker and the ledger stay
/// well formed.
pub proof fn lemma_run_keeps_mirror<S: Strategy>(
    feed: Seq<OHLCVData>,
    start: i64,
    tick: i64,
    first: BrokerView,
    strategies: Seq<S>,
    brokers: Seq<BrokerView>,
    ledgers: Seq<TrackerView>,
    j: int,
)
    requires
        is_run(feed, start, tick, first, strategies, brokers, ledgers),
        well_formed(first),
        first.portfolio.len() == 0,
        0 <= j < brokers.len(),
    ensures
        well_formed(brokers[j]),
        crate::tracker::well_formed(ledgers[j]),
        mirrors(brokers[j], ledgers[j]),
    decreases j,
{
    if j == 0 {
        assert forall|asset: Seq<char>|
            held(brokers[0].portfolio, asset) == #[trigger] quantity_of(
                ledgers[0].open,
                asset,
            ) by {
            assert(shares(ledgers[0].open, asset) =~= Seq::<int>::empty());
        }
    } else {
        lemma_run_keeps_mirror(feed, start, tick, first, strategies, brokers, ledgers, j - 1);
        assert(ticked(feed, start, tick, strategies, brokers, ledgers, j - 1));
        lemma_tick_keeps_mirror(
            brokers[j - 1],
            ledgers[j - 1],
            (start + (j - 1) * tick) as i64,
            feed[crate::engine::sample_at(feed, start, tick, j - 1)],
        );
    }
}

/// Reporting executions to the ledger adds their fees and their slippage to
/// the ledger's totals.
pub proof fn lemma_recorded_totals(t: TrackerView, fills: Seq<FillView>, k: int)
    requires
        0 <= k <= fills.len(),
        recorded(t, fills, k).is_ok(),
    ensures
        recorded(t, fills, k).unwrap().total_fees == t.total_fees + fees_of(fills.take(k)),
        recorded(t, fills, k).unwrap().total_slippage == t.total_slippage + slippage_of(
            fills.take(k),
        ),
    decreases k,
{
    if k <= 0 {
        assert(fills.take(0) =~= Seq::<FillView>::empty());
    } else {
        lemma_recorded_totals(t, fills, k - 1);
        let mid: TrackerView = recorded(t, fills, k - 1).unwrap();
        let f: FillView = fills[k - 1];
        assert(fills.take(k).drop_last() =~= fills.take(k - 1));
        assert(fills.take(k).last() == f);
        if f.direction == OrderDirection::Sell {
            let totals: (i64, i64) = totals_after(mid, f.size, f.fees, f.slippage).unwrap();
            crate::engine::lemma_settle_keeps_any(
                TrackerView { total_fees: totals.0, total_slippage: totals.1, ..mid },
                0,
                Sale {
                    asset: f.asset,
                    time: f.time,
                    price: f.price,
                    quantity: f.size,
                    fees: f.fees,
                    slippage: f.slippage,
                },
                f.size,
            );
        }
    }
}

/// The ledger's totals of fees and of slippage move with the broker's: over
/// the market's part of a tick both grow by the same.
pub proof fn lemma_tick_keeps_totals(b: BrokerView, t: TrackerView, now: i64, sample: OHLCVData)
    requires
        stepped(b, t, now, sample).is_ok(),
    ensures
        stepped(b, t, now, sample).unwrap().1.total_fees - t.total_fees == stepped(
            b,
            t,
            now,
            sample,
        ).unwrap().0.analytics.total_fees - b.analytics.total_fees,
        stepped(b, t, now, sample).unwrap().1.total_slippage - t.total_slippage == stepped(
            b,
            t,
            now,
            sample,
        ).unwrap().0.analytics.total_slippage - b.analytics.total_slippage,
{
    let fills: Seq<FillView> = handled(b, now, sample.open).1;
    assert(fills.take(fills.len() as int) =~= fills);
    lemma_tick_totals(b, now, sample.open);
    lemma_recorded_totals(t, fills, fills.len() as int);
}

/// The sizes of the buys of a symbol among executions, together.
pub open spec fn bought_of(fills: Seq<FillView>, asset: Seq<char>) -> int
    decreases fills.len(),
{
    if fills.len() == 0 {
        0
    } else {
        bought_of(fills.drop_last(), asset) + (if fills.last().asset == asset
            && fills.last().direction == OrderDirection::Buy {
            fills.last().size as int
        } else {
            0
        })
    }
}

/// Matching a sale moves quantity from the open lots into round trips and
/// loses none: of every symbol, what is open and what is closed are together
/// what they were.
pub proof fn lemma_settle_conserves(
    t: TrackerView,
    k: int,
    sale: Sale,
    remaining: i64,
    asset: Seq<char>,
)
    requires
        0 <= k,
    ensures
        quantity_of(settle(t, k, sale, remaining).open, asset) + quantity_of(
            settle(t, k, sale, remaining).closed,
            asset,
        ) == quantity_of(t.open, asset) + quantity_of(t.closed, asset),
    decreases t.open.len() - k,
{
    if k < t.open.len() && remaining > 0 {
        let lot: TradeView = t.open[k];
        if lot.asset != sale.asset {
            lemma_settle_conserves(t, k + 1, sale, remaining, asset);
        } else {
            let matched: i64 = least(remaining, lot.quantity);
            let piece: TradeView = cut(lot, matched, sale);
            let closed: Seq<TradeView> = t.closed.push(piece);
            lemma_sum_around(shares(t.open, asset), k);
            assert(shares(closed, asset) =~= shares(t.closed, asset).push(lot_share(piece, asset)));
            assert(shares(closed, asset).drop_last() =~= shares(t.closed, asset));
            if matched == lot.quantity {
                let next: TrackerView = TrackerView { open: t.open.remove(k), closed, ..t };
                assert(shares(next.open, asset) =~= shares(t.open, asset).remove(k));
                lemma_settle_conserves(next, k, sale, (remaining - matched) as i64, asset);
            } else {
                let after: Seq<TradeView> = t.open.update(k, rest(lot, matched));
                assert(shares(after, asset) =~= shares(t.open, asset).update(
                    k,
                    lot_share(rest(lot, matched), asset),
                ));
            }
        }
    }
}

/// Every execution reaches the ledger once: of every symbol, what is open
/// in the ledger and what is closed are together what they were and what
/// the executions bought.
pub proof fn lemma_recorded_conserves(
    t: TrackerView,
    fills: Seq<FillView>,
    k: int,
    asset: Seq<char>,
)
    requires
        0 <= k <= fills.len(),
        recorded(t, fills, k).is_ok(),
    ensures
        quantity_of(recorded(t, fills, k).unwrap().open, asset) + quantity_of(
            recorded(t, fills, k).unwrap().closed,
            asset,
        ) == quantity_of(t.open, asset) + quantity_of(t.closed, asset) + bought_of(
            fills.take(k),
            asset,
        ),
    decreases k,
{
    if k <= 0 {
        assert(fills.take(0) =~= Seq::<FillView>::empty());
    } else {
        lemma_recorded_conserves(t, fills, k - 1, asset);
        let mid: TrackerView = recorded(t, fills, k - 1).unwrap();
        let f: FillView = fills[k - 1];
        assert(fills.take(k).drop_last() =~= fills.take(k - 1));
        assert(fills.take(k).last() == f);
        match f.direction {
            OrderDirection::Buy => {
                let lot: TradeView = lot_of(
                    mid.next_id,
                    f.asset,
                    f.time,
                    f.price,
                    f.size,
                    f.fees,
                    f.slippage,
                );
                let after: Seq<TradeView> = mid.open.push(lot);
                assert(shares(after, asset) =~= shares(mid.open, asset).push(lot_share(lot, asset)));
                assert(shares(after, asset).drop_last() =~= shares(mid.open, asset));
            },
            OrderDirection::Sell => {
                let totals: (i64, i64) = totals_after(mid, f.size, f.fees, f.slippage).unwrap();
                lemma_settle_conserves(
                    TrackerView { total_fees: totals.0, total_slippage: totals.1, ..mid },
                    0,
                    Sale {
                        asset: f.asset,
                        time: f.time,
                        price: f.price,
                        quantity: f.size,
                        fees: f.fees,
                        slippage: f.slippage,
                    },
                    f.size,
                    asset,
                );
            },
        }
    }
}

} // verus!
