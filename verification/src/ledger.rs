//! What holds of the trade ledger across a buy and the sale that follows.
use vstd::prelude::*;
use crate::accounting::cash_flow;
use crate::broker::FillView;
use crate::engine::noted;
use crate::fixed::{lemma_portion_bounds, product, stored};
use crate::order::OrderDirection;
use crate::trade::{entry_cost, TradeView};
use crate::tracker::{
    after_buy, after_sell, cut, lot_of, rest, settle, well_formed, Sale, TrackerView,
};

verus! {

/// No open lot from place `from` on is of the symbol.
pub open spec fn no_lot_of(t: TrackerView, asset: Seq<char>, from: int) -> bool {
    forall|i: int| from <= i < t.open.len() ==> (#[trigger] t.open[i]).asset != asset
}

/// Matching passes over the lots of other symbols.
pub proof fn lemma_settle_passes_over(t: TrackerView, k: int, until: int, sale: Sale, remaining: i64)
    requires
        0 <= k <= until <= t.open.len(),
        forall|i: int| k <= i < until ==> (#[trigger] t.open[i]).asset != sale.asset,
    ensures
        settle(t, k, sale, remaining) == settle(t, until, sale, remaining),
    decreases until - k,
{
    if k < until {
        assert(t.open[k].asset != sale.asset);
        lemma_settle_passes_over(t, k + 1, until, sale, remaining);
    }
}

/// A single buy of `n`, sold again in one sale of `n` at the price at which
/// it was bought, without fees and without slippage, gives one round trip
/// that earned nothing, in money and, where the entry cost is positive, in
/// percent; and the open lots are what they were before the buy.
pub proof fn lemma_round_trip_at_one_price(
    t: TrackerView,
    asset: Seq<char>,
    bought_at: i64,
    sold_at: i64,
    price: i64,
    n: i64,
)
    requires
        well_formed(t),
        no_lot_of(t, asset, 0),
        t.next_id < u64::MAX,
        n > 0,
    ensures
        after_buy(t, asset, bought_at, price, n, 0, 0).is_ok(),
        after_sell(
            after_buy(t, asset, bought_at, price, n, 0, 0).unwrap(),
            Sale { asset, time: sold_at, price, quantity: n, fees: 0, slippage: 0 },
        ).is_ok(),
        ({
            let end: TrackerView = after_sell(
                after_buy(t, asset, bought_at, price, n, 0, 0).unwrap(),
                Sale { asset, time: sold_at, price, quantity: n, fees: 0, slippage: 0 },
            ).unwrap();
            &&& end.open == t.open
            &&& end.closed.len() == t.closed.len() + 1
            &&& end.closed.drop_last() == t.closed
            &&& end.closed.last().quantity == n
            &&& end.closed.last().entry_price == price
            &&& end.closed.last().exit_price == Some(price)
            &&& end.closed.last().profit_loss == Some(0i64)
            &&& product(price as int, n as int) > 0 ==> end.closed.last().return_pct == Some(0i64)
        }),
{
    assert(0int * n as int == 0);
    let mid: TrackerView = after_buy(t, asset, bought_at, price, n, 0, 0).unwrap();
    let sale: Sale = Sale { asset, time: sold_at, price, quantity: n, fees: 0, slippage: 0 };
    let last: int = t.open.len() as int;
    let lot: TradeView = lot_of(t.next_id, asset, bought_at, price, n, 0, 0);
    assert(mid.open[last] == lot);
    assert forall|i: int| 0 <= i < last implies (#[trigger] mid.open[i]).asset != sale.asset by {
        assert(mid.open[i] == t.open[i]);
    }
    lemma_settle_passes_over(mid, 0, last, sale, n);
    lemma_portion_bounds(0, n as int, n as int);
    let done: TrackerView = TrackerView {
        open: mid.open.remove(last),
        closed: mid.closed.push(cut(lot, n, sale)),
        ..mid
    };
    assert(settle(mid, last, sale, n) == settle(done, last, sale, 0));
    assert(done.open =~= t.open);
    assert(done.closed.drop_last() =~= t.closed);
    let cost: int = entry_cost(TradeView { quantity: n, entry_fees: 0, entry_slippage: 0, ..lot });
    if cost > 0 {
        assert(0int * (100 * crate::fixed::SCALE) == 0);
        assert(0int / cost == 0) by (nonlinear_arith)
            requires
                cost > 0,
        ;
    }
}

/// A single buy of `n` followed by a sale of `k < n` leaves one open lot of
/// `n - k` and gives one round trip of `k`.
pub proof fn lemma_partial_sale(
    t: TrackerView,
    asset: Seq<char>,
    bought_at: i64,
    buy_price: i64,
    n: i64,
    buy_fees: i64,
    buy_slippage: i64,
    sale: Sale,
)
    requires
        well_formed(t),
        no_lot_of(t, asset, 0),
        sale.asset == asset,
        0 < sale.quantity < n,
        after_buy(t, asset, bought_at, buy_price, n, buy_fees, buy_slippage).is_ok(),
        after_sell(
            after_buy(t, asset, bought_at, buy_price, n, buy_fees, buy_slippage).unwrap(),
            sale,
        ).is_ok(),
    ensures
        ({
            let end: TrackerView = after_sell(
                after_buy(t, asset, bought_at, buy_price, n, buy_fees, buy_slippage).unwrap(),
                sale,
            ).unwrap();
            &&& end.open.len() == t.open.len() + 1
            &&& end.open.drop_last() == t.open
            &&& end.open.last().asset == asset
            &&& end.open.last().quantity == n - sale.quantity
            &&& end.open.last().entry_price == buy_price
            &&& end.closed.len() == t.closed.len() + 1
            &&& end.closed.drop_last() == t.closed
            &&& end.closed.last().asset == asset
            &&& end.closed.last().quantity == sale.quantity
            &&& end.closed.last().entry_price == buy_price
            &&& end.closed.last().exit_price == Some(sale.price)
        }),
{
    let mid: TrackerView = after_buy(
        t,
        asset,
        bought_at,
        buy_price,
        n,
        buy_fees,
        buy_slippage,
    ).unwrap();
    let last: int = t.open.len() as int;
    let lot: TradeView = lot_of(t.next_id, asset, bought_at, buy_price, n, buy_fees, buy_slippage);
    let totals: (i64, i64) = crate::tracker::totals_after(
        mid,
        sale.quantity,
        sale.fees,
        sale.slippage,
    ).unwrap();
    let charged: TrackerView = TrackerView {
        total_fees: totals.0,
        total_slippage: totals.1,
        ..mid
    };
    assert(charged.open[last] == lot);
    assert forall|i: int| 0 <= i < last implies (#[trigger] charged.open[i]).asset
        != sale.asset by {
        assert(charged.open[i] == t.open[i]);
    }
    lemma_settle_passes_over(charged, 0, last, sale, sale.quantity);
    let end: TrackerView = settle(charged, last, sale, sale.quantity);
    assert(end.open =~= charged.open.update(last, rest(lot, sale.quantity)));
    assert(end.open.drop_last() =~= t.open);
    assert(end.closed.drop_last() =~= t.closed);
}

/// A single buy, sold again whole in one sale, gives one round trip that
/// earned what the two executions moved the cash by together.
pub proof fn lemma_whole_round_trip_earns_the_cash(t: TrackerView, bought: FillView, sold: FillView)
    requires
        well_formed(t),
        no_lot_of(t, bought.asset, 0),
        bought.direction == OrderDirection::Buy,
        sold.direction == OrderDirection::Sell,
        sold.asset == bought.asset,
        sold.size == bought.size,
        noted(t, bought).is_ok(),
        noted(noted(t, bought).unwrap(), sold).is_ok(),
    ensures
        ({
            let end: TrackerView = noted(noted(t, bought).unwrap(), sold).unwrap();
            &&& end.open == t.open
            &&& end.closed.len() == t.closed.len() + 1
            &&& end.closed.drop_last() == t.closed
            &&& end.closed.last().quantity == bought.size
            &&& end.closed.last().profit_loss == stored(cash_flow(bought) + cash_flow(sold))
        }),
{
    let n: i64 = bought.size;
    let mid: TrackerView = noted(t, bought).unwrap();
    let sale: Sale = Sale {
        asset: sold.asset,
        time: sold.time,
        price: sold.price,
        quantity: sold.size,
        fees: sold.fees,
        slippage: sold.slippage,
    };
    let totals: (i64, i64) = crate::tracker::totals_after(
        mid,
        sale.quantity,
        sale.fees,
        sale.slippage,
    ).unwrap();
    let charged: TrackerView = TrackerView {
        total_fees: totals.0,
        total_slippage: totals.1,
        ..mid
    };
    let last: int = t.open.len() as int;
    let lot: TradeView = lot_of(
        t.next_id,
        bought.asset,
        bought.time,
        bought.price,
        n,
        bought.fees,
        bought.slippage,
    );
    assert(charged.open[last] == lot);
    assert forall|i: int| 0 <= i < last implies (#[trigger] charged.open[i]).asset
        != sale.asset by {
        assert(charged.open[i] == t.open[i]);
    }
    lemma_settle_passes_over(charged, 0, last, sale, n);
    lemma_portion_bounds(bought.fees as int, n as int, n as int);
    lemma_portion_bounds(bought.slippage as int, n as int, n as int);
    lemma_portion_bounds(sold.fees as int, n as int, n as int);
    lemma_portion_bounds(sold.slippage as int, n as int, n as int);
    let done: TrackerView = TrackerView {
        open: charged.open.remove(last),
        closed: charged.closed.push(cut(lot, n, sale)),
        ..charged
    };
    assert(settle(charged, last, sale, n) == settle(done, last, sale, 0));
    assert(done.open =~= t.open);
    assert(done.closed.drop_last() =~= t.closed);
    assert(product(n as int, bought.price as int) == product(bought.price as int, n as int)) by {
        assert(n as int * bought.price as int == bought.price as int * n as int)
            by (nonlinear_arith);
    }
    assert(product(n as int, sold.price as int) == product(sold.price as int, n as int)) by {
        assert(n as int * sold.price as int == sold.price as int * n as int) by (nonlinear_arith);
    }
}

} // verus!
