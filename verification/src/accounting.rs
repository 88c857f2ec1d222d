//! What holds of the broker's books across executions and ticks.
use vstd::prelude::*;
use crate::broker::{
    bought, charged, distinct_assets, fill_of, handled, held, index_of, lemma_bought_well_formed,
    lemma_index_of_unique, lemma_sold_well_formed, outcome, quote_of, slipped_price, sold, walk,
    well_formed, BrokerView, FillView, HoldingView, Quote,
};
use crate::fee::FeeType;
use crate::fixed::{lemma_trunc_div_exact, product, SCALE};
use crate::order::{expired, triggers, OrderDirection, OrderView};
use crate::slippage::within;

verus! {

/// What a list of executions adds to the holding of a symbol: the sizes
/// bought less the sizes sold.
pub open spec fn net_bought(fills: Seq<FillView>, asset: Seq<char>) -> int
    decreases fills.len(),
{
    if fills.len() == 0 {
        0
    } else {
        net_bought(fills.drop_last(), asset) + (if fills.last().asset == asset {
            match fills.last().direction {
                OrderDirection::Buy => fills.last().size as int,
                OrderDirection::Sell => -(fills.last().size as int),
            }
        } else {
            0
        })
    }
}

/// A symbol is absent from a well-formed portfolio exactly when nothing is
/// held of it.
pub proof fn lemma_absent_iff_nothing_held(b: BrokerView, asset: Seq<char>)
    requires
        well_formed(b),
    ensures
        index_of(b.portfolio, asset).is_none() <==> held(b.portfolio, asset) == 0,
{
}

/// A symbol that stands nowhere in a portfolio has no place in it.
proof fn lemma_index_of_none(portfolio: Seq<HoldingView>, asset: Seq<char>)
    requires
        forall|j: int| 0 <= j < portfolio.len() ==> portfolio[j].asset != asset,
    ensures
        index_of(portfolio, asset).is_none(),
        held(portfolio, asset) == 0,
{
}

/// Buying adds the size to the holding of the symbol bought and leaves
/// every other holding as it was.
pub proof fn lemma_bought_holdings(
    portfolio: Seq<HoldingView>,
    asset: Seq<char>,
    size: i64,
    price: i64,
    other: Seq<char>,
)
    requires
        distinct_assets(portfolio),
        forall|i: int| 0 <= i < portfolio.len() ==> (#[trigger] portfolio[i]).position.quantity > 0,
        size > 0,
        crate::fixed::fits(held(portfolio, asset) + size),
    ensures
        held(bought(portfolio, asset, size, price), other) == held(portfolio, other) + (if other
            == asset {
            size as int
        } else {
            0
        }),
{
    let after: Seq<HoldingView> = bought(portfolio, asset, size, price);
    lemma_bought_well_formed(portfolio, asset, size, price);
    let place: int = match index_of(portfolio, asset) {
        Some(i) => i,
        None => portfolio.len() as int,
    };
    assert(after[place].asset == asset);
    if other == asset {
        lemma_index_of_unique(after, asset, place);
    } else {
        match index_of(portfolio, other) {
            Some(j) => {
                assert(after[j] == portfolio[j]);
                lemma_index_of_unique(after, other, j);
            },
            None => {
                assert forall|j: int| 0 <= j < after.len() implies after[j].asset != other by {
                    if j != place {
                        assert(after[j] == portfolio[j]);
                    }
                }
                lemma_index_of_none(after, other);
            },
        }
    }
}

/// Selling takes the size from the holding sold and leaves every other
/// holding as it was.
pub proof fn lemma_sold_holdings(portfolio: Seq<HoldingView>, k: int, size: i64, other: Seq<char>)
    requires
        distinct_assets(portfolio),
        forall|i: int| 0 <= i < portfolio.len() ==> (#[trigger] portfolio[i]).position.quantity > 0,
        0 <= k < portfolio.len(),
        0 < size <= portfolio[k].position.quantity,
    ensures
        held(sold(portfolio, k, size), other) == held(portfolio, other) - (if other
            == portfolio[k].asset {
            size as int
        } else {
            0
        }),
{
    let after: Seq<HoldingView> = sold(portfolio, k, size);
    lemma_sold_well_formed(portfolio, k, size);
    lemma_index_of_unique(portfolio, portfolio[k].asset, k);
    if portfolio[k].position.quantity == size {
        if other == portfolio[k].asset {
            assert forall|j: int| 0 <= j < after.len() implies after[j].asset != other by {
                let a: int = if j < k { j } else { j + 1 };
                assert(after[j] == portfolio[a]);
                if a < k {
                    assert(portfolio[a].asset != portfolio[k].asset);
                } else {
                    assert(portfolio[k].asset != portfolio[a].asset);
                }
            }
            lemma_index_of_none(after, other);
        } else {
            match index_of(portfolio, other) {
                Some(j) => {
                    let a: int = if j < k { j } else { j - 1 };
                    assert(after[a] == portfolio[j]);
                    lemma_index_of_unique(after, other, a);
                },
                None => {
                    assert forall|j: int| 0 <= j < after.len() implies after[j].asset != other by {
                        let a: int = if j < k { j } else { j + 1 };
                        assert(after[j] == portfolio[a]);
                    }
                    lemma_index_of_none(after, other);
                },
            }
        }
    } else {
        if other == portfolio[k].asset {
            lemma_index_of_unique(after, other, k);
        } else {
            match index_of(portfolio, other) {
                Some(j) => {
                    assert(after[j] == portfolio[j]);
                    lemma_index_of_unique(after, other, j);
                },
                None => {
                    assert forall|j: int| 0 <= j < after.len() implies after[j].asset != other by {
                        if j != k {
                            assert(after[j] == portfolio[j]);
                        }
                    }
                    lemma_index_of_none(after, other);
                },
            }
        }
    }
}

/// A completed execution keeps the state well formed, moves the holding of
/// the order's symbol by the order's size, up for a buy and down for a sell,
/// leaves every other holding alone, counts one execution, and leaves the
/// book, the funds added and the count of orders placed as they were.
pub proof fn lemma_execution_moves_one_holding(
    b: BrokerView,
    o: OrderView,
    open: i64,
    asset: Seq<char>,
)
    requires
        well_formed(b),
        o.size > 0,
        outcome(b, o, open).is_ok(),
    ensures
        well_formed(outcome(b, o, open).unwrap()),
        held(outcome(b, o, open).unwrap().portfolio, asset) == held(b.portfolio, asset) + (if asset
            == o.asset {
            match o.direction {
                OrderDirection::Buy => o.size as int,
                OrderDirection::Sell => -(o.size as int),
            }
        } else {
            0
        }),
        outcome(b, o, open).unwrap().orders == b.orders,
        outcome(b, o, open).unwrap().analytics.total_exec_orders == b.analytics.total_exec_orders
            + 1,
        outcome(b, o, open).unwrap().analytics.total_placed_orders
            == b.analytics.total_placed_orders,
        outcome(b, o, open).unwrap().analytics.added_funds == b.analytics.added_funds,
{
    let q: Quote = quote_of(b, o.size, open).unwrap();
    match o.direction {
        OrderDirection::Buy => {
            lemma_bought_well_formed(b.portfolio, o.asset, o.size, q.price);
            lemma_bought_holdings(b.portfolio, o.asset, o.size, q.price, asset);
        },
        OrderDirection::Sell => {
            let k: int = index_of(b.portfolio, o.asset).unwrap();
            lemma_sold_well_formed(b.portfolio, k, o.size);
            lemma_sold_holdings(b.portfolio, k, o.size, asset);
        },
    }
}

/// Cash does not fall below zero in a completed execution: never in a buy;
/// and not in a sell either, where there was cash before it and its fee is
/// no more than its proceeds.
pub proof fn lemma_cash_after_execution(b: BrokerView, o: OrderView, open: i64)
    requires
        outcome(b, o, open).is_ok(),
        o.direction == OrderDirection::Sell ==> b.cash >= 0 && quote_of(b, o.size, open).unwrap().fee
            <= quote_of(b, o.size, open).unwrap().gross,
    ensures
        outcome(b, o, open).unwrap().cash >= 0,
        o.direction == OrderDirection::Sell ==> outcome(b, o, open).unwrap().cash >= b.cash,
{
}

/// The fee that a schedule without charge takes is zero.
pub open spec fn free_of_charge(schedule: Option<FeeType>) -> bool {
    schedule == Some(FeeType::Percentage(0)) || schedule == Some(FeeType::Flat(0))
        || schedule.is_none()
}

/// With no fee and a pool of zeros an execution takes place at the opening
/// price, and costs neither fee nor slippage.
pub proof fn lemma_quote_without_friction(b: BrokerView, size: i64, open: i64)
    requires
        well_formed(b),
        free_of_charge(b.fee_type),
        within(b.pool, 0, 0),
        quote_of(b, size, open).is_some(),
    ensures
        quote_of(b, size, open).unwrap().price == open,
        quote_of(b, size, open).unwrap().fee == 0,
        quote_of(b, size, open).unwrap().slippage == 0,
        quote_of(b, size, open).unwrap().slippage_cost == 0,
{
    if b.pool.len() > 0 {
        assert(b.pool[b.cursor] == 0);
        lemma_trunc_div_exact(open as int, SCALE as int);
        assert(open as int * (SCALE + 0) == open as int * SCALE as int);
    }
    assert(slipped_price(b, open) == open);
    assert(0 * size as int == 0);
    let gross: int = product(size as int, open as int);
    assert(gross * 0 == 0);
}

/// What holds of a tick from place `i` of the book on, whatever was
/// reported before.
pub proof fn lemma_walk_accounts(
    b: BrokerView,
    i: int,
    reported: Seq<FillView>,
    now: i64,
    open: i64,
    asset: Seq<char>,
)
    requires
        well_formed(b),
        0 <= i <= b.orders.len(),
    ensures
        well_formed(walk(b, i, reported, now, open).0),
        held(walk(b, i, reported, now, open).0.portfolio, asset) - net_bought(
            walk(b, i, reported, now, open).1,
            asset,
        ) == held(b.portfolio, asset) - net_bought(reported, asset),
        walk(b, i, reported, now, open).0.analytics.total_exec_orders - walk(
            b,
            i,
            reported,
            now,
            open,
        ).1.len() == b.analytics.total_exec_orders - reported.len(),
        walk(b, i, reported, now, open).0.analytics.total_placed_orders
            == b.analytics.total_placed_orders,
        walk(b, i, reported, now, open).0.analytics.added_funds == b.analytics.added_funds,
        walk(b, i, reported, now, open).0.orders.len() + walk(b, i, reported, now, open).1.len()
            <= b.orders.len() + reported.len(),
    decreases b.orders.len() - i,
{
    if i < b.orders.len() {
        let o: OrderView = b.orders[i];
        let shorter: Seq<OrderView> = b.orders.remove(i);
        assert forall|j: int| 0 <= j < shorter.len() implies (#[trigger] shorter[j]).size > 0 by {
            let a: int = if j < i { j } else { j + 1 };
            assert(shorter[j] == b.orders[a]);
        }
        if expired(o.valid_until, now) {
            lemma_walk_accounts(BrokerView { orders: shorter, ..b }, i, reported, now, open, asset);
        } else if !triggers(o.order_type, o.direction, open) {
            lemma_walk_accounts(b, i + 1, reported, now, open, asset);
        } else {
            match outcome(b, o, open) {
                Ok(next) => {
                    lemma_execution_moves_one_holding(b, o, open, asset);
                    let fill: FillView = fill_of(b, o, now, open);
                    let longer: Seq<FillView> = reported.push(fill);
                    assert(longer.drop_last() =~= reported);
                    assert(longer.last() == fill);
                    lemma_walk_accounts(
                        BrokerView { orders: shorter, ..next },
                        i,
                        longer,
                        now,
                        open,
                        asset,
                    );
                },
                Err(_) => {
                    lemma_walk_accounts(b, i + 1, reported, now, open, asset);
                },
            }
        }
    }
}

/// Over a whole tick the state stays well formed; for every symbol, what is
/// held after the tick is what was held before it, plus the sizes bought and
/// less the sizes sold in the executions reported; and each execution
/// reported is counted once.
pub proof fn lemma_tick_accounts(b: BrokerView, now: i64, open: i64, asset: Seq<char>)
    requires
        well_formed(b),
    ensures
        well_formed(handled(b, now, open).0),
        held(handled(b, now, open).0.portfolio, asset) == held(b.portfolio, asset) + net_bought(
            handled(b, now, open).1,
            asset,
        ),
        handled(b, now, open).0.analytics.total_exec_orders == b.analytics.total_exec_orders
            + handled(b, now, open).1.len(),
        handled(b, now, open).0.analytics.total_placed_orders == b.analytics.total_placed_orders,
        handled(b, now, open).0.analytics.added_funds == b.analytics.added_funds,
        handled(b, now, open).0.orders.len() + handled(b, now, open).1.len() <= b.orders.len(),
{
    lemma_walk_accounts(b, 0, Seq::empty(), now, open, asset);
}

/// Whether an execution reported at `now` is that of an order of the book
/// from place `from` on which has not expired and which fires at the opening
/// price.
pub open spec fn from_live_order(
    fill: FillView,
    orders: Seq<OrderView>,
    from: int,
    now: i64,
    open: i64,
) -> bool {
    exists|j: int|
        from <= j < orders.len() && !expired((#[trigger] orders[j]).valid_until, now) && triggers(
            orders[j].order_type,
            orders[j].direction,
            open,
        ) && fill.asset == orders[j].asset && fill.direction == orders[j].direction && fill.size
            == orders[j].size && fill.time == now
}

/// Whether an order stands in the book at place `from` or later.
pub open spec fn stands_in(order: OrderView, orders: Seq<OrderView>, from: int) -> bool {
    exists|j: int| from <= j < orders.len() && #[trigger] orders[j] == order
}

/// What holds of a tick from place `i` of the book on: what was reported
/// before stays; every further report is that of a live order that fires;
/// the book before place `i` is untouched; and every order left from there
/// on is an order of the book that has not expired.
pub proof fn lemma_walk_spares_expired(
    b: BrokerView,
    i: int,
    reported: Seq<FillView>,
    now: i64,
    open: i64,
)
    requires
        0 <= i <= b.orders.len(),
    ensures
        reported.len() <= walk(b, i, reported, now, open).1.len(),
        forall|k: int|
            0 <= k < reported.len() ==> #[trigger] walk(b, i, reported, now, open).1[k]
                == reported[k],
        forall|k: int|
            reported.len() <= k < walk(b, i, reported, now, open).1.len() ==> from_live_order(
                #[trigger] walk(b, i, reported, now, open).1[k],
                b.orders,
                i,
                now,
                open,
            ),
        i <= walk(b, i, reported, now, open).0.orders.len(),
        forall|k: int|
            0 <= k < i ==> #[trigger] walk(b, i, reported, now, open).0.orders[k] == b.orders[k],
        forall|k: int|
            i <= k < walk(b, i, reported, now, open).0.orders.len() ==> !expired(
                (#[trigger] walk(b, i, reported, now, open).0.orders[k]).valid_until,
                now,
            ) && stands_in(walk(b, i, reported, now, open).0.orders[k], b.orders, i),
    decreases b.orders.len() - i,
{
    if i < b.orders.len() {
        let o: OrderView = b.orders[i];
        let shorter: Seq<OrderView> = b.orders.remove(i);
        let end: (BrokerView, Seq<FillView>) = walk(b, i, reported, now, open);
        if expired(o.valid_until, now) {
            let inner: BrokerView = BrokerView { orders: shorter, ..b };
            lemma_walk_spares_expired(inner, i, reported, now, open);
            assert forall|k: int| reported.len() <= k < end.1.len() implies from_live_order(
                #[trigger] end.1[k],
                b.orders,
                i,
                now,
                open,
            ) by {
                assert(from_live_order(end.1[k], shorter, i, now, open));
                let j: int = choose|j: int|
                    i <= j < shorter.len() && !expired((#[trigger] shorter[j]).valid_until, now)
                        && triggers(shorter[j].order_type, shorter[j].direction, open)
                        && end.1[k].asset == shorter[j].asset && end.1[k].direction
                        == shorter[j].direction && end.1[k].size == shorter[j].size
                        && end.1[k].time == now;
                assert(shorter[j] == b.orders[j + 1]);
            }
            assert forall|k: int| i <= k < end.0.orders.len() implies !expired(
                (#[trigger] end.0.orders[k]).valid_until,
                now,
            ) && stands_in(end.0.orders[k], b.orders, i) by {
                assert(stands_in(end.0.orders[k], shorter, i));
                let j: int = choose|j: int|
                    i <= j < shorter.len() && #[trigger] shorter[j] == end.0.orders[k];
                assert(b.orders[j + 1] == end.0.orders[k]);
            }
            assert forall|k: int| 0 <= k < i implies #[trigger] end.0.orders[k] == b.orders[k] by {
                assert(shorter[k] == b.orders[k]);
            }
        } else {
            let stays: bool = !triggers(o.order_type, o.direction, open) || outcome(
                b,
                o,
                open,
            ).is_err();
            if stays {
                lemma_walk_spares_expired(b, i + 1, reported, now, open);
                assert(end == walk(b, i + 1, reported, now, open));
                assert forall|k: int| reported.len() <= k < end.1.len() implies from_live_order(
                    #[trigger] end.1[k],
                    b.orders,
                    i,
                    now,
                    open,
                ) by {
                    assert(from_live_order(end.1[k], b.orders, i + 1, now, open));
                    let j: int = choose|j: int|
                        i + 1 <= j < b.orders.len() && !expired(
                            (#[trigger] b.orders[j]).valid_until,
                            now,
                        ) && triggers(b.orders[j].order_type, b.orders[j].direction, open)
                            && end.1[k].asset == b.orders[j].asset && end.1[k].direction
                            == b.orders[j].direction && end.1[k].size == b.orders[j].size
                            && end.1[k].time == now;
                    assert(i <= j);
                }
                assert forall|k: int| i <= k < end.0.orders.len() implies !expired(
                    (#[trigger] end.0.orders[k]).valid_until,
                    now,
                ) && stands_in(end.0.orders[k], b.orders, i) by {
                    if k == i {
                        assert(end.0.orders[i] == b.orders[i]);
                    } else {
                        assert(stands_in(end.0.orders[k], b.orders, i + 1));
                        let j: int = choose|j: int|
                            i + 1 <= j < b.orders.len() && #[trigger] b.orders[j]
                                == end.0.orders[k];
                        assert(i <= j);
                    }
                }
            } else {
                let next: BrokerView = outcome(b, o, open).unwrap();
                let fill: FillView = fill_of(b, o, now, open);
                let longer: Seq<FillView> = reported.push(fill);
                let inner: BrokerView = BrokerView { orders: shorter, ..next };
                lemma_walk_spares_expired(inner, i, longer, now, open);
                assert forall|k: int| 0 <= k < reported.len() implies #[trigger] end.1[k]
                    == reported[k] by {
                    assert(longer[k] == reported[k]);
                }
                assert forall|k: int| reported.len() <= k < end.1.len() implies from_live_order(
                    #[trigger] end.1[k],
                    b.orders,
                    i,
                    now,
                    open,
                ) by {
                    if k == reported.len() {
                        assert(end == walk(inner, i, longer, now, open));
                        assert(end.1[k] == longer[k]);
                        assert(b.orders[i] == o);
                    } else {
                        assert(from_live_order(end.1[k], shorter, i, now, open));
                        let j: int = choose|j: int|
                            i <= j < shorter.len() && !expired(
                                (#[trigger] shorter[j]).valid_until,
                                now,
                            ) && triggers(shorter[j].order_type, shorter[j].direction, open)
                                && end.1[k].asset == shorter[j].asset && end.1[k].direction
                                == shorter[j].direction && end.1[k].size == shorter[j].size
                                && end.1[k].time == now;
                        assert(shorter[j] == b.orders[j + 1]);
                    }
                }
                assert forall|k: int| i <= k < end.0.orders.len() implies !expired(
                    (#[trigger] end.0.orders[k]).valid_until,
                    now,
                ) && stands_in(end.0.orders[k], b.orders, i) by {
                    assert(stands_in(end.0.orders[k], shorter, i));
                    let j: int = choose|j: int|
                        i <= j < shorter.len() && #[trigger] shorter[j] == end.0.orders[k];
                    assert(b.orders[j + 1] == end.0.orders[k]);
                }
                assert forall|k: int| 0 <= k < i implies #[trigger] end.0.orders[k]
                    == b.orders[k] by {
                    assert(shorter[k] == b.orders[k]);
                }
            }
        }
    }
}

/// An order past its expiry never executes: every execution that a tick
/// reports is that of an order of the book which has not expired at that
/// tick and which fires at its opening price, and no expired order is left
/// in the book.
pub proof fn lemma_expired_orders_never_execute(b: BrokerView, now: i64, open: i64)
    ensures
        forall|k: int|
            0 <= k < handled(b, now, open).1.len() ==> from_live_order(
                #[trigger] handled(b, now, open).1[k],
                b.orders,
                0,
                now,
                open,
            ),
        forall|k: int|
            0 <= k < handled(b, now, open).0.orders.len() ==> !expired(
                (#[trigger] handled(b, now, open).0.orders[k]).valid_until,
                now,
            ) && stands_in(handled(b, now, open).0.orders[k], b.orders, 0),
{
    lemma_walk_spares_expired(b, 0, Seq::empty(), now, open);
}

/// An order is still live at the very instant of its expiry: alone in the
/// book, firing and executable, it executes at that tick.
pub proof fn lemma_order_live_at_its_expiry(b: BrokerView, now: i64, open: i64)
    requires
        b.orders.len() == 1,
        b.orders[0].valid_until == Some(now),
        triggers(b.orders[0].order_type, b.orders[0].direction, open),
        outcome(b, b.orders[0], open).is_ok(),
    ensures
        !expired(b.orders[0].valid_until, now),
        handled(b, now, open).1 == seq![fill_of(b, b.orders[0], now, open)],
        handled(b, now, open).0 == (BrokerView {
            orders: Seq::<OrderView>::empty(),
            ..outcome(b, b.orders[0], open).unwrap()
        }),
{
    reveal_with_fuel(walk, 3);
    let next: BrokerView = outcome(b, b.orders[0], open).unwrap();
    assert(b.orders.remove(0) =~= Seq::<OrderView>::empty());
    assert(Seq::<FillView>::empty().push(fill_of(b, b.orders[0], now, open)) =~= seq![
        fill_of(b, b.orders[0], now, open),
    ]);
}

/// With no fee and a pool of zeros, a tick leaves the totals of fees and of
/// slippage where they were.
pub proof fn lemma_walk_without_friction(
    b: BrokerView,
    i: int,
    reported: Seq<FillView>,
    now: i64,
    open: i64,
)
    requires
        well_formed(b),
        0 <= i <= b.orders.len(),
        free_of_charge(b.fee_type),
        within(b.pool, 0, 0),
    ensures
        walk(b, i, reported, now, open).0.analytics.total_fees == b.analytics.total_fees,
        walk(b, i, reported, now, open).0.analytics.total_slippage == b.analytics.total_slippage,
    decreases b.orders.len() - i,
{
    if i < b.orders.len() {
        let o: OrderView = b.orders[i];
        let shorter: Seq<OrderView> = b.orders.remove(i);
        assert forall|j: int| 0 <= j < shorter.len() implies (#[trigger] shorter[j]).size > 0 by {
            let a: int = if j < i { j } else { j + 1 };
            assert(shorter[j] == b.orders[a]);
        }
        if expired(o.valid_until, now) {
            lemma_walk_without_friction(
                BrokerView { orders: shorter, ..b },
                i,
                reported,
                now,
                open,
            );
        } else if !triggers(o.order_type, o.direction, open) {
            lemma_walk_without_friction(b, i + 1, reported, now, open);
        } else {
            match outcome(b, o, open) {
                Ok(next) => {
                    lemma_execution_moves_one_holding(b, o, open, o.asset);
                    lemma_quote_without_friction(b, o.size, open);
                    lemma_walk_without_friction(
                        BrokerView { orders: shorter, ..next },
                        i,
                        reported.push(fill_of(b, o, now, open)),
                        now,
                        open,
                    );
                },
                Err(_) => {
                    lemma_walk_without_friction(b, i + 1, reported, now, open);
                },
            }
        }
    }
}

/// With a fee of nothing and slippage bounds of zero, a broker that has
/// charged no fee and no slippage has charged none after a tick either.
pub proof fn lemma_tick_without_friction(b: BrokerView, now: i64, open: i64)
    requires
        well_formed(b),
        free_of_charge(b.fee_type),
        within(b.pool, 0, 0),
        b.analytics.total_fees == 0,
        b.analytics.total_slippage == 0,
    ensures
        handled(b, now, open).0.analytics.total_fees == 0,
        handled(b, now, open).0.analytics.total_slippage == 0,
{
    lemma_walk_without_friction(b, 0, Seq::empty(), now, open);
}

/// What an execution moves the cash by: a buy takes its gross amount and its
/// fee, a sell brings its gross amount less its fee.
pub open spec fn cash_flow(f: FillView) -> int {
    match f.direction {
        OrderDirection::Buy => -(product(f.size as int, f.price as int) + f.fees),
        OrderDirection::Sell => product(f.size as int, f.price as int) - f.fees,
    }
}

/// A completed execution moves the cash by the cash flow of its report, and
/// the report carries the order's symbol, side and size.
pub proof fn lemma_execution_cash(b: BrokerView, o: OrderView, now: i64, open: i64)
    requires
        outcome(b, o, open).is_ok(),
    ensures
        outcome(b, o, open).unwrap().cash == b.cash + cash_flow(fill_of(b, o, now, open)),
        fill_of(b, o, now, open).asset == o.asset,
        fill_of(b, o, now, open).direction == o.direction,
        fill_of(b, o, now, open).size == o.size,
        fill_of(b, o, now, open).time == now,
        fill_of(b, o, now, open).price == slipped_price(b, open),
{
}

/// What executions move the cash by together.
pub open spec fn cash_flows(fills: Seq<FillView>) -> int
    decreases fills.len(),
{
    if fills.len() == 0 {
        0
    } else {
        cash_flows(fills.drop_last()) + cash_flow(fills.last())
    }
}

/// The fees of executions together.
pub open spec fn fees_of(fills: Seq<FillView>) -> int
    decreases fills.len(),
{
    if fills.len() == 0 {
        0
    } else {
        fees_of(fills.drop_last()) + fills.last().fees
    }
}

/// The slippage of executions together, each on its whole size.
pub open spec fn slippage_of(fills: Seq<FillView>) -> int
    decreases fills.len(),
{
    if fills.len() == 0 {
        0
    } else {
        slippage_of(fills.drop_last()) + product(
            fills.last().slippage as int,
            fills.last().size as int,
        )
    }
}

/// What holds of the cash and of the totals of fees and of slippage along a
/// tick from place `i` of the book on, whatever was reported before.
pub proof fn lemma_walk_totals(b: BrokerView, i: int, reported: Seq<FillView>, now: i64, open: i64)
    requires
        0 <= i <= b.orders.len(),
    ensures
        walk(b, i, reported, now, open).0.cash - cash_flows(walk(b, i, reported, now, open).1)
            == b.cash - cash_flows(reported),
        walk(b, i, reported, now, open).0.analytics.total_fees - fees_of(
            walk(b, i, reported, now, open).1,
        ) == b.analytics.total_fees - fees_of(reported),
        walk(b, i, reported, now, open).0.analytics.total_slippage - slippage_of(
            walk(b, i, reported, now, open).1,
        ) == b.analytics.total_slippage - slippage_of(reported),
    decreases b.orders.len() - i,
{
    if i < b.orders.len() {
        let o: OrderView = b.orders[i];
        let shorter: Seq<OrderView> = b.orders.remove(i);
        if expired(o.valid_until, now) {
            lemma_walk_totals(BrokerView { orders: shorter, ..b }, i, reported, now, open);
        } else if !triggers(o.order_type, o.direction, open) {
            lemma_walk_totals(b, i + 1, reported, now, open);
        } else {
            match outcome(b, o, open) {
                Ok(next) => {
                    lemma_execution_cash(b, o, now, open);
                    let fill: FillView = fill_of(b, o, now, open);
                    let longer: Seq<FillView> = reported.push(fill);
                    assert(longer.drop_last() =~= reported);
                    assert(longer.last() == fill);
                    lemma_walk_totals(BrokerView { orders: shorter, ..next }, i, longer, now, open);
                },
                Err(_) => {
                    lemma_walk_totals(b, i + 1, reported, now, open);
                },
            }
        }
    }
}

/// Over a whole tick the cash moves by the cash flows of the executions
/// reported, and the totals of fees and of slippage grow by theirs.
pub proof fn lemma_tick_totals(b: BrokerView, now: i64, open: i64)
    ensures
        handled(b, now, open).0.cash == b.cash + cash_flows(handled(b, now, open).1),
        handled(b, now, open).0.analytics.total_fees == b.analytics.total_fees + fees_of(
            handled(b, now, open).1,
        ),
        handled(b, now, open).0.analytics.total_slippage == b.analytics.total_slippage
            + slippage_of(handled(b, now, open).1),
{
    lemma_walk_totals(b, 0, Seq::empty(), now, open);
}

/// Whether a broker charges no negative fee and moves no price below
/// nothing: its fee schedule, if it has one, is acceptable, and its slippage
/// takes no more than the whole price.
pub open spec fn fair(b: BrokerView) -> bool {
    &&& b.fee_type matches Some(schedule) ==> crate::fee::acceptable(schedule)
    &&& b.slippage_range.0 >= -SCALE
}

/// A fair broker executes at an opening price that is not negative at a
/// price that is not negative, for a fee that is not negative.
pub proof fn lemma_fair_execution(b: BrokerView, o: OrderView, now: i64, open: i64)
    requires
        well_formed(b),
        fair(b),
        open >= 0,
        o.size > 0,
        outcome(b, o, open).is_ok(),
    ensures
        fill_of(b, o, now, open).price >= 0,
        fill_of(b, o, now, open).fees >= 0,
{
    let q: Quote = quote_of(b, o.size, open).unwrap();
    if b.pool.len() > 0 {
        let s: i64 = b.pool[b.cursor];
        assert(open as int * (SCALE + s) >= 0) by (nonlinear_arith)
            requires
                open >= 0,
                SCALE + s >= 0,
        ;
        crate::fixed::lemma_trunc_div_bounds(open as int * (SCALE + s), SCALE as int);
    }
    assert(q.price >= 0);
    assert(o.size as int * q.price as int >= 0) by (nonlinear_arith)
        requires
            o.size > 0,
            q.price >= 0,
    ;
    crate::fixed::lemma_trunc_div_bounds(o.size as int * q.price as int, SCALE as int);
    match b.fee_type {
        Some(FeeType::Percentage(fraction)) => {
            assert(q.gross as int * fraction as int >= 0) by (nonlinear_arith)
                requires
                    q.gross >= 0,
                    fraction >= 0,
            ;
            crate::fixed::lemma_trunc_div_bounds(q.gross as int * fraction as int, SCALE as int);
        },
        _ => {},
    }
}

/// Along a tick the fee schedule, the slippage bounds and the pool stay as
/// they are; and a fair broker, at an opening price that is not negative,
/// reports only prices and fees that are not negative.
pub proof fn lemma_walk_is_fair(b: BrokerView, i: int, reported: Seq<FillView>, now: i64, open: i64)
    requires
        well_formed(b),
        0 <= i <= b.orders.len(),
    ensures
        walk(b, i, reported, now, open).0.fee_type == b.fee_type,
        walk(b, i, reported, now, open).0.slippage_range == b.slippage_range,
        walk(b, i, reported, now, open).0.pool == b.pool,
        fair(b) && open >= 0 ==> forall|k: int|
            reported.len() <= k < walk(b, i, reported, now, open).1.len() ==> (#[trigger] walk(
                b,
                i,
                reported,
                now,
                open,
            ).1[k]).price >= 0 && walk(b, i, reported, now, open).1[k].fees >= 0,
    decreases b.orders.len() - i,
{
    let end: (BrokerView, Seq<FillView>) = walk(b, i, reported, now, open);
    if i < b.orders.len() {
        let o: OrderView = b.orders[i];
        let shorter: Seq<OrderView> = b.orders.remove(i);
        assert forall|j: int| 0 <= j < shorter.len() implies (#[trigger] shorter[j]).size > 0 by {
            let a: int = if j < i { j } else { j + 1 };
            assert(shorter[j] == b.orders[a]);
        }
        if expired(o.valid_until, now) {
            let inner: BrokerView = BrokerView { orders: shorter, ..b };
            assert(end == walk(inner, i, reported, now, open));
            lemma_walk_is_fair(inner, i, reported, now, open);
        } else if !triggers(o.order_type, o.direction, open) || outcome(b, o, open).is_err() {
            assert(end == walk(b, i + 1, reported, now, open));
            lemma_walk_is_fair(b, i + 1, reported, now, open);
        } else {
            let next: BrokerView = outcome(b, o, open).unwrap();
            let fill: FillView = fill_of(b, o, now, open);
            let longer: Seq<FillView> = reported.push(fill);
            let inner: BrokerView = BrokerView { orders: shorter, ..next };
            lemma_execution_moves_one_holding(b, o, open, o.asset);
            assert(end == walk(inner, i, longer, now, open));
            lemma_walk_is_fair(inner, i, longer, now, open);
            lemma_walk_spares_expired(inner, i, longer, now, open);
            if fair(b) && open >= 0 {
                lemma_fair_execution(b, o, now, open);
                assert(end.1[reported.len() as int] == longer[reported.len() as int]);
            }
        }
    }
}

/// A first buy of a symbol opens a holding of the size bought at the
/// execution price; and a sale of less than is held leaves the holding in
/// its place, smaller by the size sold and at the average price it had.
pub proof fn lemma_holding_after_execution(b: BrokerView, o: OrderView, now: i64, open: i64)
    requires
        well_formed(b),
        o.size > 0,
        outcome(b, o, open).is_ok(),
    ensures
        o.direction == OrderDirection::Buy && index_of(b.portfolio, o.asset).is_none() ==> ({
            let after: Seq<HoldingView> = outcome(b, o, open).unwrap().portfolio;
            &&& index_of(after, o.asset) == Some(b.portfolio.len() as int)
            &&& after.last().position.quantity == o.size
            &&& after.last().position.average_price == fill_of(b, o, now, open).price
        }),
        o.direction == OrderDirection::Sell && held(b.portfolio, o.asset) > o.size ==> ({
            let after: Seq<HoldingView> = outcome(b, o, open).unwrap().portfolio;
            let place: int = index_of(b.portfolio, o.asset).unwrap();
            &&& index_of(after, o.asset) == Some(place)
            &&& after[place].position.quantity == b.portfolio[place].position.quantity - o.size
            &&& after[place].position.average_price == b.portfolio[place].position.average_price
        }),
{
    lemma_execution_moves_one_holding(b, o, open, o.asset);
    let after: Seq<HoldingView> = outcome(b, o, open).unwrap().portfolio;
    if o.direction == OrderDirection::Buy && index_of(b.portfolio, o.asset).is_none() {
        lemma_index_of_unique(after, o.asset, b.portfolio.len() as int);
    }
    if o.direction == OrderDirection::Sell && held(b.portfolio, o.asset) > o.size {
        let place: int = index_of(b.portfolio, o.asset).unwrap();
        lemma_index_of_unique(after, o.asset, place);
    }
}

} // verus!
