//! What a trading strategy is to the engine.
use vstd::prelude::*;
use crate::broker::{Broker, BrokerView};
use crate::data::OHLCVData;

verus! {

/// Whether `after` differs from `before` by orders placed and by nothing
/// else: the book has grown at its end, each new order was counted, and the
/// cash, the holdings, the fees, the slippage and the other totals are what
/// they were.
pub open spec fn only_placed(before: BrokerView, after: BrokerView) -> bool {
    &&& after.cash == before.cash
    &&& after.fee_type == before.fee_type
    &&& after.slippage_range == before.slippage_range
    &&& after.portfolio == before.portfolio
    &&& after.pool == before.pool
    &&& after.cursor == before.cursor
    &&& after.analytics.added_funds == before.analytics.added_funds
    &&& after.analytics.total_exec_orders == before.analytics.total_exec_orders
    &&& after.analytics.total_fees == before.analytics.total_fees
    &&& after.analytics.total_slippage == before.analytics.total_slippage
    &&& before.orders.len() <= after.orders.len()
    &&& after.orders.take(before.orders.len() as int) == before.orders
    &&& after.analytics.total_placed_orders - before.analytics.total_placed_orders
        == after.orders.len() - before.orders.len()
}

/// The sample that a tick is given, as a value.
pub open spec fn sample_of(data: Option<&OHLCVData>) -> Option<OHLCVData> {
    match data {
        Some(sample) => Some(*sample),
        None => None,
    }
}

/// A trading strategy. The engine calls `init` once and `tick` at every
/// tick; during `tick` the strategy may look at the broker and place orders,
/// and may do nothing else to it. What a strategy does within these bounds
/// it says itself, in `initialised` and `reacts`.
pub trait Strategy: Sized {
    /// Whether two states of the strategy stand for the same: they are
    /// equal, unless the strategy says otherwise.
    open spec fn alike(one: Self, other: Self) -> bool {
        one == other
    }

    /// Whether `init` may lead from one state of the strategy to another.
    /// A strategy that says nothing may do anything.
    open spec fn initialised(before: Self, after: Self) -> bool {
        true
    }

    /// Whether `tick`, at an instant, with a sample and a broker, may lead
    /// from one state of the strategy to another and leave the broker as
    /// `served`. A strategy that says nothing may do anything that a
    /// strategy may do at all.
    open spec fn reacts(
        before: Self,
        current_time: i64,
        data: Option<OHLCVData>,
        broker: BrokerView,
        after: Self,
        served: BrokerView,
    ) -> bool {
        true
    }

    fn init(&mut self)
        ensures
            Self::initialised(*old(self), *final(self)),
    ;

    fn tick(&mut self, current_time: i64, data: Option<&OHLCVData>, broker: &mut Broker)
        requires
            old(broker).wf(),
        ensures
            final(broker).wf(),
            only_placed(old(broker)@, final(broker)@),
            Self::reacts(
                *old(self),
                current_time,
                sample_of(data),
                old(broker)@,
                *final(self),
                final(broker)@,
            ),
    ;
}

/// Placing an order is something a strategy may do.
pub proof fn lemma_placing_is_allowed(before: BrokerView, after: BrokerView)
    requires
        after.orders.len() == before.orders.len() + 1,
        after == (BrokerView {
            orders: after.orders,
            analytics: crate::broker::BrokerAnalytics {
                total_placed_orders: (before.analytics.total_placed_orders + 1) as u64,
                ..before.analytics
            },
            ..before
        }),
        after.orders.drop_last() == before.orders,
        before.analytics.total_placed_orders < u64::MAX,
    ensures
        only_placed(before, after),
{
    assert(after.orders.take(before.orders.len() as int) =~= after.orders.drop_last());
}

} // verus!
