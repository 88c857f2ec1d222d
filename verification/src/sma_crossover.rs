//! A strategy that follows two moving averages of the closing price.
use vstd::prelude::*;
use crate::broker::{offered, Broker, BrokerView};
use crate::data::OHLCVData;
use crate::fixed::{div_trunc, lemma_trunc_div_between, trunc_div, SCALE};
use crate::order::{Order, OrderDirection, OrderType, OrderView};
use crate::strategy::{lemma_placing_is_allowed, only_placed, Strategy};

verus! {

/// Buys one unit when the short average rises above the long one and sells
/// it when the short average falls below.
pub struct SMACrossoverStrategy {
    pub short_period: usize,
    pub long_period: usize,
    pub position_open: bool,
    /// The samples seen so far, oldest first.
    pub history: Vec<OHLCVData>,
}

/// The sum of the closing prices of samples.
pub open spec fn closes_sum(data: Seq<OHLCVData>) -> int
    decreases data.len(),
{
    if data.len() == 0 {
        0
    } else {
        closes_sum(data.drop_last()) + data.last().close
    }
}

/// The mean closing price of the last `period` samples; zero where there
/// are fewer, and for a period of zero.
pub open spec fn sma_of(data: Seq<OHLCVData>, period: int) -> int {
    if period <= 0 || data.len() < period {
        0
    } else {
        trunc_div(closes_sum(data.subrange(data.len() - period, data.len() as int)), period)
    }
}

/// The order by which the strategy buys or sells its one unit.
pub open spec fn unit_order(direction: OrderDirection) -> OrderView {
    OrderView {
        asset: "AAPL"@,
        direction,
        size: SCALE,
        order_type: OrderType::Market,
        valid_until: None,
    }
}

/// What the averages tell a strategy to do: buy when it holds nothing and
/// the short average is above the long one, sell when it holds its unit and
/// the short average is below.
pub open spec fn signal(position_open: bool, short: int, long: int) -> Option<OrderDirection> {
    if !position_open && short > long {
        Some(OrderDirection::Buy)
    } else if position_open && short < long {
        Some(OrderDirection::Sell)
    } else {
        None
    }
}

/// A sum of closing prices lies between the count times the least and the
/// count times the greatest value that can be stored.
pub proof fn lemma_closes_sum_bounds(data: Seq<OHLCVData>)
    ensures
        data.len() * i64::MIN <= closes_sum(data) <= data.len() * i64::MAX,
    decreases data.len(),
{
    if data.len() > 0 {
        lemma_closes_sum_bounds(data.drop_last());
        assert(data.len() * i64::MIN == (data.len() - 1) * i64::MIN + i64::MIN) by (nonlinear_arith);
        assert(data.len() * i64::MAX == (data.len() - 1) * i64::MAX + i64::MAX) by (nonlinear_arith);
    } else {
        assert(0 * i64::MIN == 0) by (nonlinear_arith);
        assert(0 * i64::MAX == 0) by (nonlinear_arith);
    }
}

impl SMACrossoverStrategy {
    pub fn new(short_period: usize, long_period: usize) -> (r: SMACrossoverStrategy)
        ensures
            r.short_period == short_period,
            r.long_period == long_period,
            !r.position_open,
            r.history@.len() == 0,
    {
        SMACrossoverStrategy {
            short_period,
            long_period,
            position_open: false,
            history: Vec::new(),
        }
    }

    /// The mean closing price of the last `period` samples.
    pub fn calculate_sma(data: &Vec<OHLCVData>, period: usize) -> (r: i64)
        ensures
            r == sma_of(data@, period as int),
    {
        if period == 0 || data.len() < period {
            return 0;
        }
        let first: usize = data.len() - period;
        let ghost window: Seq<OHLCVData> = data@.subrange(first as int, data@.len() as int);
        let mut sum: i128 = 0;
        let mut k: usize = 0;
        while k < period
            invariant
                k <= period,
                first + period == data@.len(),
                data@.len() <= usize::MAX,
                window == data@.subrange(first as int, data@.len() as int),
                sum == closes_sum(window.take(k as int)),
                k * i64::MIN <= sum <= k * i64::MAX,
            decreases period - k,
        {
            proof {
                assert(window.take(k as int + 1).drop_last() =~= window.take(k as int));
                assert(window.take(k as int + 1).last() == data@[first + k]);
                lemma_closes_sum_bounds(window.take(k as int + 1));
                assert(0x1_0000_0000_0000_0000 * i64::MAX < i128::MAX) by (nonlinear_arith);
                assert(k * i64::MAX <= 0x1_0000_0000_0000_0000 * i64::MAX) by (nonlinear_arith)
                    requires
                        0 <= k <= 0x1_0000_0000_0000_0000,
                ;
                assert(k * i64::MIN >= 0x1_0000_0000_0000_0000 * i64::MIN) by (nonlinear_arith)
                    requires
                        0 <= k <= 0x1_0000_0000_0000_0000,
                ;
            }
            sum = sum + data[first + k].close as i128;
            k += 1;
        }
        proof {
            assert(window.take(k as int) =~= window);
            lemma_trunc_div_between(sum as int, period as int, i64::MIN as int, i64::MAX as int);
        }
        div_trunc(sum, period as i128) as i64
    }

    /// Places the order that the averages call for, if they call for one.
    pub fn check_for_crossover(&mut self, broker: &mut Broker)
        requires
            old(broker).wf(),
        ensures
            final(broker).wf(),
            only_placed(old(broker)@, final(broker)@),
            final(self).short_period == old(self).short_period,
            final(self).long_period == old(self).long_period,
            final(self).history == old(self).history,
            match signal(
                old(self).position_open,
                sma_of(old(self).history@, old(self).short_period as int),
                sma_of(old(self).history@, old(self).long_period as int),
            ) {
                Some(direction) => final(broker)@ == offered(old(broker)@, unit_order(direction))
                    && final(self).position_open == (direction == OrderDirection::Buy),
                None => final(broker)@ == old(broker)@ && final(self).position_open == old(
                    self,
                ).position_open,
            },
    {
        let short: i64 = SMACrossoverStrategy::calculate_sma(&self.history, self.short_period);
        let long: i64 = SMACrossoverStrategy::calculate_sma(&self.history, self.long_period);
        proof {
            assert(broker@.orders.take(broker@.orders.len() as int) =~= broker@.orders);
        }
        if !self.position_open && short > long {
            let order: Order = Order {
                asset: "AAPL".to_owned(),
                direction: OrderDirection::Buy,
                size: SCALE,
                order_type: OrderType::Market,
                valid_until: None,
            };
            let accepted: bool = broker.place_order(order);
            proof {
                if accepted {
                    assert(broker@.orders.drop_last() =~= old(broker)@.orders);
                    lemma_placing_is_allowed(old(broker)@, broker@);
                }
            }
            self.position_open = true;
        } else if self.position_open && short < long {
            let order: Order = Order {
                asset: "AAPL".to_owned(),
                direction: OrderDirection::Sell,
                size: SCALE,
                order_type: OrderType::Market,
                valid_until: None,
            };
            let accepted: bool = broker.place_order(order);
            proof {
                if accepted {
                    assert(broker@.orders.drop_last() =~= old(broker)@.orders);
                    lemma_placing_is_allowed(old(broker)@, broker@);
                }
            }
            self.position_open = false;
        }
    }
}

/// The strategy after it has seen a sample: the sample joins the history
/// and the unit is held or not as the averages said.
pub open spec fn after_sample(before: SMACrossoverStrategy, sample: OHLCVData) -> SMACrossoverStrategy {
    let history: Seq<OHLCVData> = before.history@.push(sample);
    SMACrossoverStrategy {
        position_open: match signal(
            before.position_open,
            sma_of(history, before.short_period as int),
            sma_of(history, before.long_period as int),
        ) {
            Some(direction) => direction == OrderDirection::Buy,
            None => before.position_open,
        },
        ..before
    }
}

impl Strategy for SMACrossoverStrategy {
    open spec fn alike(one: Self, other: Self) -> bool {
        &&& one.short_period == other.short_period
        &&& one.long_period == other.long_period
        &&& one.position_open == other.position_open
        &&& one.history@ == other.history@
    }

    open spec fn initialised(before: Self, after: Self) -> bool {
        &&& !after.position_open
        &&& after.short_period == before.short_period
        &&& after.long_period == before.long_period
        &&& after.history == before.history
    }

    open spec fn reacts(
        before: Self,
        current_time: i64,
        data: Option<OHLCVData>,
        broker: BrokerView,
        after: Self,
        served: BrokerView,
    ) -> bool {
        match data {
            None => after == before && served == broker,
            Some(sample) => {
                &&& after.short_period == before.short_period
                &&& after.long_period == before.long_period
                &&& after.history@ == before.history@.push(sample)
                &&& after.position_open == after_sample(before, sample).position_open
                &&& served == (match signal(
                    before.position_open,
                    sma_of(after.history@, before.short_period as int),
                    sma_of(after.history@, before.long_period as int),
                ) {
                    Some(direction) => offered(broker, unit_order(direction)),
                    None => broker,
                })
            },
        }
    }

    fn init(&mut self) {
        self.position_open = false;
    }

    fn tick(&mut self, current_time: i64, data: Option<&OHLCVData>, broker: &mut Broker) {
        proof {
            assert(broker@.orders.take(broker@.orders.len() as int) =~= broker@.orders);
        }
        match data {
            Some(sample) => {
                self.history.push(*sample);
                self.check_for_crossover(broker);
            },
            None => {},
        }
    }
}

/// What the crossover strategy does is determined by what it is given.
pub proof fn lemma_crossover_is_determined()
    ensures
        crate::replay::determined::<SMACrossoverStrategy>(),
{
}

} // verus!
