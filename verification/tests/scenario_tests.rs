use backtest_engine::broker::{Broker, ExecutionError, Fill};
use backtest_engine::data::OHLCVData;
use backtest_engine::engine::{catch_up, market_step, record_fills, Engine, EngineError};
use backtest_engine::fee::FeeType;
use backtest_engine::metrics::UNBOUNDED;
use backtest_engine::order::{Order, OrderDirection, OrderType};
use backtest_engine::strategy::Strategy;
use backtest_engine::tracker::TradeTracker;

const DAY: i64 = 86_400;

fn units(x: f64) -> i64 {
    (x * 1_000_000.0).round() as i64
}

fn bar(timestamp: i64, open: f64, close: f64) -> OHLCVData {
    let high = if open > close { open } else { close };
    let low = if open > close { close } else { open };
    OHLCVData {
        timestamp,
        open: units(open),
        high: units(high),
        low: units(low),
        close: units(close),
        volume: 1000,
    }
}

fn order(direction: OrderDirection, size: f64, order_type: OrderType, valid_until: Option<i64>) -> Order {
    Order { asset: "AAPL".to_string(), direction, size: units(size), order_type, valid_until }
}

/// Places given orders at given instants.
struct Scripted {
    script: Vec<(i64, Order)>,
    ticks: Vec<i64>,
}

impl Strategy for Scripted {
    fn init(&mut self) {}

    fn tick(&mut self, current_time: i64, _data: Option<&OHLCVData>, broker: &mut Broker) {
        self.ticks.push(current_time);
        for (at, order) in self.script.iter() {
            if *at == current_time {
                broker.place_order(order.clone());
            }
        }
    }
}

fn scripted(script: Vec<(i64, Order)>) -> Scripted {
    Scripted { script, ticks: Vec::new() }
}

#[test]
fn flat_profit_through_the_engine() {
    let start = 1_000 * DAY;
    let strategy = scripted(vec![
        (start, order(OrderDirection::Buy, 1.0, OrderType::Market, None)),
        (start + DAY / 2, order(OrderDirection::Sell, 1.0, OrderType::Market, None)),
    ]);
    let mut engine = Engine::new(strategy, (start, start + DAY));
    engine.set_tick(DAY / 2);
    engine.add_data(vec![bar(start, 100.0, 100.0), bar(start + DAY, 110.0, 110.0)]);
    let mut broker = Broker::new();
    assert!(broker.set_cash(units(1000.0)));
    broker.set_fees(FeeType::Flat(units(1.0)));
    assert!(broker.install_slippage(0, 0, vec![0; 4]));
    engine.set_broker(broker);

    let result = engine.run().unwrap();

    assert_eq!(engine.strategy.ticks, vec![start, start + DAY / 2, start + DAY]);
    assert_eq!(result.trades.len(), 1);
    let trade = &result.trades[0];
    assert_eq!(trade.entry_price, units(100.0));
    assert_eq!(trade.exit_price, Some(units(110.0)));
    assert_eq!(trade.profit_loss, Some(units(8.0)));
    assert_eq!(engine.broker.cash(), units(1008.0));
    assert_eq!(result.metrics.cash, units(1008.0));
    assert_eq!(result.metrics.roi, units(0.8));
    assert_eq!(result.metrics.total_trades, 1);
    assert_eq!(result.metrics.winning_trades, 1);
    assert_eq!(result.metrics.losing_trades, 0);
    assert_eq!(result.metrics.win_rate, units(100.0));
    assert_eq!(result.metrics.profit_factor, UNBOUNDED);
    assert_eq!(result.metrics.total_fees, units(2.0));
    assert_eq!(result.metrics.total_slippage, 0);
    assert_eq!(result.metrics.gross_profit, units(8.0));
    assert_eq!(result.metrics.net_profit, units(6.0));
    assert_eq!(result.metrics.num_orders_placed, 2);
    assert_eq!(result.metrics.num_orders_executed, 2);
    assert_eq!(result.metrics.max_drawdown, units(-0.1));
    assert_eq!(result.metrics.max_drawdown_duration_days, 0);
    assert_eq!(result.metrics.sharpe_ratio, 12_334_491);
    assert_eq!(result.metrics.avg_trade_duration_hours, units(12.0));
    assert_eq!(result.metrics.buy_hold_final_value, units(1097.9));
    assert_eq!(result.metrics.buy_hold_net_profit, units(97.9));
    assert_eq!(result.metrics.buy_hold_roi, units(9.79));
    assert_eq!(
        engine.tracker.get_equity_curve().to_vec(),
        vec![
            (start, units(1000.0)),
            (start + DAY / 2, units(999.0)),
            (start + DAY, units(1008.0)),
        ]
    );
}

#[test]
fn insufficient_cash_keeps_the_order_for_the_next_tick() {
    let mut broker = Broker::new();
    broker.set_cash(units(50.0));
    broker.set_fees(FeeType::Flat(units(1.0)));
    broker.place_order(order(OrderDirection::Buy, 1.0, OrderType::Market, None));

    let fills = broker.handle_unfulfilled_orders(10, &bar(10, 100.0, 100.0));
    assert!(fills.is_empty());
    assert_eq!(broker.orders().len(), 1);
    assert_eq!(broker.cash(), units(50.0));
    assert_eq!(broker.analytics().total_exec_orders, 0);
    assert_eq!(broker.analytics().total_fees, 0);

    let fills = broker.handle_unfulfilled_orders(20, &bar(20, 40.0, 40.0));
    assert_eq!(fills.len(), 1);
    assert_eq!(broker.orders().len(), 0);
    assert_eq!(broker.cash(), units(9.0));
    assert_eq!(broker.analytics().total_exec_orders, 1);
}

#[test]
fn limit_order_expires_before_its_price_is_reached() {
    let t = 5_000;
    let mut broker = Broker::new();
    broker.set_cash(units(1000.0));
    broker.place_order(order(OrderDirection::Buy, 1.0, OrderType::Limit(units(90.0)), Some(t)));

    let fills = broker.handle_unfulfilled_orders(t, &bar(t, 95.0, 95.0));
    assert!(fills.is_empty());
    assert_eq!(broker.orders().len(), 1);

    let fills = broker.handle_unfulfilled_orders(t + 1, &bar(t + 1, 85.0, 85.0));
    assert!(fills.is_empty());
    assert_eq!(broker.orders().len(), 0);
    assert_eq!(broker.cash(), units(1000.0));
    assert_eq!(broker.portfolio().len(), 0);
    assert_eq!(broker.analytics().total_exec_orders, 0);
}

#[test]
fn order_is_live_at_the_instant_of_its_expiry() {
    let t = 5_000;
    let mut broker = Broker::new();
    broker.set_cash(units(1000.0));
    broker.place_order(order(OrderDirection::Buy, 1.0, OrderType::Market, Some(t)));
    let fills = broker.handle_unfulfilled_orders(t, &bar(t, 95.0, 95.0));
    assert_eq!(fills.len(), 1);
    assert_eq!(fills[0].time, t);
    assert_eq!(broker.cash(), units(905.0));
}

#[test]
fn expired_orders_never_execute() {
    let mut broker = Broker::new();
    broker.set_cash(units(1000.0));
    broker.place_order(order(OrderDirection::Buy, 1.0, OrderType::Market, Some(99)));
    broker.place_order(order(OrderDirection::Buy, 2.0, OrderType::Market, None));
    broker.place_order(order(OrderDirection::Buy, 3.0, OrderType::Market, Some(50)));
    let fills = broker.handle_unfulfilled_orders(100, &bar(100, 10.0, 10.0));
    assert_eq!(fills.len(), 1);
    assert_eq!(fills[0].size, units(2.0));
    assert_eq!(broker.orders().len(), 0);
    assert_eq!(broker.cash(), units(980.0));
}

#[test]
fn limit_and_stop_orders_fire_on_the_opening_price() {
    let mut broker = Broker::new();
    broker.set_cash(units(10_000.0));
    broker.insert_position(
        "AAPL".to_string(),
        backtest_engine::position::Position::new(units(10.0), units(100.0)),
    );
    broker.place_order(order(OrderDirection::Buy, 1.0, OrderType::Limit(units(99.0)), None));
    broker.place_order(order(OrderDirection::Sell, 1.0, OrderType::Limit(units(101.0)), None));
    broker.place_order(order(OrderDirection::Buy, 1.0, OrderType::Stop(units(101.0)), None));
    broker.place_order(order(OrderDirection::Sell, 1.0, OrderType::Stop(units(99.0)), None));

    // At 100 nothing fires.
    assert!(broker.handle_unfulfilled_orders(1, &bar(1, 100.0, 100.0)).is_empty());
    assert_eq!(broker.orders().len(), 4);

    // At 101 the limit sell and the stop buy fire, in the order of the book.
    let fills = broker.handle_unfulfilled_orders(2, &bar(2, 101.0, 101.0));
    assert_eq!(fills.len(), 2);
    assert_eq!(fills[0].direction, OrderDirection::Sell);
    assert_eq!(fills[1].direction, OrderDirection::Buy);
    assert_eq!(broker.orders().len(), 2);

    // At 99 the limit buy and the stop sell fire.
    let fills = broker.handle_unfulfilled_orders(3, &bar(3, 99.0, 99.0));
    assert_eq!(fills.len(), 2);
    assert_eq!(fills[0].direction, OrderDirection::Buy);
    assert_eq!(fills[1].direction, OrderDirection::Sell);
    assert!(broker.orders().is_empty());
    assert_eq!(broker.position_quantity(&"AAPL".to_string()), units(10.0));
}

#[test]
fn percentage_fees() {
    let mut broker = Broker::new();
    broker.set_cash(units(10_000.0));
    broker.set_fees(FeeType::Percentage(units(0.01)));
    let mut tracker = TradeTracker::new();

    broker.place_order(order(OrderDirection::Buy, 10.0, OrderType::Market, None));
    let fills = broker.handle_unfulfilled_orders(1, &bar(1, 100.0, 100.0));
    assert_eq!(fills[0].fees, units(10.0));
    assert_eq!(broker.cash(), units(8990.0));
    assert!(record_fills(&mut tracker, &fills).is_ok());

    broker.place_order(order(OrderDirection::Sell, 10.0, OrderType::Market, None));
    let fills = broker.handle_unfulfilled_orders(2, &bar(2, 110.0, 110.0));
    assert_eq!(fills[0].fees, units(11.0));
    assert_eq!(broker.cash(), units(10_079.0));
    assert!(record_fills(&mut tracker, &fills).is_ok());

    let closed = tracker.get_closed_trades();
    assert_eq!(closed.len(), 1);
    assert_eq!(closed[0].profit_loss, Some(units(79.0)));
    assert_eq!(closed[0].quantity, units(10.0));
    assert!(tracker.get_open_trades().is_empty());
    assert_eq!(tracker.total_fees(), units(21.0));
}

#[test]
fn no_fee_and_no_slippage_charge_nothing() {
    let mut broker = Broker::new();
    broker.set_cash(units(1000.0));
    broker.set_fees(FeeType::Percentage(0));
    assert!(broker.set_slippage(0, 0, 1));
    broker.place_order(order(OrderDirection::Buy, 2.0, OrderType::Market, None));
    broker.handle_unfulfilled_orders(1, &bar(1, 100.0, 100.0));
    broker.place_order(order(OrderDirection::Sell, 1.0, OrderType::Market, None));
    broker.handle_unfulfilled_orders(2, &bar(2, 120.0, 120.0));
    assert_eq!(broker.analytics().total_exec_orders, 2);
    assert_eq!(broker.analytics().total_fees, 0);
    assert_eq!(broker.analytics().total_slippage, 0);
    assert_eq!(broker.cash(), units(920.0));
}

fn run_with_pool(pool: Vec<i64>) -> (Vec<Fill>, String) {
    let mut broker = Broker::new();
    broker.set_cash(units(10_000.0));
    broker.set_fees(FeeType::Percentage(units(0.001)));
    assert!(broker.install_slippage(units(-0.01), units(0.01), pool));
    let mut tracker = TradeTracker::new();
    let mut all = Vec::new();
    for (t, open) in [(1, 100.0), (2, 104.0), (3, 97.0), (4, 111.0)] {
        let direction = if t % 2 == 1 { OrderDirection::Buy } else { OrderDirection::Sell };
        broker.place_order(order(direction, 3.0, OrderType::Market, None));
        let fills = broker.handle_unfulfilled_orders(t, &bar(t, open, open));
        record_fills(&mut tracker, &fills).unwrap();
        all.extend(fills);
    }
    (all, format!("{:?}", tracker.get_closed_trades()))
}

#[test]
fn same_pool_gives_the_same_ledger() {
    let pool = vec![units(0.01), units(-0.01), units(0.005), 0, units(-0.0025)];
    let (fills_a, ledger_a) = run_with_pool(pool.clone());
    let (fills_b, ledger_b) = run_with_pool(pool);
    assert_eq!(format!("{:?}", fills_a), format!("{:?}", fills_b));
    assert_eq!(ledger_a, ledger_b);
    assert_eq!(fills_a.len(), 4);
    assert_eq!(fills_a[0].price, units(101.0));
    assert_eq!(fills_a[0].slippage, units(1.0));
    assert_eq!(fills_a[1].price, units(102.96));
    assert_eq!(fills_a[1].slippage, units(-1.04));
}

#[test]
fn slippage_pool_is_used_round_robin() {
    let mut broker = Broker::new();
    broker.set_cash(units(10_000.0));
    assert!(broker.install_slippage(units(-0.5), units(0.5), vec![units(0.5), units(-0.5)]));
    let mut prices = Vec::new();
    for t in 0..3 {
        broker.place_order(order(OrderDirection::Buy, 1.0, OrderType::Market, None));
        let fills = broker.handle_unfulfilled_orders(t, &bar(t, 100.0, 100.0));
        prices.push(fills[0].price);
    }
    assert_eq!(prices, vec![units(150.0), units(50.0), units(150.0)]);
    assert_eq!(broker.analytics().total_slippage, units(50.0));
}

#[test]
fn rejected_execution_uses_no_draw() {
    let mut broker = Broker::new();
    assert!(broker.install_slippage(units(0.0), units(0.5), vec![units(0.5), units(0.0)]));
    broker.place_order(order(OrderDirection::Buy, 1.0, OrderType::Market, None));
    assert!(broker.handle_unfulfilled_orders(1, &bar(1, 100.0, 100.0)).is_empty());
    assert_eq!(broker.apply_slippage(units(100.0)), Some(units(150.0)));
    assert_eq!(broker.analytics().total_slippage, 0);
}

#[test]
fn drawn_pool_lies_within_the_bounds() {
    let mut broker = Broker::new();
    assert!(broker.set_slippage(units(-0.01), units(0.02), 42));
    assert_eq!(broker.slippage_range(), (units(-0.01), units(0.02)));
    assert_eq!(broker.slippage_pool().len(), 10_000);
    assert!(broker.slippage_pool().iter().all(|s| units(-0.01) <= *s && *s <= units(0.02)));
    assert!(broker.slippage_pool().iter().any(|s| *s != broker.slippage_pool()[0]));

    assert!(broker.set_slippage(units(0.005), units(0.005), 42));
    assert!(broker.slippage_pool().iter().all(|s| *s == units(0.005)));
    assert_eq!(broker.apply_slippage(units(100.0)), Some(units(100.5)));
}

#[test]
fn slippage_bounds_out_of_order_are_refused() {
    let mut broker = Broker::new();
    assert!(!broker.set_slippage(units(0.02), units(0.01), 42));
    assert_eq!(broker.slippage_range(), (0, 0));
    assert!(broker.slippage_pool().is_empty());
    assert!(!broker.install_slippage(0, units(0.01), vec![units(0.02)]));
    assert!(broker.slippage_pool().is_empty());
}

#[test]
fn each_execution_error_has_an_input() {
    let mut broker = Broker::new();
    broker.set_cash(units(10.0));
    let buy = order(OrderDirection::Buy, 1.0, OrderType::Market, None);
    let sell = order(OrderDirection::Sell, 2.0, OrderType::Market, None);
    assert_eq!(
        broker.execute_order(&buy, 1, units(100.0)).unwrap_err(),
        ExecutionError::InsufficientCash
    );
    assert_eq!(broker.execute_order(&sell, 1, units(1.0)).unwrap_err(), ExecutionError::NoPosition);
    assert!(broker.execute_order(&buy, 1, units(5.0)).is_ok());
    assert_eq!(
        broker.execute_order(&sell, 1, units(1.0)).unwrap_err(),
        ExecutionError::InsufficientQuantity
    );
    let huge = Order {
        asset: "AAPL".to_string(),
        direction: OrderDirection::Buy,
        size: i64::MAX,
        order_type: OrderType::Market,
        valid_until: None,
    };
    assert_eq!(
        broker.execute_order(&huge, 1, i64::MAX).unwrap_err(),
        ExecutionError::OutOfRange
    );
    assert_eq!(broker.cash(), units(5.0));
    assert_eq!(ExecutionError::InsufficientCash.message(), "Not enough cash");
    assert_eq!(ExecutionError::NoPosition.message(), "Position not found in portfolio");
    assert_eq!(ExecutionError::InsufficientQuantity.message(), "Not enough quantity to sell");
}

#[test]
fn cash_is_never_negative_after_a_buy() {
    let mut broker = Broker::new();
    broker.set_cash(units(101.0));
    broker.set_fees(FeeType::Flat(units(1.0)));
    for t in 0..3 {
        broker.place_order(order(OrderDirection::Buy, 1.0, OrderType::Market, None));
        broker.handle_unfulfilled_orders(t, &bar(t, 50.0, 50.0));
        assert!(broker.cash() >= 0);
    }
    assert_eq!(broker.cash(), units(50.0));
    assert_eq!(broker.position_quantity(&"AAPL".to_string()), units(1.0));
    assert_eq!(broker.orders().len(), 2);
}

#[test]
fn holdings_are_what_was_bought_less_what_was_sold() {
    let mut broker = Broker::new();
    broker.set_cash(units(10_000.0));
    let aapl = "AAPL".to_string();
    let mut net = 0;
    for (t, direction, size) in [
        (1, OrderDirection::Buy, 3.0),
        (2, OrderDirection::Buy, 2.5),
        (3, OrderDirection::Sell, 4.0),
        (4, OrderDirection::Sell, 9.0),
        (5, OrderDirection::Sell, 1.5),
    ] {
        broker.place_order(order(direction, size, OrderType::Market, Some(t)));
        for fill in broker.handle_unfulfilled_orders(t, &bar(t, 10.0, 10.0)) {
            net += if fill.direction == OrderDirection::Buy { fill.size } else { -fill.size };
        }
        assert_eq!(broker.position_quantity(&aapl), net);
        assert_eq!(broker.position(&aapl).is_none(), net == 0);
    }
    assert_eq!(net, 0);
    assert_eq!(broker.analytics().total_exec_orders, 4);
}

#[test]
fn place_order_refuses_a_size_that_is_not_positive() {
    let mut broker = Broker::new();
    assert!(!broker.place_order(order(OrderDirection::Buy, 0.0, OrderType::Market, None)));
    assert!(!broker.place_order(order(OrderDirection::Buy, -1.0, OrderType::Market, None)));
    assert!(broker.orders().is_empty());
    assert_eq!(broker.analytics().total_placed_orders, 0);
}

#[test]
fn set_cash_adds_to_the_funds() {
    let mut broker = Broker::new();
    assert!(broker.set_cash(units(100.0)));
    assert!(broker.set_cash(units(250.0)));
    assert_eq!(broker.cash(), units(250.0));
    assert_eq!(broker.analytics().added_funds, units(350.0));
    assert!(broker.set_cash(i64::MAX - units(350.0)));
    assert!(!broker.set_cash(1));
    assert_eq!(broker.cash(), i64::MAX - units(350.0));
}

#[test]
fn portfolio_is_valued_at_the_close() {
    let mut broker = Broker::new();
    broker.insert_position(
        "AAPL".to_string(),
        backtest_engine::position::Position::new(units(2.0), units(10.0)),
    );
    broker.insert_position(
        "MSFT".to_string(),
        backtest_engine::position::Position::new(units(0.5), units(10.0)),
    );
    assert_eq!(broker.portfolio_value(&bar(1, 100.0, 80.0)), Some(units(200.0)));
    assert_eq!(broker.calculate_fees(units(100.0)), Some(0));
    broker.insert_position(
        "HUGE".to_string(),
        backtest_engine::position::Position::new(i64::MAX, units(10.0)),
    );
    assert_eq!(broker.portfolio_value(&bar(1, 100.0, 80.0)), None);
}

#[test]
fn empty_feed_is_an_error() {
    let mut engine = Engine::new(scripted(vec![]), (0, 100));
    assert_eq!(engine.run().unwrap_err(), EngineError::DataFeedEmpty);
    engine.set_tick(0);
    assert_eq!(engine.run().unwrap_err(), EngineError::DataFeedEmpty);
    assert_eq!(EngineError::DataFeedEmpty.message(), "Error: Data feed is empty.");
}

#[test]
fn tick_that_is_not_positive_is_an_error() {
    let mut engine = Engine::new(scripted(vec![]), (0, 100));
    engine.add_data(vec![bar(0, 1.0, 1.0)]);
    engine.set_tick(0);
    assert_eq!(engine.run().unwrap_err(), EngineError::InvalidTick);
    engine.set_tick(-60);
    assert_eq!(engine.run().unwrap_err(), EngineError::InvalidTick);
    assert!(engine.strategy.ticks.is_empty());
}

#[test]
fn equity_that_cannot_be_stored_is_an_error() {
    let mut engine = Engine::new(scripted(vec![]), (0, 100));
    engine.add_data(vec![bar(0, 1.0, 2.0)]);
    let mut broker = Broker::new();
    broker.set_cash(i64::MAX);
    broker.insert_position(
        "AAPL".to_string(),
        backtest_engine::position::Position::new(units(1.0), units(1.0)),
    );
    engine.set_broker(broker);
    assert_eq!(engine.run().unwrap_err(), EngineError::OutOfRange);
}

#[test]
fn feed_of_one_sample_gives_one_tick() {
    let mut engine = Engine::new(scripted(vec![]), (500, 10_000));
    engine.add_data(vec![bar(500, 10.0, 10.0)]);
    let mut broker = Broker::new();
    broker.set_cash(units(100.0));
    engine.set_broker(broker);
    let result = engine.run().unwrap();
    assert_eq!(engine.strategy.ticks, vec![500]);
    assert_eq!(engine.tracker.get_equity_curve().to_vec(), vec![(500, units(100.0))]);
    assert_eq!(result.metrics.sharpe_ratio, 0);
    assert!(result.trades.is_empty());
}

#[test]
fn ticks_stop_at_the_end_and_at_the_last_sample() {
    // The default tick is a minute.
    let mut engine = Engine::new(scripted(vec![]), (0, 1_000));
    engine.add_data(vec![bar(0, 10.0, 10.0), bar(120, 11.0, 11.0), bar(200, 12.0, 12.0)]);
    engine.run().unwrap();
    assert_eq!(engine.strategy.ticks, vec![0, 60, 120, 180]);

    let mut engine = Engine::new(scripted(vec![]), (0, 100));
    engine.add_data(vec![bar(0, 10.0, 10.0), bar(120, 11.0, 11.0), bar(200, 12.0, 12.0)]);
    engine.run().unwrap();
    assert_eq!(engine.strategy.ticks, vec![0, 60]);

    let mut engine = Engine::new(scripted(vec![]), (100, 0));
    engine.add_data(vec![bar(0, 10.0, 10.0)]);
    engine.run().unwrap();
    assert!(engine.strategy.ticks.is_empty());
    assert!(engine.tracker.get_equity_curve().is_empty());
}

#[test]
fn equity_curve_increases_in_time_and_marks_at_the_close() {
    let mut engine = Engine::new(
        scripted(vec![(0, order(OrderDirection::Buy, 1.0, OrderType::Market, None))]),
        (0, 300),
    );
    engine.set_tick(100);
    engine.add_data(vec![
        bar(0, 10.0, 10.0),
        bar(100, 10.0, 12.0),
        bar(150, 50.0, 50.0),
        bar(200, 12.0, 9.0),
        bar(300, 9.0, 11.0),
    ]);
    let mut broker = Broker::new();
    broker.set_cash(units(100.0));
    engine.set_broker(broker);
    let result = engine.run().unwrap();
    let curve = engine.tracker.get_equity_curve().to_vec();
    assert_eq!(
        curve,
        vec![(0, units(100.0)), (100, units(102.0)), (200, units(99.0)), (300, units(101.0))]
    );
    assert!(curve.windows(2).all(|w| w[0].0 < w[1].0));
    // No round trip: the figures are all zero.
    assert_eq!(result.metrics, Default::default());
    assert_eq!(engine.broker.position_quantity(&"AAPL".to_string()), units(1.0));
}

#[test]
fn orders_placed_at_a_tick_execute_at_the_next() {
    let mut engine = Engine::new(
        scripted(vec![
            (0, order(OrderDirection::Buy, 1.0, OrderType::Market, None)),
            (100, order(OrderDirection::Sell, 1.0, OrderType::Market, None)),
        ]),
        (0, 200),
    );
    engine.set_tick(100);
    engine.add_data(vec![bar(0, 10.0, 10.0), bar(100, 20.0, 20.0), bar(200, 30.0, 30.0)]);
    let mut broker = Broker::new();
    broker.set_cash(units(100.0));
    engine.set_broker(broker);
    let result = engine.run().unwrap();
    assert_eq!(result.trades.len(), 1);
    assert_eq!(result.trades[0].id, 1);
    assert_eq!(result.trades[0].entry_time, 100);
    assert_eq!(result.trades[0].entry_price, units(20.0));
    assert_eq!(result.trades[0].exit_time, Some(200));
    assert_eq!(result.trades[0].exit_price, Some(units(30.0)));
    assert_eq!(result.trades[0].profit_loss, Some(units(10.0)));
    assert_eq!(result.trades[0].return_pct, Some(units(50.0)));
    assert_eq!(result.metrics.largest_win, units(10.0));
    assert_eq!(result.metrics.avg_win, units(10.0));
    assert_eq!(result.metrics.roi, units(10.0));
}

#[test]
fn open_lots_account_for_the_holdings() {
    let buy = |size: f64| order(OrderDirection::Buy, size, OrderType::Market, None);
    let sell = |size: f64| order(OrderDirection::Sell, size, OrderType::Market, None);
    let mut engine = Engine::new(
        scripted(vec![
            (0, buy(2.0)),
            (0, buy(1.5)),
            (100, sell(3.0)),
            (100, sell(5.0)),
            (200, buy(0.25)),
            (300, sell(0.5)),
        ]),
        (0, 400),
    );
    engine.set_tick(100);
    engine.add_data((0..5).map(|k| bar(100 * k, 10.0 + k as f64, 10.0)).collect());
    let mut broker = Broker::new();
    broker.set_cash(units(1000.0));
    broker.set_fees(FeeType::Percentage(units(0.001)));
    engine.set_broker(broker);
    let result = engine.run().unwrap();

    let open: i64 = engine.tracker.get_open_trades().iter().map(|lot| lot.quantity).sum();
    assert_eq!(open, units(0.25));
    assert_eq!(engine.broker.position_quantity(&"AAPL".to_string()), open);
    // The sale of five is never covered and stays in the book.
    assert_eq!(engine.broker.orders().len(), 1);
    assert_eq!(engine.broker.orders()[0].size, units(5.0));
    assert_eq!(result.metrics.num_orders_placed, 6);
    assert_eq!(result.metrics.num_orders_executed, 5);
    // Two lots, three sales: the first sale closes the first lot and a part of the second.
    let sizes: Vec<i64> = result.trades.iter().map(|t| t.quantity).collect();
    assert_eq!(sizes, vec![units(2.0), units(1.0), units(0.5)]);
    let ids: Vec<u64> = result.trades.iter().map(|t| t.id).collect();
    assert_eq!(ids, vec![1, 2, 2]);
}

#[test]
fn whole_round_trips_earn_what_the_cash_gained() {
    let mut broker = Broker::new();
    broker.set_cash(units(1000.0));
    broker.set_fees(FeeType::Percentage(units(0.0025)));
    assert!(broker.install_slippage(units(-0.01), units(0.01), vec![units(0.01), units(-0.007)]));
    let mut tracker = TradeTracker::new();
    for (t, direction, open) in [
        (1, OrderDirection::Buy, 10.37),
        (2, OrderDirection::Sell, 12.91),
        (3, OrderDirection::Buy, 11.11),
        (4, OrderDirection::Sell, 9.73),
    ] {
        broker.place_order(order(direction, 3.3, OrderType::Market, None));
        let fills = broker.handle_unfulfilled_orders(t, &bar(t, open, open));
        assert_eq!(fills.len(), 1);
        record_fills(&mut tracker, &fills).unwrap();
    }
    let earned: i64 = tracker.get_closed_trades().iter().map(|t| t.profit_loss.unwrap()).sum();
    assert_eq!(tracker.get_closed_trades().len(), 2);
    assert_eq!(earned, broker.cash() - units(1000.0));
    assert_eq!(tracker.total_fees(), broker.analytics().total_fees);
    assert_eq!(tracker.total_slippage(), broker.analytics().total_slippage);
}

#[test]
fn feed_is_followed_to_the_latest_sample_that_is_not_in_the_future() {
    let feed: Vec<OHLCVData> = [10, 20, 30, 40].iter().map(|t| bar(*t, 1.0, 1.0)).collect();
    assert_eq!(catch_up(&feed, 0, 5), 0);
    assert_eq!(catch_up(&feed, 0, 10), 0);
    assert_eq!(catch_up(&feed, 0, 29), 1);
    assert_eq!(catch_up(&feed, 0, 30), 2);
    assert_eq!(catch_up(&feed, 1, 1_000), 3);
    assert_eq!(catch_up(&feed, 3, 0), 3);
}

#[test]
fn market_part_of_a_tick() {
    let mut broker = Broker::new();
    broker.set_cash(units(100.0));
    broker.place_order(order(OrderDirection::Buy, 2.0, OrderType::Market, None));
    let mut tracker = TradeTracker::new();
    assert_eq!(market_step(&mut broker, &mut tracker, 7, &bar(7, 10.0, 12.0)), Ok(()));
    assert_eq!(broker.cash(), units(80.0));
    assert_eq!(tracker.get_open_trades().len(), 1);
    assert_eq!(tracker.get_open_trades()[0].entry_time, 7);
    assert_eq!(tracker.get_equity_curve().to_vec(), vec![(7, units(104.0))]);

    // Cash that is taken once more would count twice among the funds added.
    assert!(!broker.set_cash(i64::MAX));
    let mut rich = Broker::new();
    assert!(rich.set_cash(i64::MAX));
    rich.insert_position(
        "AAPL".to_string(),
        backtest_engine::position::Position::new(units(1.0), units(1.0)),
    );
    assert_eq!(
        market_step(&mut rich, &mut tracker, 8, &bar(8, 10.0, 12.0)),
        Err(EngineError::OutOfRange)
    );
    assert_eq!(tracker.get_equity_curve().len(), 1);
}

#[test]
fn pool_is_a_function_of_the_bounds_and_the_seed() {
    let mut a = Broker::new();
    let mut b = Broker::new();
    let mut c = Broker::new();
    assert!(a.set_slippage(units(-0.01), units(0.01), 2024));
    assert!(b.set_slippage(units(-0.01), units(0.01), 2024));
    assert!(c.set_slippage(units(-0.01), units(0.01), 2025));
    assert_eq!(a.slippage_pool(), b.slippage_pool());
    assert_ne!(a.slippage_pool(), c.slippage_pool());
    // The pool of the next seed is this pool moved by one place.
    assert_eq!(a.slippage_pool()[1..], c.slippage_pool()[..9_999]);
    // Setting the slippage again starts the pool anew.
    a.set_cash(units(1000.0));
    a.place_order(order(OrderDirection::Buy, 1.0, OrderType::Market, None));
    let first = a.handle_unfulfilled_orders(1, &bar(1, 100.0, 100.0))[0].price;
    assert!(a.set_slippage(units(-0.01), units(0.01), 2024));
    a.place_order(order(OrderDirection::Buy, 1.0, OrderType::Market, None));
    let again = a.handle_unfulfilled_orders(2, &bar(2, 100.0, 100.0))[0].price;
    assert_eq!(first, again);
}

#[test]
fn run_without_a_tick_succeeds_where_the_worth_can_be_stored() {
    let mut engine = Engine::new(scripted(vec![]), (100, 0));
    engine.add_data(vec![bar(0, 10.0, 10.0)]);
    let mut broker = Broker::new();
    broker.insert_position(
        "AAPL".to_string(),
        backtest_engine::position::Position::new(units(2.0), units(1.0)),
    );
    engine.set_broker(broker);
    assert!(engine.run().is_ok());

    let mut broker = Broker::new();
    broker.insert_position(
        "AAPL".to_string(),
        backtest_engine::position::Position::new(i64::MAX, units(1.0)),
    );
    engine.set_broker(broker);
    assert_eq!(engine.run().unwrap_err(), EngineError::OutOfRange);
    assert!(engine.strategy.ticks.is_empty());
}
