use backtest_engine::broker::Broker;
use backtest_engine::data::OHLCVData;
use backtest_engine::fee::FeeType;
use backtest_engine::order::{Order, OrderDirection, OrderType};
use backtest_engine::position::Position;
use chrono::NaiveDateTime;

fn units(x: f64) -> i64 {
    (x * 1_000_000.0).round() as i64
}

fn create_dummy_date(date: &str) -> i64 {
    NaiveDateTime::parse_from_str(date, "%Y-%m-%d %H:%M:%S")
        .expect("Invalid date")
        .and_utc()
        .timestamp()
}

fn create_dummy_price(open: f64, high: f64, low: f64, close: f64) -> OHLCVData {
    OHLCVData {
        timestamp: create_dummy_date("1999-11-01 00:00:00"),
        open: units(open),
        high: units(high),
        low: units(low),
        close: units(close),
        volume: 1000,
    }
}

fn market_order(direction: OrderDirection) -> Order {
    Order {
        asset: "AAPL".to_string(),
        direction,
        size: units(1.0),
        order_type: OrderType::Market,
        valid_until: None,
    }
}

#[test]
fn broker_is_order_placed() {
    let mut broker = Broker::new();
    let order = market_order(OrderDirection::Buy);
    broker.place_order(order);

    assert_eq!(broker.analytics().total_placed_orders, 1);
    assert_eq!(broker.analytics().total_exec_orders, 0);
    assert_eq!(broker.orders().len(), 1);
    assert_eq!(broker.orders()[0].asset, "AAPL");
    assert_eq!(broker.orders()[0].direction, OrderDirection::Buy);
    assert_eq!(broker.orders()[0].size, units(1.0));
    assert_eq!(broker.orders()[0].order_type, OrderType::Market);
}

#[test]
fn broker_is_buy_market_order_executed() {
    let mut broker = Broker::new();
    let order = market_order(OrderDirection::Buy);
    broker.set_cash(units(1000.0));
    broker.set_fees(FeeType::Flat(units(1.0)));
    broker.place_order(order);

    let dummy_price = create_dummy_price(100.0, 101.0, 98.0, 99.0);
    broker.handle_unfulfilled_orders(create_dummy_date("1999-11-01 00:00:00"), &dummy_price);

    assert_eq!(broker.cash(), units(899.0));
    assert_eq!(broker.portfolio_value(&dummy_price), Some(units(99.0)));

    let position = broker.position(&"AAPL".to_string()).unwrap();
    assert_eq!(position.quantity, units(1.0));
    assert_eq!(position.average_price, units(100.0));
}

#[test]
fn broker_not_enough_cash() {
    let mut broker = Broker::new();
    let order = market_order(OrderDirection::Buy);
    broker.set_fees(FeeType::Flat(units(1.0)));
    broker.place_order(order);

    let dummy_price = create_dummy_price(100.0, 101.0, 98.0, 99.0);
    broker.handle_unfulfilled_orders(create_dummy_date("1999-11-01 00:00:00"), &dummy_price);

    assert_eq!(broker.cash(), units(0.0));
    assert_eq!(broker.portfolio_value(&dummy_price), Some(units(0.0)));

    assert!(broker.position(&"AAPL".to_string()).is_none());
}

#[test]
fn broker_add_to_existing_position() {
    let mut broker = Broker::new();
    let order = market_order(OrderDirection::Buy);
    broker.set_cash(units(1000.0));
    broker.set_fees(FeeType::Flat(units(1.0)));
    broker.insert_position("AAPL".to_string(), Position::new(units(1.0), units(100.0)));

    broker.place_order(order);

    let dummy_price = create_dummy_price(110.0, 111.0, 98.0, 99.0);
    broker.handle_unfulfilled_orders(create_dummy_date("1999-11-01 00:00:00"), &dummy_price);

    let position = broker.position(&"AAPL".to_string()).unwrap();
    assert_eq!(position.quantity, units(2.0));

    // (100 * 1 + 110 * 1) / 2 = 105
    assert_eq!(position.average_price, units(105.0));
}

#[test]
fn broker_is_sell_market_order_executed() {
    let mut broker = Broker::new();
    let order = market_order(OrderDirection::Sell);
    broker.set_cash(units(1000.0));
    broker.set_fees(FeeType::Flat(units(1.0)));
    broker.insert_position("AAPL".to_string(), Position::new(units(1.0), units(100.0)));

    broker.place_order(order);

    let dummy_price = create_dummy_price(100.0, 101.0, 98.0, 99.0);
    broker.handle_unfulfilled_orders(create_dummy_date("1999-11-01 00:00:00"), &dummy_price);

    // 1000 + 100 - 1
    assert_eq!(broker.cash(), units(1099.0));

    assert_eq!(broker.portfolio().len(), 0);
}

#[test]
fn execution_is_order_placed() {
    let mut broker = Broker::new();
    let order = market_order(OrderDirection::Buy);
    broker.place_order(order);

    assert_eq!(broker.analytics().total_placed_orders, 1);
    assert_eq!(broker.analytics().total_exec_orders, 0);
    assert_eq!(broker.orders().len(), 1);
    assert_eq!(broker.orders()[0].asset, "AAPL");
    assert_eq!(broker.orders()[0].direction, OrderDirection::Buy);
    assert_eq!(broker.orders()[0].size, units(1.0));
    assert_eq!(broker.orders()[0].order_type, OrderType::Market);
}

#[test]
fn execution_is_buy_market_order_executed() {
    let mut broker = Broker::new();
    let order = market_order(OrderDirection::Buy);
    broker.set_cash(units(1000.0));
    broker.set_fees(FeeType::Flat(units(1.0)));
    broker.place_order(order);

    let dummy_price = create_dummy_price(100.0, 101.0, 98.0, 99.0);
    let fills =
        broker.handle_unfulfilled_orders(create_dummy_date("1999-11-01 00:00:00"), &dummy_price);

    assert_eq!(broker.cash(), units(899.0));
    assert_eq!(broker.portfolio_value(&dummy_price), Some(units(99.0)));

    let position = broker.position(&"AAPL".to_string()).unwrap();
    assert_eq!(position.quantity, units(1.0));
    assert_eq!(position.average_price, units(100.0));

    assert_eq!(fills.len(), 1);
    assert_eq!(fills[0].price, units(100.0));
    assert_eq!(fills[0].fees, units(1.0));
    assert_eq!(broker.analytics().total_exec_orders, 1);
    assert_eq!(broker.analytics().total_fees, units(1.0));
}

#[test]
fn execution_not_enough_cash() {
    let mut broker = Broker::new();
    let order = market_order(OrderDirection::Buy);
    broker.set_fees(FeeType::Flat(units(1.0)));
    broker.place_order(order);

    let dummy_price = create_dummy_price(100.0, 101.0, 98.0, 99.0);
    let fills =
        broker.handle_unfulfilled_orders(create_dummy_date("1999-11-01 00:00:00"), &dummy_price);

    assert_eq!(broker.cash(), units(0.0));
    assert_eq!(broker.portfolio_value(&dummy_price), Some(units(0.0)));

    assert!(broker.position(&"AAPL".to_string()).is_none());

    assert!(fills.is_empty());
    assert_eq!(broker.orders().len(), 1);
    assert_eq!(broker.analytics().total_slippage, 0);
}

#[test]
fn execution_add_to_existing_position() {
    let mut broker = Broker::new();
    let order = market_order(OrderDirection::Buy);
    broker.set_cash(units(1000.0));
    broker.set_fees(FeeType::Flat(units(1.0)));
    broker.insert_position("AAPL".to_string(), Position::new(units(1.0), units(100.0)));

    broker.place_order(order);

    let dummy_price = create_dummy_price(110.0, 111.0, 98.0, 99.0);
    broker.handle_unfulfilled_orders(create_dummy_date("1999-11-01 00:00:00"), &dummy_price);

    let position = broker.position(&"AAPL".to_string()).unwrap();
    assert_eq!(position.quantity, units(2.0));
    assert_eq!(position.average_price, units(105.0));
}

#[test]
fn execution_is_sell_market_order_executed() {
    let mut broker = Broker::new();
    let order = market_order(OrderDirection::Sell);
    broker.set_cash(units(1000.0));
    broker.set_fees(FeeType::Flat(units(1.0)));
    broker.insert_position("AAPL".to_string(), Position::new(units(1.0), units(100.0)));

    broker.place_order(order);

    let dummy_price = create_dummy_price(100.0, 101.0, 98.0, 99.0);
    broker.handle_unfulfilled_orders(create_dummy_date("1999-11-01 00:00:00"), &dummy_price);

    assert_eq!(broker.cash(), units(1099.0));

    assert_eq!(broker.portfolio().len(), 0);
}
