use backtest_engine::broker::Broker;
use backtest_engine::engine::EngineError;
use backtest_engine::fee::FeeType;
use backtest_engine::order::OrderDirection;
use backtest_engine::request::{
    configure_broker, decimal, decode_module, engine_tick, module_of, parse_tick,
    parse_time_range, respond, time_range_of, RequestError, Response, Tick,
};
use backtest_engine::sandbox::{decode_direction, read_string_from_memory, serve, HostCall, HostReply};
use backtest_engine::sma_crossover::SMACrossoverStrategy;
use backtest_engine::strategy::Strategy;
use backtest_engine::data::OHLCVData;
use backtest_engine::order::OrderType;
use backtest_engine::position::Position;

fn units(x: f64) -> i64 {
    (x * 1_000_000.0).round() as i64
}

#[test]
fn dates_are_read_as_seconds() {
    assert_eq!(
        parse_time_range("1970-01-02 00:00:00", "1999-11-01 00:00:00"),
        Ok((86_400, 941_414_400))
    );
    assert_eq!(
        parse_time_range("2024-02-29 23:59:59", "1969-12-31 23:59:59"),
        Ok((1_709_251_199, -1))
    );
}

#[test]
fn dates_of_another_form_are_refused() {
    let good = "2024-01-01 00:00:00";
    for bad in ["", "2024-01-01", "2024-13-01 00:00:00", "2024-01-01T00:00:00", "yesterday"] {
        assert_eq!(parse_time_range(bad, good), Err(RequestError::InvalidDate));
        assert_eq!(parse_time_range(good, bad), Err(RequestError::InvalidDate));
    }
    assert_eq!(time_range_of(Some(1), Some(2)), Ok((1, 2)));
    assert_eq!(time_range_of(None, Some(2)), Err(RequestError::InvalidDate));
    assert_eq!(time_range_of(Some(1), None), Err(RequestError::InvalidDate));
}

#[test]
fn modules_are_decoded_from_base64() {
    assert_eq!(decode_module("aGVsbG8="), Ok(b"hello".to_vec()));
    assert_eq!(decode_module("AGFzbQEAAAA="), Ok(vec![0, 0x61, 0x73, 0x6d, 1, 0, 0, 0]));
    assert_eq!(decode_module(""), Ok(vec![]));
    assert_eq!(decode_module("not base64!"), Err(RequestError::InvalidModule));
    assert_eq!(decode_module("aGVsbG8"), Err(RequestError::InvalidModule));
    assert_eq!(module_of(Ok(vec![1, 2])), Ok(vec![1, 2]));
}

#[test]
fn ticks_are_a_number_and_a_unit() {
    assert_eq!(parse_tick("60s"), Ok(Tick { seconds: 60, nanoseconds: 0 }));
    assert_eq!(parse_tick("0s"), Ok(Tick { seconds: 0, nanoseconds: 0 }));
    assert_eq!(parse_tick("007s"), Ok(Tick { seconds: 7, nanoseconds: 0 }));
    assert_eq!(parse_tick("500ns"), Ok(Tick { seconds: 0, nanoseconds: 500 }));
    assert_eq!(parse_tick("999999999ns"), Ok(Tick { seconds: 0, nanoseconds: 999_999_999 }));
    assert_eq!(
        parse_tick("9223372036854775807s"),
        Ok(Tick { seconds: i64::MAX, nanoseconds: 0 })
    );
}

#[test]
fn ticks_of_another_form_are_refused() {
    for bad in [
        "", "s", "ns", "60", "60m", "60 s", " 60s", "-5s", "+5s", "1.5s", "6x0s", "60ss", "60n",
        "1000000000ns", "9223372036854775808s", "99999999999999999999999999s", "٣s",
    ] {
        assert_eq!(parse_tick(bad), Err(RequestError::InvalidTick), "{}", bad);
    }
    assert_eq!(decimal("123abc", 3, 1_000), Some(123));
    assert_eq!(decimal("123abc", 4, 1_000), None);
    assert_eq!(decimal("123abc", 0, 1_000), None);
    assert_eq!(decimal("123abc", 3, 122), None);
}

#[test]
fn statuses_and_messages() {
    assert_eq!(RequestError::InvalidDate.status(), 400);
    assert_eq!(RequestError::InvalidModule.status(), 400);
    assert_eq!(RequestError::StrategyLoadFailure.status(), 400);
    assert_eq!(RequestError::InvalidTick.status(), 400);
    assert_eq!(RequestError::InvalidFees.status(), 400);
    assert_eq!(RequestError::InvalidSlippage.status(), 400);
    assert_eq!(RequestError::DataFetchFailure.status(), 500);
    assert_eq!(RequestError::Engine(EngineError::DataFeedEmpty).status(), 500);
    assert_eq!(RequestError::InvalidDate.message(), "Invalid date format");
    assert_eq!(RequestError::InvalidModule.message(), "Invalid base64 encoded WASM");
    assert_eq!(RequestError::StrategyLoadFailure.message(), "Failed to load WASM strategy");
    assert_eq!(RequestError::InvalidTick.message(), "Cannot parse tick duration");
    assert_eq!(RequestError::InvalidFees.message(), "Invalid fee schedule");
    assert_eq!(RequestError::InvalidSlippage.message(), "Invalid slippage bounds");
    assert_eq!(RequestError::Engine(EngineError::InvalidTick).message(), "Error: Tick must be positive.");
    assert_eq!(RequestError::Engine(EngineError::OutOfRange).message(), "Error: Amount out of range.");
    assert_eq!(RequestError::DataFetchFailure.message(), "Failed to fetch OHLCV data");
    assert_eq!(
        RequestError::Engine(EngineError::DataFeedEmpty).message(),
        "Error: Data feed is empty."
    );
}

#[test]
fn replies_carry_the_result_or_one_message() {
    let (status, body) = respond(Ok::<i32, RequestError>(5));
    assert_eq!(status, 200);
    assert!(matches!(body, Response::Success(5)));
    let (status, body) = respond(Err::<i32, RequestError>(RequestError::InvalidTick));
    assert_eq!(status, 400);
    assert!(matches!(body, Response::Error("Cannot parse tick duration")));
    let (status, body) =
        respond(Err::<i32, RequestError>(RequestError::Engine(EngineError::DataFeedEmpty)));
    assert_eq!(status, 500);
    assert!(matches!(body, Response::Error("Error: Data feed is empty.")));
}

#[test]
fn brokers_are_set_up_from_a_request() {
    let broker = configure_broker(
        units(1000.0),
        Some(FeeType::Percentage(units(0.01))),
        Some((units(-0.005), units(0.005))),
        7,
    )
    .unwrap();
    assert_eq!(broker.cash(), units(1000.0));
    assert_eq!(broker.analytics().added_funds, units(1000.0));
    assert_eq!(broker.fee_type(), Some(FeeType::Percentage(units(0.01))));
    assert_eq!(broker.slippage_range(), (units(-0.005), units(0.005)));
    assert_eq!(broker.slippage_pool().len(), 10_000);

    let again = configure_broker(
        units(1000.0),
        Some(FeeType::Percentage(units(0.01))),
        Some((units(-0.005), units(0.005))),
        7,
    )
    .unwrap();
    assert_eq!(again.slippage_pool(), broker.slippage_pool());

    let plain = configure_broker(units(5.0), None, None, 7).unwrap();
    assert_eq!(plain.fee_type(), None);
    assert!(plain.slippage_pool().is_empty());

    assert_eq!(
        configure_broker(0, Some(FeeType::Percentage(units(1.5))), None, 7).err(),
        Some(RequestError::InvalidFees)
    );
    assert_eq!(
        configure_broker(0, Some(FeeType::Flat(-1)), Some((1, 0)), 7).err(),
        Some(RequestError::InvalidFees)
    );
    assert_eq!(
        configure_broker(0, None, Some((units(0.01), units(-0.01))), 7).err(),
        Some(RequestError::InvalidSlippage)
    );
}

#[test]
fn guest_codes_for_the_side() {
    assert_eq!(decode_direction(0), Some(OrderDirection::Buy));
    assert_eq!(decode_direction(1), Some(OrderDirection::Sell));
    assert_eq!(decode_direction(2), None);
    assert_eq!(decode_direction(-1), None);
}

#[test]
fn guest_memory_is_read_within_its_bounds() {
    let memory = b"..AAPL..".to_vec();
    assert_eq!(read_string_from_memory(&memory, 2, 4), Some("AAPL".to_string()));
    assert_eq!(read_string_from_memory(&memory, 0, 8), Some("..AAPL..".to_string()));
    assert_eq!(read_string_from_memory(&memory, 8, 0), Some(String::new()));
    assert_eq!(read_string_from_memory(&memory, 5, 4), None);
    assert_eq!(read_string_from_memory(&memory, 9, 0), None);
    assert_eq!(read_string_from_memory(&memory, -1, 2), None);
    assert_eq!(read_string_from_memory(&memory, 2, -1), None);
    assert_eq!(read_string_from_memory(&memory, i32::MAX, i32::MAX), None);
    assert_eq!(read_string_from_memory(&[0x41, 0xff, 0x42], 0, 3), Some("A\u{fffd}B".to_string()));
}

#[test]
fn guest_calls_place_orders() {
    let memory = b"AAPLMSFT".to_vec();
    let mut broker = Broker::new();
    broker.set_cash(units(77.0));
    broker.insert_position("MSFT".to_string(), Position::new(units(3.0), units(1.0)));

    let call = HostCall::PlaceMarketOrder { asset_ptr: 0, asset_len: 4, direction: 0, size: units(2.0) };
    assert!(matches!(serve(&mut broker, &memory, call), HostReply::Nothing));
    let call = HostCall::PlaceLimitOrder {
        asset_ptr: 4,
        asset_len: 4,
        direction: 1,
        size: units(1.0),
        price: units(9.0),
    };
    assert!(matches!(serve(&mut broker, &memory, call), HostReply::Nothing));
    let call = HostCall::PlaceStopOrder {
        asset_ptr: 0,
        asset_len: 4,
        direction: 1,
        size: units(1.0),
        stop: units(8.0),
    };
    assert!(matches!(serve(&mut broker, &memory, call), HostReply::Nothing));

    let orders = broker.orders();
    assert_eq!(orders.len(), 3);
    assert_eq!(orders[0].asset, "AAPL");
    assert_eq!(orders[0].direction, OrderDirection::Buy);
    assert_eq!(orders[0].size, units(2.0));
    assert_eq!(orders[0].order_type, OrderType::Market);
    assert_eq!(orders[0].valid_until, None);
    assert_eq!(orders[1].asset, "MSFT");
    assert_eq!(orders[1].direction, OrderDirection::Sell);
    assert_eq!(orders[1].order_type, OrderType::Limit(units(9.0)));
    assert_eq!(orders[2].order_type, OrderType::Stop(units(8.0)));
    assert_eq!(broker.analytics().total_placed_orders, 3);
}

#[test]
fn guest_calls_that_mean_nothing_are_dropped() {
    let memory = b"AAPL".to_vec();
    let mut broker = Broker::new();
    for call in [
        HostCall::PlaceMarketOrder { asset_ptr: 0, asset_len: 4, direction: 2, size: units(1.0) },
        HostCall::PlaceMarketOrder { asset_ptr: 1, asset_len: 4, direction: 0, size: units(1.0) },
        HostCall::PlaceMarketOrder { asset_ptr: -4, asset_len: 4, direction: 0, size: units(1.0) },
        HostCall::PlaceMarketOrder { asset_ptr: 0, asset_len: 4, direction: 0, size: 0 },
        HostCall::PlaceLimitOrder { asset_ptr: 0, asset_len: 5, direction: 1, size: 1, price: 1 },
        HostCall::PlaceStopOrder { asset_ptr: 0, asset_len: 4, direction: -1, size: 1, stop: 1 },
        HostCall::Abort,
    ] {
        assert!(matches!(serve(&mut broker, &memory, call), HostReply::Nothing));
    }
    assert!(broker.orders().is_empty());
    assert_eq!(broker.analytics().total_placed_orders, 0);
}

#[test]
fn guest_calls_observe_the_broker() {
    let memory = b"AAPLMSFT".to_vec();
    let mut broker = Broker::new();
    broker.set_cash(units(77.0));
    broker.insert_position("MSFT".to_string(), Position::new(units(3.0), units(1.0)));

    assert!(matches!(serve(&mut broker, &memory, HostCall::GetCash), HostReply::Amount(77_000_000)));
    let held = HostCall::GetPosition { asset_ptr: 4, asset_len: 4 };
    assert!(matches!(serve(&mut broker, &memory, held), HostReply::Amount(3_000_000)));
    let absent = HostCall::GetPosition { asset_ptr: 0, asset_len: 4 };
    assert!(matches!(serve(&mut broker, &memory, absent), HostReply::Amount(0)));
    let outside = HostCall::GetPosition { asset_ptr: 6, asset_len: 4 };
    assert!(matches!(serve(&mut broker, &memory, outside), HostReply::Amount(0)));
    match serve(&mut broker, &memory, HostCall::Log { ptr: 2, len: 4 }) {
        HostReply::Message(text) => assert_eq!(text, "PLMS"),
        other => panic!("{:?}", other),
    }
    assert!(matches!(
        serve(&mut broker, &memory, HostCall::Log { ptr: 2, len: 40 }),
        HostReply::Nothing
    ));
    assert_eq!(broker.cash(), units(77.0));
    assert!(broker.orders().is_empty());
}

fn close_at(timestamp: i64, close: f64) -> OHLCVData {
    OHLCVData {
        timestamp,
        open: units(close),
        high: units(close),
        low: units(close),
        close: units(close),
        volume: 1,
    }
}

#[test]
fn moving_average_of_the_last_samples() {
    let data: Vec<OHLCVData> =
        [10.0, 20.0, 30.0, 41.0].iter().enumerate().map(|(i, c)| close_at(i as i64, *c)).collect();
    assert_eq!(SMACrossoverStrategy::calculate_sma(&data, 2), units(35.5));
    assert_eq!(SMACrossoverStrategy::calculate_sma(&data, 4), units(25.25));
    assert_eq!(SMACrossoverStrategy::calculate_sma(&data, 3), 30_333_333);
    assert_eq!(SMACrossoverStrategy::calculate_sma(&data, 5), 0);
    assert_eq!(SMACrossoverStrategy::calculate_sma(&data, 0), 0);
}

#[test]
fn crossover_strategy_buys_and_sells_one_unit() {
    let mut strategy = SMACrossoverStrategy::new(1, 2);
    let mut broker = Broker::new();
    strategy.init();
    // One sample: the long average is still zero, the short one is above it.
    strategy.tick(0, Some(&close_at(0, 10.0)), &mut broker);
    assert_eq!(broker.orders().len(), 1);
    assert_eq!(broker.orders()[0].direction, OrderDirection::Buy);
    assert_eq!(broker.orders()[0].asset, "AAPL");
    assert_eq!(broker.orders()[0].size, units(1.0));
    assert!(strategy.position_open);
    // Rising: nothing to do.
    strategy.tick(1, Some(&close_at(1, 12.0)), &mut broker);
    assert_eq!(broker.orders().len(), 1);
    // No sample: nothing to do.
    strategy.tick(2, None, &mut broker);
    assert_eq!(broker.orders().len(), 1);
    // Falling: the short average drops below the long one.
    strategy.tick(3, Some(&close_at(3, 8.0)), &mut broker);
    assert_eq!(broker.orders().len(), 2);
    assert_eq!(broker.orders()[1].direction, OrderDirection::Sell);
    assert!(!strategy.position_open);
    assert_eq!(strategy.history.len(), 3);
}

#[test]
fn ticks_below_a_second_do_not_reach_the_engine() {
    assert_eq!(engine_tick(&parse_tick("60s").unwrap()), Ok(60));
    assert_eq!(engine_tick(&parse_tick("0s").unwrap()), Err(RequestError::InvalidTick));
    assert_eq!(engine_tick(&parse_tick("500ns").unwrap()), Err(RequestError::InvalidTick));
}
