use backtest_engine::fee::FeeType;
use backtest_engine::metrics::{tally_trades, GlobalMetrics, UNBOUNDED};
use backtest_engine::trade::{Trade, TradeDirection};

const DAY: i64 = 86_400;

fn units(x: f64) -> i64 {
    (x * 1_000_000.0).round() as i64
}

fn round_trip(id: u64, entry: f64, exit: f64, hours: i64) -> Trade {
    let mut trade =
        Trade::new(id, "AAPL".to_string(), 0, units(entry), units(1.0), 0, 0, TradeDirection::Long);
    trade.close(hours * 3600 + 59, units(exit), 0, 0);
    trade
}

fn figures(trades: &[Trade], curve: &[(i64, i64)], fees: Option<FeeType>) -> GlobalMetrics {
    GlobalMetrics::calculate(
        trades,
        curve,
        units(1000.0),
        units(0.03),
        units(900.129),
        units(150.555),
        7,
        5,
        units(3.999),
        units(-1.005),
        Some(units(100.0)),
        Some(units(110.0)),
        &fees,
    )
}

#[test]
fn no_round_trip_gives_zeroed_figures() {
    let m = figures(&[], &[(0, units(1000.0)), (1, units(500.0))], None);
    assert_eq!(m, GlobalMetrics::default());
    assert_eq!(m.cash, 0);
    assert_eq!(m.max_drawdown, 0);
    assert_eq!(m.num_orders_placed, 0);
}

#[test]
fn figures_of_three_round_trips() {
    let trades =
        vec![round_trip(1, 100.0, 130.0, 10), round_trip(2, 100.0, 90.0, 20), round_trip(3, 50.0, 60.0, 3)];
    let curve = vec![(0, units(1000.0)), (DAY, units(1100.0))];
    let m = figures(&trades, &curve, None);
    assert_eq!(m.total_trades, 3);
    assert_eq!(m.winning_trades, 2);
    assert_eq!(m.losing_trades, 1);
    assert_eq!(m.win_rate, 66_666_666);
    assert_eq!(m.profit_factor, units(4.0));
    assert_eq!(m.avg_win, units(20.0));
    assert_eq!(m.avg_loss, units(-10.0));
    assert_eq!(m.largest_win, units(30.0));
    assert_eq!(m.largest_loss, units(-10.0));
    // 10 h 59 s, 20 h 59 s and 3 h 59 s: 118977 s over three.
    assert_eq!(m.avg_trade_duration_hours, 11_016_388);
    assert_eq!(m.roi, units(10.0));
    // Amounts of money are cut down to hundredths, toward zero.
    assert_eq!(m.cash, units(900.12));
    assert_eq!(m.portfolio_value, units(150.55));
    assert_eq!(m.total_equity, units(1050.68));
    assert_eq!(m.gross_profit, units(50.68));
    assert_eq!(m.total_fees, units(3.99));
    assert_eq!(m.total_slippage, units(-1.0));
    assert_eq!(m.net_profit, units(47.69));
    assert_eq!(m.net_profit_percentage, units(4.76));
    assert_eq!(m.num_orders_placed, 7);
    assert_eq!(m.num_orders_executed, 5);
    assert_eq!(m.buy_hold_roi, units(10.0));
    assert_eq!(m.buy_hold_final_value, units(1100.0));
    assert_eq!(m.buy_hold_net_profit, units(100.0));
}

#[test]
fn profit_factor_without_losses_is_unbounded() {
    let m = figures(&[round_trip(1, 10.0, 11.0, 1)], &[], None);
    assert_eq!(m.profit_factor, UNBOUNDED);
    assert_eq!(m.avg_loss, 0);
    assert_eq!(m.largest_loss, 0);
    assert_eq!(m.win_rate, units(100.0));
    // An empty curve ends where the capital began.
    assert_eq!(m.roi, 0);

    let m = figures(&[round_trip(1, 10.0, 10.0, 1)], &[], None);
    assert_eq!(m.profit_factor, 0);
    assert_eq!(m.win_rate, 0);
    let m = figures(&[round_trip(1, 10.0, 9.0, 1)], &[], None);
    assert_eq!(m.profit_factor, 0);
    assert_eq!(m.avg_win, 0);
}

#[test]
fn win_rate_lies_between_nothing_and_a_hundred() {
    for wins in 0..5 {
        let mut trades = Vec::new();
        for k in 0..4 {
            trades.push(round_trip(k, 10.0, if k < wins { 11.0 } else { 9.0 }, 1));
        }
        let m = figures(&trades, &[], None);
        assert!(0 <= m.win_rate && m.win_rate <= units(100.0));
        assert_eq!(m.win_rate, units(25.0) * wins.min(4) as i64);
    }
}

#[test]
fn tally_counts_trades_without_an_amount_as_nothing() {
    let open = Trade::new(1, "AAPL".to_string(), 0, 1, 1, 0, 0, TradeDirection::Long);
    let t = tally_trades(&[open, round_trip(2, 10.0, 12.0, 5)]);
    assert_eq!(t.wins, 1);
    assert_eq!(t.losses, 0);
    assert_eq!(t.profit, units(2.0));
    assert_eq!(t.seconds, 5 * 3600 + 59);
}

#[test]
fn max_drawdown_is_the_deepest_decline_from_a_peak() {
    let curve = vec![
        (0, units(100.0)),
        (DAY, units(120.0)),
        (2 * DAY, units(90.0)),
        (4 * DAY + 5, units(108.0)),
        (5 * DAY, units(130.0)),
        (6 * DAY, units(117.0)),
    ];
    let (worst, days) = GlobalMetrics::calculate_max_drawdown(&curve);
    // (90 - 120) / 120 = -25 %
    assert_eq!(worst, units(-25.0));
    // From the peak at one day to the point at four days and five seconds.
    assert_eq!(days, 3);
    assert!(worst <= 0);
}

#[test]
fn max_drawdown_of_a_rising_or_empty_curve_is_zero() {
    assert_eq!(GlobalMetrics::calculate_max_drawdown(&[]), (0, 0));
    assert_eq!(GlobalMetrics::calculate_max_drawdown(&[(0, units(5.0))]), (0, 0));
    let rising = vec![(0, units(1.0)), (DAY, units(2.0)), (9 * DAY, units(3.0))];
    assert_eq!(GlobalMetrics::calculate_max_drawdown(&rising), (0, 0));
    // A curve that never rises above nothing has no decline in percent.
    let flat = vec![(0, 0), (3 * DAY, units(-2.0))];
    assert_eq!(GlobalMetrics::calculate_max_drawdown(&flat), (0, 3));
}

#[test]
fn sharpe_ratio_of_fewer_than_two_points_is_zero() {
    assert_eq!(GlobalMetrics::calculate_sharpe_ratio(&[], units(0.03)), 0);
    assert_eq!(GlobalMetrics::calculate_sharpe_ratio(&[(0, units(100.0))], units(0.03)), 0);
}

#[test]
fn sharpe_ratio_of_steady_steps_is_zero() {
    let curve = vec![(0, units(100.0)), (1, units(110.0)), (2, units(121.0))];
    assert_eq!(GlobalMetrics::calculate_sharpe_ratio(&curve, units(0.03)), 0);
}

#[test]
fn sharpe_ratio_of_two_steps() {
    // Steps of +10 % and -10 %: mean 0, deviation 0.1.
    let curve = vec![(0, units(100.0)), (1, units(110.0)), (2, units(99.0))];
    // (0 - 0.000119) / 0.1 * 15.874507 = -0.018890...
    assert_eq!(GlobalMetrics::calculate_sharpe_ratio(&curve, units(0.03)), -18_890);
    // Without a risk-free rate the mean of nothing gives nothing.
    assert_eq!(GlobalMetrics::calculate_sharpe_ratio(&curve, 0), 0);
}

#[test]
fn buy_and_hold_pays_fees_on_both_sides() {
    let none = GlobalMetrics::calculate_buy_and_hold(units(1000.0), units(100.0), units(110.0), &None);
    assert_eq!(none, (units(10.0), units(1100.0), units(100.0)));

    let flat = GlobalMetrics::calculate_buy_and_hold(
        units(1000.0),
        units(100.0),
        units(110.0),
        &Some(FeeType::Flat(units(1.0))),
    );
    assert_eq!(flat, (units(9.79), units(1097.9), units(97.9)));

    let share = GlobalMetrics::calculate_buy_and_hold(
        units(1000.0),
        units(100.0),
        units(200.0),
        &Some(FeeType::Percentage(units(0.1))),
    );
    // 900 invested, worth 1800, less 180.
    assert_eq!(share, (units(62.0), units(1620.0), units(620.0)));
}

#[test]
fn buy_and_hold_is_zero_for_inputs_that_are_not_positive() {
    let zero = (0, 0, 0);
    assert_eq!(GlobalMetrics::calculate_buy_and_hold(0, units(1.0), units(1.0), &None), zero);
    assert_eq!(GlobalMetrics::calculate_buy_and_hold(units(1.0), 0, units(1.0), &None), zero);
    assert_eq!(GlobalMetrics::calculate_buy_and_hold(units(1.0), units(1.0), -1, &None), zero);
    assert_eq!(
        GlobalMetrics::calculate_buy_and_hold(
            units(1.0),
            units(1.0),
            units(1.0),
            &Some(FeeType::Flat(units(1.0)))
        ),
        zero
    );
}

#[test]
fn mean_duration_is_taken_of_the_durations_themselves() {
    let mut a = Trade::new(1, "A".to_string(), 0, units(100.0), units(1.0), 0, 0, TradeDirection::Long);
    a.close(5400, units(101.0), 0, 0);
    let mut b = Trade::new(2, "A".to_string(), 0, units(100.0), units(1.0), 0, 0, TradeDirection::Long);
    b.close(1800, units(99.0), 0, 0);
    let m = GlobalMetrics::calculate(
        &[a, b],
        &[],
        units(1000.0),
        0,
        units(1000.0),
        0,
        4,
        4,
        0,
        0,
        None,
        None,
        &None,
    );
    // 1.5 h and 0.5 h.
    assert_eq!(m.avg_trade_duration_hours, units(1.0));
    assert_eq!(m.profit_factor, units(1.0));
}

#[test]
fn profit_factor_with_losses_stays_below_unbounded() {
    let mut win = Trade::new(1, "A".to_string(), 0, 0, units(1.0), 0, 0, TradeDirection::Long);
    win.close(1, i64::MAX, 0, 0);
    let mut loss = Trade::new(2, "A".to_string(), 0, 1, units(1.0), 0, 0, TradeDirection::Long);
    loss.close(1, 0, 0, 0);
    assert_eq!(loss.profit_loss, Some(-1));
    let m = figures(&[win, loss], &[], None);
    assert_eq!(m.profit_factor, UNBOUNDED - 1);
    assert_eq!(m.losing_trades, 1);
}
