//! Metrics and fixed-point numerics: exact expected values for the
//! per-trade statistics, the time-series statistics and the scaled
//! arithmetic helpers.

use backtester::engine::metrics::{compute_summary_metrics, compute_trade_metrics};
use backtester::engine::num::{div_trunc_i128, isqrt_u128, ratio_scaled_i128, NO_EXPIRATION};
use backtester::engine::run_backtest;
use backtester::engine::BacktestResult;

fn flat(v: i64, n: usize) -> Vec<i64> {
    vec![v; n]
}

fn one_long_tp_run() -> BacktestResult {
    let n = 4;
    let ts = vec![1, 2, 3, 4];
    run_backtest(
        &ts,
        &flat(100, n),
        &vec![100, 100, 110, 100],
        &flat(100, n),
        &vec![100, 100, 110, 100],
        &vec![true, false, false, false],
        &vec![false; n],
        &flat(110, n),
        &flat(90, n),
        &flat(90, n),
        &flat(110, n),
        &flat(1, n),
        &flat(1, n),
        &vec![NO_EXPIRATION; n],
        0,
        0,
        0,
        1000,
    )
    .unwrap()
}

#[test]
fn trade_metrics_of_a_single_winner() {
    let r = one_long_tp_run();
    let tm = &r.metrics.overall.trade_metrics;
    assert_eq!(tm.number_of_trades, 1);
    assert_eq!(tm.win_rate, 1_000_000);
    assert_eq!(tm.loss_rate, 0);
    assert_eq!(tm.trade_pnls, vec![10]);
    // pnl 10 over notional 100, scaled.
    assert_eq!(tm.trade_returns, vec![100_000]);
    assert_eq!(tm.durations, vec![1]);
    assert_eq!(tm.average_trade_return, 100_000);
    assert_eq!(tm.expectancy, 100_000);
    // Mean money result, scaled: 10.0.
    assert_eq!(tm.average_trade_pnl, 10_000_000);
    // Nothing lost: an infinite profit factor.
    assert_eq!(tm.profit_factor, None);
    assert_eq!(tm.average_duration, 1_000_000);
}

#[test]
fn side_views_partition_the_trades() {
    let r = one_long_tp_run();
    assert_eq!(r.metrics.longs.trade_metrics.number_of_trades, 1);
    assert_eq!(r.metrics.shorts.trade_metrics.number_of_trades, 0);
    assert_eq!(r.metrics.longs.total_pnl, 10);
    assert_eq!(r.metrics.shorts.total_pnl, 0);
    assert_eq!(r.metrics.overall.total_pnl, 10);
    // The time-series metrics are shared by all three views.
    assert_eq!(
        r.metrics.overall.time_metrics,
        r.metrics.longs.time_metrics
    );
    assert_eq!(
        r.metrics.overall.time_metrics,
        r.metrics.shorts.time_metrics
    );
}

#[test]
fn time_metrics_of_a_single_winner() {
    let r = one_long_tp_run();
    let ts = &r.metrics.overall.time_metrics;
    // Equity 1000, 1000, 1010, 1010: returns 0, 10000, 0 (scaled).
    assert_eq!(ts.returns, vec![0, 10_000, 0]);
    assert_eq!(ts.mean_return, 3_333);
    assert_eq!(ts.volatility, 5_773);
    assert_eq!(ts.sharpe_ratio, 577_342);
    assert_eq!(ts.cumulative_return, 10_000);
    assert_eq!(ts.max_drawdown, 0);
    assert_eq!(r.metrics.overall.total_return, 10_000);
}

#[test]
fn drawdown_of_a_losing_run() {
    let n = 4;
    let ts = vec![1, 2, 3, 4];
    let r = run_backtest(
        &ts,
        &flat(100, n),
        &flat(100, n),
        &vec![100, 100, 90, 100],
        &flat(100, n),
        &vec![true, false, false, false],
        &vec![false; n],
        &flat(200, n),
        &flat(90, n),
        &flat(90, n),
        &flat(200, n),
        &flat(1, n),
        &flat(1, n),
        &vec![NO_EXPIRATION; n],
        0,
        0,
        0,
        1000,
    )
    .unwrap();
    // The stop-loss at 90 fires on bar 2: equity 1000, 1000, 990, 990.
    let ts_m = &r.metrics.overall.time_metrics;
    assert_eq!(ts_m.max_drawdown, 10_000);
    assert_eq!(ts_m.cumulative_return, -10_000);
    let tm = &r.metrics.overall.trade_metrics;
    assert_eq!(tm.win_rate, 0);
    assert_eq!(tm.loss_rate, 1_000_000);
    assert_eq!(tm.trade_pnls, vec![-10]);
}

#[test]
fn profit_factor_of_mixed_results() {
    // One winner (+20) and one loser (-10) built by hand.
    let n = 6;
    let ts = vec![1, 2, 3, 4, 5, 6];
    let r = run_backtest(
        &ts,
        &flat(100, n),
        &vec![100, 100, 120, 100, 100, 100],
        &vec![100, 100, 100, 100, 90, 100],
        &flat(100, n),
        &vec![true, false, true, false, false, false],
        &vec![false; n],
        &vec![120, 120, 200, 200, 200, 200],
        &vec![50, 50, 90, 90, 90, 90],
        &flat(50, n),
        &flat(200, n),
        &flat(1, n),
        &flat(1, n),
        &vec![NO_EXPIRATION; n],
        0,
        0,
        0,
        1000,
    )
    .unwrap();
    let tm = &r.metrics.overall.trade_metrics;
    assert_eq!(tm.number_of_trades, 2);
    assert_eq!(tm.trade_pnls, vec![20, -10]);
    assert_eq!(tm.win_rate, 500_000);
    assert_eq!(tm.loss_rate, 500_000);
    // 20 won over 10 lost, scaled.
    assert_eq!(tm.profit_factor, Some(2_000_000));
    // Mean money result: (20 - 10) / 2 = 5.0, scaled.
    assert_eq!(tm.average_trade_pnl, 5_000_000);
}

#[test]
fn trades_are_reported_ascending_by_exit_bar() {
    // The first signal's trade exits after the second signal's trade.
    let n = 6;
    let ts = vec![1, 2, 3, 4, 5, 6];
    let r = run_backtest(
        &ts,
        &flat(100, n),
        &vec![100, 100, 100, 120, 100, 130],
        &flat(100, n),
        &flat(100, n),
        &vec![true, true, false, false, false, false],
        &vec![false; n],
        &vec![130, 120, 120, 120, 120, 120],
        &flat(10, n),
        &flat(10, n),
        &flat(200, n),
        &vec![1, 2, 1, 1, 1, 1],
        &flat(1, n),
        &vec![NO_EXPIRATION; n],
        0,
        0,
        0,
        1000,
    )
    .unwrap();
    // Sizes tell them apart: the size-2 trade (signal bar 1, TP 120) exits
    // on bar 3; the size-1 trade (signal bar 0, TP 130) exits on bar 5.
    let tm = &r.metrics.overall.trade_metrics;
    assert_eq!(tm.trade_pnls, vec![40, 30]);
    assert_eq!(tm.durations, vec![1, 4]);
}

#[test]
fn empty_trade_set_yields_zero_metrics() {
    let trades = Vec::new();
    let tm = compute_trade_metrics(&trades);
    assert_eq!(tm.number_of_trades, 0);
    assert_eq!(tm.win_rate, 0);
    assert_eq!(tm.loss_rate, 0);
    assert_eq!(tm.average_trade_return, 0);
    assert_eq!(tm.average_trade_pnl, 0);
    assert_eq!(tm.profit_factor, None);
    assert_eq!(tm.average_duration, 0);
    assert!(tm.trade_pnls.is_empty());
}

#[test]
fn summary_works_without_any_trade() {
    let r = run_backtest(
        &vec![1, 2],
        &flat(100, 2),
        &flat(100, 2),
        &flat(100, 2),
        &flat(100, 2),
        &vec![false; 2],
        &vec![false; 2],
        &flat(110, 2),
        &flat(90, 2),
        &flat(90, 2),
        &flat(110, 2),
        &flat(1, 2),
        &flat(1, 2),
        &vec![NO_EXPIRATION; 2],
        0,
        0,
        0,
        1000,
    )
    .unwrap();
    assert_eq!(r.metrics.overall.trade_metrics.number_of_trades, 0);
    assert_eq!(r.metrics.overall.total_pnl, 0);
    assert_eq!(r.metrics.overall.time_metrics.returns, vec![0]);
    assert_eq!(r.metrics.overall.time_metrics.volatility, 0);
    assert_eq!(r.metrics.overall.time_metrics.sharpe_ratio, 0);
    let _ = compute_summary_metrics(1000, &Vec::new(), &r.exposure_time_series);
}

#[test]
fn division_truncates_toward_zero() {
    assert_eq!(div_trunc_i128(7, 2), 3);
    assert_eq!(div_trunc_i128(-7, 2), -3);
    assert_eq!(div_trunc_i128(7, -2), -3);
    assert_eq!(div_trunc_i128(-7, -2), 3);
}

#[test]
fn scaled_ratio_guards_zero_denominator() {
    assert_eq!(ratio_scaled_i128(5, 0), 0);
    assert_eq!(ratio_scaled_i128(1, 2), 500_000);
    assert_eq!(ratio_scaled_i128(-1, 2), -500_000);
    assert_eq!(ratio_scaled_i128(1, 3), 333_333);
}

#[test]
fn integer_square_root_is_the_floor() {
    assert_eq!(isqrt_u128(0), 0);
    assert_eq!(isqrt_u128(1), 1);
    assert_eq!(isqrt_u128(2), 1);
    assert_eq!(isqrt_u128(4), 2);
    assert_eq!(isqrt_u128(33_333_333), 5_773);
    assert_eq!(isqrt_u128(u128::MAX), (1u128 << 64) - 1);
}
