//! Concrete instances of the library's stated invariants: position counts,
//! fill causality, exit windows, exposure conservation, the realized
//! curve, determinism and side symmetry.

use backtester::engine::num::NO_EXPIRATION;
use backtester::engine::position::Side;
use backtester::engine::run_backtest;
use backtester::engine::BacktestResult;

fn flat(v: i64, n: usize) -> Vec<i64> {
    vec![v; n]
}

fn no_exp(n: usize) -> Vec<i64> {
    vec![NO_EXPIRATION; n]
}

fn mixed_run() -> BacktestResult {
    // Bar 0: long signal (TP at bar 2); bar 2: short signal, never closed;
    // bar 3: long signal on the last bar, never closed.
    let n = 5;
    let ts = vec![1, 2, 3, 4, 5];
    let open = flat(100, n);
    let high = vec![100, 100, 110, 100, 100];
    let low = flat(100, n);
    let close = vec![100, 100, 110, 100, 100];
    let long_sig = vec![true, false, false, false, true];
    let short_sig = vec![false, false, true, false, false];
    run_backtest(
        &ts,
        &open,
        &high,
        &low,
        &close,
        &long_sig,
        &short_sig,
        &flat(110, n),
        &flat(90, n),
        &flat(50, n),
        &flat(200, n),
        &flat(2, n),
        &flat(3, n),
        &no_exp(n),
        0,
        0,
        0,
        1000,
    )
    .unwrap()
}

#[test]
fn position_count_equals_signal_count() {
    let r = mixed_run();
    assert_eq!(r.closed_positions.len() + r.open_positions.len(), 3);
}

#[test]
fn entry_follows_signal_with_next_bar_fill() {
    let r = mixed_run();
    // Signals on bars 0, 2 and 4 fill on bars 1, 3 and 4 (last-bar clamp).
    assert_eq!(r.closed_positions[0].entry_index, 1);
    let mut entries: Vec<usize> = r.open_positions.iter().map(|p| p.entry_index).collect();
    entries.sort();
    assert_eq!(entries, vec![3, 4]);
}

#[test]
fn closed_positions_have_exit_fields_and_window() {
    let r = mixed_run();
    for p in &r.closed_positions {
        assert!(p.is_closed);
        let e = p.exit_index.unwrap();
        assert!(p.entry_index <= e && e < 5);
        assert!(p.exit_price.is_some());
        assert!(p.exit_condition.is_some());
        assert!(p.pnl.is_some());
        assert!(p.absolute_return.is_some());
        assert!(p.real_return.is_some());
    }
    for p in &r.open_positions {
        assert!(!p.is_closed);
        assert!(p.exit_index.is_none());
        assert!(p.exit_price.is_none());
        assert!(p.exit_condition.is_none());
        assert!(p.pnl.is_none());
    }
}

#[test]
fn exposure_is_conserved_at_the_last_bar() {
    let r = mixed_run();
    let last = r.exposure_time_series.last().unwrap();
    let open_long: i64 = r
        .open_positions
        .iter()
        .filter(|p| p.side == Side::Long)
        .map(|p| p.position_size)
        .sum();
    let open_short: i64 = r
        .open_positions
        .iter()
        .filter(|p| p.side == Side::Short)
        .map(|p| p.position_size)
        .sum();
    assert_eq!(last.long_exposure, open_long);
    assert_eq!(last.short_exposure, open_short);
    assert_eq!(last.total_exposure, open_long + open_short);
    // One long of size 2 entered at bar 4, one short of size 3 at bar 3.
    assert_eq!(last.long_exposure, 2);
    assert_eq!(last.short_exposure, 3);
}

#[test]
fn exposure_series_tracks_entries_and_exits() {
    let r = mixed_run();
    let longs: Vec<i64> = r
        .exposure_time_series
        .iter()
        .map(|s| s.long_exposure)
        .collect();
    // Long of size 2: in from bar 1, out on bar 2; again from bar 4.
    assert_eq!(longs, vec![0, 2, 0, 0, 2]);
    let shorts: Vec<i64> = r
        .exposure_time_series
        .iter()
        .map(|s| s.short_exposure)
        .collect();
    assert_eq!(shorts, vec![0, 0, 0, 3, 3]);
}

#[test]
fn realized_equity_is_the_running_sum_of_closed_pnls() {
    let r = mixed_run();
    let realized: Vec<i128> = r
        .exposure_time_series
        .iter()
        .map(|s| s.realized_equity)
        .collect();
    // The long of size 2 exits on bar 2 with +20.
    assert_eq!(realized, vec![0, 0, 20, 20, 20]);
    let total: i128 = r
        .closed_positions
        .iter()
        .map(|p| p.pnl.unwrap() as i128)
        .sum();
    assert_eq!(*realized.last().unwrap(), total);
}

#[test]
fn realized_equity_is_monotone_when_no_trade_loses() {
    let r = mixed_run();
    let realized: Vec<i128> = r
        .exposure_time_series
        .iter()
        .map(|s| s.realized_equity)
        .collect();
    assert!(r.closed_positions.iter().all(|p| p.pnl.unwrap() >= 0));
    assert!(realized.windows(2).all(|w| w[0] <= w[1]));
}

#[test]
fn total_equity_includes_initial_equity() {
    let r = mixed_run();
    let first = &r.exposure_time_series[0];
    assert_eq!(
        first.total_equity,
        1000 + first.realized_equity + first.floating_pnl
    );
}

#[test]
fn rerunning_the_pipeline_reproduces_every_output() {
    let r1 = mixed_run();
    let r2 = mixed_run();
    assert_eq!(r1, r2);
}

#[test]
fn long_and_short_results_mirror_with_zero_costs() {
    // The same price path triggers the long's take-profit and the short's
    // stop-loss at the same level: net results of equal magnitude and
    // opposite sign.
    let n = 4;
    let ts = vec![1, 2, 3, 4];
    let open = flat(100, n);
    let high = vec![100, 100, 110, 100];
    let low = flat(100, n);
    let close = vec![100, 100, 110, 100];
    let long_only = run_backtest(
        &ts,
        &open,
        &high,
        &low,
        &close,
        &vec![true, false, false, false],
        &vec![false; n],
        &flat(110, n),
        &flat(90, n),
        &flat(90, n),
        &flat(110, n),
        &flat(1, n),
        &flat(1, n),
        &no_exp(n),
        0,
        0,
        0,
        1000,
    )
    .unwrap();
    let short_only = run_backtest(
        &ts,
        &open,
        &high,
        &low,
        &close,
        &vec![false; n],
        &vec![true, false, false, false],
        &flat(110, n),
        &flat(90, n),
        &flat(90, n),
        &flat(110, n),
        &flat(1, n),
        &flat(1, n),
        &no_exp(n),
        0,
        0,
        0,
        1000,
    )
    .unwrap();
    let pl = long_only.closed_positions[0].pnl.unwrap();
    let ps = short_only.closed_positions[0].pnl.unwrap();
    assert_eq!(pl, 10);
    assert_eq!(ps, -pl);
    assert_eq!(
        long_only.closed_positions[0].exit_index,
        short_only.closed_positions[0].exit_index
    );
}

#[test]
fn floating_pnl_marks_open_positions_to_close() {
    // A long of size 1 entered at 100 while the close sits at 104.
    let n = 3;
    let ts = vec![1, 2, 3];
    let r = run_backtest(
        &ts,
        &flat(100, n),
        &vec![100, 104, 104],
        &flat(100, n),
        &vec![100, 104, 104],
        &vec![true, false, false],
        &vec![false; n],
        &flat(200, n),
        &flat(50, n),
        &flat(50, n),
        &flat(200, n),
        &flat(1, n),
        &flat(1, n),
        &no_exp(n),
        0,
        0,
        0,
        1000,
    )
    .unwrap();
    assert_eq!(r.open_positions.len(), 1);
    let floats: Vec<i128> = r
        .exposure_time_series
        .iter()
        .map(|s| s.floating_pnl)
        .collect();
    assert_eq!(floats, vec![0, 4, 4]);
    let eqs: Vec<i128> = r
        .exposure_time_series
        .iter()
        .map(|s| s.total_equity)
        .collect();
    assert_eq!(eqs, vec![1000, 1004, 1004]);
}
