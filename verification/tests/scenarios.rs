//! End-to-end scenarios through `run_backtest`: fills, exits, precedence,
//! expiration and the error surface.

use backtester::engine::num::{MAX_PRICE, MAX_SIZE, NO_EXPIRATION, RATE_SCALE};
use backtester::engine::position::{ExitReason, Side};
use backtester::engine::prepare_inputs::BacktestError;
use backtester::engine::run_backtest;
use backtester::engine::BacktestResult;

fn flat(v: i64, n: usize) -> Vec<i64> {
    vec![v; n]
}

fn no_exp(n: usize) -> Vec<i64> {
    vec![NO_EXPIRATION; n]
}

#[allow(clippy::too_many_arguments)]
fn run_long(
    ts: Vec<i64>,
    open: Vec<i64>,
    high: Vec<i64>,
    low: Vec<i64>,
    close: Vec<i64>,
    long_sig: Vec<bool>,
    tp: i64,
    sl: i64,
    exp: Vec<i64>,
) -> Result<BacktestResult, BacktestError> {
    let n = ts.len();
    let short_sig = vec![false; n];
    run_backtest(
        &ts,
        &open,
        &high,
        &low,
        &close,
        &long_sig,
        &short_sig,
        &flat(tp, n),
        &flat(sl, n),
        &flat(1, n),
        &flat(1, n),
        &flat(1, n),
        &flat(1, n),
        &exp,
        0,
        0,
        0,
        1000,
    )
}

#[test]
fn long_tp_hit_next_bar_fill() {
    let r = run_long(
        vec![1, 2, 3, 4],
        flat(100, 4),
        vec![100, 100, 110, 100],
        flat(100, 4),
        vec![100, 100, 110, 100],
        vec![true, false, false, false],
        110,
        90,
        no_exp(4),
    )
    .unwrap();
    assert_eq!(r.closed_positions.len(), 1);
    assert_eq!(r.open_positions.len(), 0);
    let p = &r.closed_positions[0];
    assert_eq!(p.side, Side::Long);
    assert_eq!(p.position_id, 2);
    assert_eq!(p.entry_index, 1);
    assert_eq!(p.entry_price, 100);
    assert_eq!(p.exit_index, Some(2));
    assert_eq!(p.exit_condition, Some(ExitReason::TakeProfit));
    assert_eq!(p.exit_price, Some(110));
    assert_eq!(p.pnl, Some(10));
    // 0.10 in fixed-point
    assert_eq!(p.absolute_return, Some(100_000));
    assert_eq!(p.real_return, Some(100_000));
    assert!(p.is_closed);
}

#[test]
fn short_sl_hit() {
    let n = 4;
    let ts = vec![1, 2, 3, 4];
    let open = flat(100, n);
    let high = vec![100, 100, 110, 100];
    let low = flat(100, n);
    let close = vec![100, 100, 110, 100];
    let long_sig = vec![false; n];
    let short_sig = vec![true, false, false, false];
    let r = run_backtest(
        &ts,
        &open,
        &high,
        &low,
        &close,
        &long_sig,
        &short_sig,
        &flat(110, n),
        &flat(90, n),
        &flat(90, n),
        &flat(110, n),
        &flat(1, n),
        &flat(1, n),
        &no_exp(n),
        0,
        0,
        0,
        1000,
    )
    .unwrap();
    assert_eq!(r.closed_positions.len(), 1);
    let p = &r.closed_positions[0];
    assert_eq!(p.side, Side::Short);
    assert_eq!(p.exit_condition, Some(ExitReason::StopLoss));
    assert_eq!(p.exit_index, Some(2));
    assert_eq!(p.exit_price, Some(110));
    assert_eq!(p.pnl, Some(-10));
}

#[test]
fn expiration_closes_at_close() {
    let mut exp = no_exp(4);
    exp[0] = 3;
    let r = run_long(
        vec![1, 2, 3, 4],
        flat(100, 4),
        flat(100, 4),
        flat(100, 4),
        flat(100, 4),
        vec![true, false, false, false],
        200,
        50,
        exp,
    )
    .unwrap();
    assert_eq!(r.closed_positions.len(), 1);
    let p = &r.closed_positions[0];
    assert_eq!(p.exit_condition, Some(ExitReason::Expired));
    assert_eq!(p.exit_index, Some(2));
    assert_eq!(p.exit_price, Some(100));
    assert_eq!(p.pnl, Some(0));
}

#[test]
fn same_bar_sl_beats_tp() {
    let r = run_long(
        vec![1, 2, 3, 4],
        flat(100, 4),
        vec![100, 100, 110, 100],
        vec![100, 100, 90, 100],
        flat(100, 4),
        vec![true, false, false, false],
        110,
        90,
        no_exp(4),
    )
    .unwrap();
    assert_eq!(r.closed_positions.len(), 1);
    let p = &r.closed_positions[0];
    assert_eq!(p.exit_condition, Some(ExitReason::StopLoss));
    assert_eq!(p.exit_price, Some(90));
    assert_eq!(p.pnl, Some(-10));
}

#[test]
fn signal_conflict_is_rejected() {
    let n = 4;
    let ts = vec![1, 2, 3, 4];
    let mut long_sig = vec![false; n];
    let mut short_sig = vec![false; n];
    long_sig[2] = true;
    short_sig[2] = true;
    let r = run_backtest(
        &ts,
        &flat(100, n),
        &flat(100, n),
        &flat(100, n),
        &flat(100, n),
        &long_sig,
        &short_sig,
        &flat(110, n),
        &flat(90, n),
        &flat(90, n),
        &flat(110, n),
        &flat(1, n),
        &flat(1, n),
        &no_exp(n),
        0,
        0,
        0,
        1000,
    );
    assert_eq!(r.unwrap_err(), BacktestError::SignalConflict);
}

#[test]
fn last_bar_signal_clamps_and_stays_open() {
    let r = run_long(
        vec![1, 2, 3, 4],
        flat(100, 4),
        flat(100, 4),
        flat(100, 4),
        flat(100, 4),
        vec![false, false, false, true],
        200,
        50,
        no_exp(4),
    )
    .unwrap();
    assert_eq!(r.closed_positions.len(), 0);
    assert_eq!(r.open_positions.len(), 1);
    let p = &r.open_positions[0];
    assert_eq!(p.entry_index, 3);
    assert_eq!(p.entry_price, 100);
    assert!(!p.is_closed);
    assert_eq!(p.exit_index, None);
    assert_eq!(p.pnl, None);
}

#[test]
fn single_bar_signal_fills_same_bar() {
    let r = run_long(
        vec![7],
        flat(100, 1),
        flat(100, 1),
        flat(100, 1),
        flat(100, 1),
        vec![true],
        200,
        50,
        no_exp(1),
    )
    .unwrap();
    assert_eq!(r.open_positions.len(), 1);
    assert_eq!(r.open_positions[0].entry_index, 0);
    assert_eq!(r.open_positions[0].position_id, 7);
}

#[test]
fn length_mismatch_is_rejected() {
    let ts = vec![1, 2, 3, 4];
    let open = flat(100, 3);
    let r = run_long(
        ts,
        open,
        flat(100, 4),
        flat(100, 4),
        flat(100, 4),
        vec![false; 4],
        110,
        90,
        no_exp(4),
    );
    assert_eq!(r.unwrap_err(), BacktestError::LengthMismatch);
}

#[test]
fn empty_input_is_rejected() {
    let r = run_long(
        vec![],
        vec![],
        vec![],
        vec![],
        vec![],
        vec![],
        110,
        90,
        vec![],
    );
    assert_eq!(r.unwrap_err(), BacktestError::LengthMismatch);
}

#[test]
fn nonpositive_price_is_rejected() {
    let r = run_long(
        vec![1, 2, 3, 4],
        vec![100, 0, 100, 100],
        flat(100, 4),
        flat(100, 4),
        flat(100, 4),
        vec![false; 4],
        110,
        90,
        no_exp(4),
    );
    assert_eq!(r.unwrap_err(), BacktestError::NonFinitePrice);
}

#[test]
fn negative_level_is_rejected() {
    let r = run_long(
        vec![1, 2, 3, 4],
        flat(100, 4),
        flat(100, 4),
        flat(100, 4),
        flat(100, 4),
        vec![false; 4],
        -1,
        90,
        no_exp(4),
    );
    assert_eq!(r.unwrap_err(), BacktestError::NonFinitePrice);
}

#[test]
fn stale_timestamps_are_rejected() {
    let r = run_long(
        vec![1, 1, 3, 4],
        flat(100, 4),
        flat(100, 4),
        flat(100, 4),
        flat(100, 4),
        vec![false; 4],
        110,
        90,
        no_exp(4),
    );
    assert_eq!(r.unwrap_err(), BacktestError::TimestampsNotIncreasing);
}

#[test]
fn expiration_before_bar_is_rejected() {
    let mut exp = no_exp(4);
    exp[2] = 2;
    let r = run_long(
        vec![1, 2, 3, 4],
        flat(100, 4),
        flat(100, 4),
        flat(100, 4),
        flat(100, 4),
        vec![false; 4],
        110,
        90,
        exp,
    );
    assert_eq!(r.unwrap_err(), BacktestError::ExpirationInPast);
}

#[test]
fn expiration_before_fill_bar_is_rejected() {
    // Valid against the signal bar (15 >= 10) but behind the clamped fill
    // bar's timestamp (15 < 20): the scan rejects it.
    let mut exp = no_exp(2);
    exp[0] = 15;
    let r = run_long(
        vec![10, 20],
        flat(100, 2),
        flat(100, 2),
        flat(100, 2),
        flat(100, 2),
        vec![true, false],
        200,
        50,
        exp,
    );
    assert_eq!(r.unwrap_err(), BacktestError::ExpirationInPast);
}

#[test]
fn fees_reduce_pnl() {
    let n = 4;
    let ts = vec![1, 2, 3, 4];
    let long_sig = vec![true, false, false, false];
    let short_sig = vec![false; n];
    // 1% entry and exit fees: entry fee 1, exit fee floor(110 * 1%) = 1.
    let r = run_backtest(
        &ts,
        &flat(100, n),
        &vec![100, 100, 110, 100],
        &flat(100, n),
        &vec![100, 100, 110, 100],
        &long_sig,
        &short_sig,
        &flat(110, n),
        &flat(90, n),
        &flat(90, n),
        &flat(110, n),
        &flat(1, n),
        &flat(1, n),
        &no_exp(n),
        10_000,
        10_000,
        0,
        1000,
    )
    .unwrap();
    let p = &r.closed_positions[0];
    assert_eq!(p.fee_entry, 1);
    assert_eq!(p.fee_exit, 1);
    assert_eq!(p.pnl, Some(8));
}

#[test]
fn slippage_moves_both_fills_against_the_position() {
    let n = 4;
    let ts = vec![1, 2, 3, 4];
    let long_sig = vec![true, false, false, false];
    let short_sig = vec![false; n];
    // 1% slippage: entry 100 -> 101, exit 110 -> 108 (rounded down).
    let r = run_backtest(
        &ts,
        &flat(100, n),
        &vec![100, 100, 110, 100],
        &flat(100, n),
        &vec![100, 100, 110, 100],
        &long_sig,
        &short_sig,
        &flat(110, n),
        &flat(90, n),
        &flat(90, n),
        &flat(110, n),
        &flat(1, n),
        &flat(1, n),
        &no_exp(n),
        0,
        0,
        10_000,
        1000,
    )
    .unwrap();
    let p = &r.closed_positions[0];
    assert_eq!(p.entry_price, 101);
    assert_eq!(p.slippage_entry, 1);
    assert_eq!(p.exit_price, Some(108));
    assert_eq!(p.slippage_exit, 2);
    assert_eq!(p.pnl, Some(7));
    assert_eq!(p.absolute_return, Some(69_306));
}

#[test]
fn largest_price_and_size_settle_exactly() {
    let n = 3;
    let ts = vec![1, 2, 3];
    let long_sig = vec![true, false, false];
    let short_sig = vec![false; n];
    // Full 100% slippage doubles the largest entry fill; the take-profit
    // at the cap then closes at half of it on the way out.
    let r = run_backtest(
        &ts,
        &flat(MAX_PRICE, n),
        &flat(MAX_PRICE, n),
        &flat(MAX_PRICE, n),
        &flat(MAX_PRICE, n),
        &long_sig,
        &short_sig,
        &flat(MAX_PRICE, n),
        &flat(0, n),
        &flat(0, n),
        &flat(MAX_PRICE, n),
        &flat(MAX_SIZE, n),
        &flat(MAX_SIZE, n),
        &no_exp(n),
        0,
        0,
        RATE_SCALE,
        1000,
    )
    .unwrap();
    let p = &r.closed_positions[0];
    assert_eq!(p.entry_price, 2 * MAX_PRICE);
    assert_eq!(p.exit_price, Some(0));
    assert_eq!(p.exit_condition, Some(ExitReason::TakeProfit));
    assert_eq!(
        p.pnl,
        Some(-2 * MAX_PRICE * MAX_SIZE)
    );
}

#[test]
fn price_beyond_the_cap_is_rejected() {
    let r = run_long(
        vec![1, 2],
        vec![100, MAX_PRICE + 1],
        flat(100, 2),
        flat(100, 2),
        flat(100, 2),
        vec![false; 2],
        110,
        90,
        no_exp(2),
    );
    assert_eq!(r.unwrap_err(), BacktestError::NonFinitePrice);
}

#[test]
fn zero_size_trade_has_zero_notional_and_zero_return() {
    let n = 4;
    let ts = vec![1, 2, 3, 4];
    let long_sig = vec![true, false, false, false];
    let short_sig = vec![false; n];
    let r = run_backtest(
        &ts,
        &flat(100, n),
        &vec![100, 100, 110, 100],
        &flat(100, n),
        &vec![100, 100, 110, 100],
        &long_sig,
        &short_sig,
        &flat(110, n),
        &flat(90, n),
        &flat(90, n),
        &flat(110, n),
        &flat(0, n),
        &flat(0, n),
        &no_exp(n),
        0,
        0,
        0,
        1000,
    )
    .unwrap();
    let p = &r.closed_positions[0];
    assert_eq!(p.position_size, 0);
    assert_eq!(p.pnl, Some(0));
    assert_eq!(p.real_return, Some(0));
    assert_eq!(p.fee_entry, 0);
    let _ = RATE_SCALE;
}
