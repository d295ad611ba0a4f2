//! The pipeline stages exercised one by one: validation, entry scan, exit
//! resolution and exposure construction as standalone calls.

use backtester::engine::exposure::compute_exposure_series;
use backtester::engine::num::NO_EXPIRATION;
use backtester::engine::position::{ExitReason, Side};
use backtester::engine::prepare_inputs::{prepare_inputs, validate_length, BacktestError};
use backtester::engine::scan_entries::scan_entries;
use backtester::engine::simulate_exits::{simulate_position_exits, simulate_single_exit};

fn flat(v: i64, n: usize) -> Vec<i64> {
    vec![v; n]
}

#[test]
fn validate_length_checks_exactly() {
    let v: Vec<i64> = vec![1, 2, 3];
    assert_eq!(validate_length(&v, 3), Ok(()));
    assert_eq!(validate_length(&v, 4), Err(BacktestError::LengthMismatch));
}

#[test]
fn prepare_inputs_returns_the_common_length() {
    let ts = vec![1, 2, 3];
    let o = flat(10, 3);
    let r = prepare_inputs(&ts, &o, &o, &o, &o);
    assert_eq!(r, Ok(3));
}

#[test]
fn prepare_inputs_rejects_shape_and_value_faults() {
    let ts = vec![1, 2, 3];
    let good = flat(10, 3);
    let short = flat(10, 2);
    assert_eq!(
        prepare_inputs(&ts, &short, &good, &good, &good),
        Err(BacktestError::LengthMismatch)
    );
    let zero = vec![10, 0, 10];
    assert_eq!(
        prepare_inputs(&ts, &good, &zero, &good, &good),
        Err(BacktestError::NonFinitePrice)
    );
}

#[test]
fn scan_emits_one_position_per_signal_in_bar_order() {
    let n = 4;
    let ts = vec![10, 20, 30, 40];
    let open = vec![100, 101, 102, 103];
    let long = vec![true, false, true, false];
    let short = vec![false; n];
    let positions = scan_entries(
        &ts,
        &open,
        &long,
        &short,
        &flat(110, n),
        &flat(90, n),
        &flat(90, n),
        &flat(110, n),
        &flat(5, n),
        &flat(7, n),
        &flat(NO_EXPIRATION, n),
        10_000,
        0,
    )
    .unwrap();
    assert_eq!(positions.len(), 2);
    let a = &positions[0];
    assert_eq!(a.entry_index, 1);
    assert_eq!(a.position_id, 20);
    assert_eq!(a.entry_price, 101);
    assert_eq!(a.tp, 110);
    assert_eq!(a.sl, 90);
    assert_eq!(a.position_size, 5);
    // 1% of 5 * 101 = 5.05, rounded down.
    assert_eq!(a.fee_entry, 5);
    assert_eq!(a.slippage_entry, 0);
    assert_eq!(a.expiration_time, None);
    assert!(!a.is_closed);
    let b = &positions[1];
    assert_eq!(b.entry_index, 3);
    assert_eq!(b.position_id, 40);
    assert_eq!(b.entry_price, 103);
}

#[test]
fn scan_rejects_expiration_behind_the_fill_bar() {
    let n = 2;
    let ts = vec![10, 20];
    let mut exp = flat(NO_EXPIRATION, n);
    exp[0] = 15;
    let r = scan_entries(
        &ts,
        &flat(100, n),
        &vec![true, false],
        &vec![false; n],
        &flat(110, n),
        &flat(90, n),
        &flat(90, n),
        &flat(110, n),
        &flat(1, n),
        &flat(1, n),
        &exp,
        0,
        0,
    );
    assert_eq!(r.unwrap_err(), BacktestError::ExpirationInPast);
}

#[test]
fn exits_are_resolved_in_place() {
    let n = 4;
    let ts = vec![1, 2, 3, 4];
    let open = flat(100, n);
    let high = vec![100, 100, 110, 100];
    let low = flat(100, n);
    let close = vec![100, 100, 110, 100];
    let mut positions = scan_entries(
        &ts,
        &open,
        &vec![true, false, false, false],
        &vec![false; n],
        &flat(110, n),
        &flat(90, n),
        &flat(90, n),
        &flat(110, n),
        &flat(1, n),
        &flat(1, n),
        &flat(NO_EXPIRATION, n),
        0,
        0,
    )
    .unwrap();
    simulate_position_exits(&mut positions, &ts, &high, &low, &close, 0, 0);
    assert_eq!(positions.len(), 1);
    let p = &positions[0];
    assert!(p.is_closed);
    assert_eq!(p.exit_index, Some(2));
    assert_eq!(p.exit_condition, Some(ExitReason::TakeProfit));
    assert_eq!(p.pnl, Some(10));
}

#[test]
fn single_exit_leaves_triggerless_positions_open() {
    let n = 3;
    let ts = vec![1, 2, 3];
    let open = flat(100, n);
    let positions = scan_entries(
        &ts,
        &open,
        &vec![true, false, false],
        &vec![false; n],
        &flat(500, n),
        &flat(1, n),
        &flat(1, n),
        &flat(500, n),
        &flat(1, n),
        &flat(1, n),
        &flat(NO_EXPIRATION, n),
        0,
        0,
    )
    .unwrap();
    let p = positions[0];
    let q = simulate_single_exit(p, &ts, &flat(100, n), &flat(100, n), &flat(100, n), 0, 0);
    assert!(!q.is_closed);
    assert_eq!(q, p);
    // An already-closed position passes through untouched.
    let mut closed = vec![q];
    simulate_position_exits(&mut closed, &ts, &flat(100, n), &flat(1, n), &flat(100, n), 0, 0);
    let r = simulate_single_exit(closed[0], &ts, &flat(100, n), &flat(100, n), &flat(100, n), 0, 0);
    assert!(closed[0].is_closed);
    assert_eq!(r, closed[0]);
}

#[test]
fn exposure_of_an_empty_position_set_is_flat() {
    let ts = vec![1, 2, 3];
    let close = flat(100, 3);
    let snaps = compute_exposure_series(&Vec::new(), &close, &ts, 500);
    assert_eq!(snaps.len(), 3);
    for s in &snaps {
        assert_eq!(s.long_exposure, 0);
        assert_eq!(s.short_exposure, 0);
        assert_eq!(s.total_exposure, 0);
        assert_eq!(s.realized_equity, 0);
        assert_eq!(s.floating_pnl, 0);
        assert_eq!(s.total_equity, 500);
    }
    assert_eq!(snaps[0].timestamp, 1);
    assert_eq!(snaps[2].timestamp, 3);
}

#[test]
fn short_positions_mark_against_the_move() {
    // A short entered at 100 while the close falls to 95: floating +5 per
    // unit, exposure on the short side only.
    let n = 3;
    let ts = vec![1, 2, 3];
    let mut positions = scan_entries(
        &ts,
        &flat(100, n),
        &vec![false; n],
        &vec![true, false, false],
        &flat(110, n),
        &flat(90, n),
        &flat(1, n),
        &flat(500, n),
        &flat(1, n),
        &flat(2, n),
        &flat(NO_EXPIRATION, n),
        0,
        0,
    )
    .unwrap();
    assert_eq!(positions[0].side, Side::Short);
    let high = flat(100, n);
    let low = vec![100, 95, 95];
    let close = vec![100, 95, 95];
    simulate_position_exits(&mut positions, &ts, &high, &low, &close, 0, 0);
    assert!(!positions[0].is_closed);
    let snaps = compute_exposure_series(&positions, &close, &ts, 1000);
    assert_eq!(snaps[1].short_exposure, 2);
    assert_eq!(snaps[1].floating_pnl, 10);
    assert_eq!(snaps[1].total_equity, 1010);
}
