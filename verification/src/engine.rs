//! The backtesting pipeline: validation, entry scanning, exit simulation,
//! exposure accounting and performance metrics, sequenced into one run.

pub mod num;
pub mod position;
pub mod prepare_inputs;
pub mod scan_entries;
pub mod simulate_exits;
pub mod exposure;
pub mod metrics;

use vstd::prelude::*;
use crate::engine::num::{RATE_SCALE, MAX_BARS};
use crate::engine::position::{Position, Side};
use crate::engine::prepare_inputs::{
    BacktestError, prepare_inputs, validate_length, check_levels, check_sizes, check_increasing,
    check_no_conflict, check_expirations, all_prices_in_range, all_levels_in_range,
    all_sizes_in_range, ts_strictly_increasing, no_signal_conflict, expirations_ok,
};
use crate::engine::scan_entries::{
    ScanInputs, scan_view, scan_entries, scan_spec, scan_fails, lemma_scan_count,
    lemma_signal_count_le,
};
use crate::engine::simulate_exits::{
    ExitInputs, exit_view, simulate_spec, simulate_position_exits,
};
use crate::engine::exposure::{ExposureSnapshot, exposure_spec, compute_exposure_series};
use crate::engine::metrics::{
    SummaryMetrics, compute_summary_metrics, trade_metrics_ok, time_metrics_ok, side_metrics_ok,
    side_filter, cumulative_return_spec,
};

verus! {

/// Everything one run produces.
#[derive(Clone, Debug, PartialEq, Eq)]
pub struct BacktestResult {
    /// The positions that closed, in creation order.
    pub closed_positions: Vec<Position>,
    /// The positions still open at the end, in creation order.
    pub open_positions: Vec<Position>,
    /// One exposure snapshot per bar.
    pub exposure_time_series: Vec<ExposureSnapshot>,
    /// Per-trade and time-series metrics for all, long and short views.
    pub metrics: SummaryMetrics,
}

/// Check 1: every array carries one bar per entry, and the bar count is
/// supported.
pub open spec fn lengths_ok(si: ScanInputs, ei: ExitInputs) -> bool {
    let n = si.n();
    &&& 1 <= n <= MAX_BARS
    &&& si.open.len() == n
    &&& ei.high.len() == n
    &&& ei.low.len() == n
    &&& ei.close.len() == n
    &&& si.longs.len() == n
    &&& si.shorts.len() == n
    &&& si.long_tp.len() == n
    &&& si.long_sl.len() == n
    &&& si.short_tp.len() == n
    &&& si.short_sl.len() == n
    &&& si.long_size.len() == n
    &&& si.short_size.len() == n
    &&& si.exp.len() == n
}

/// Check 2: every price, level and size is representable.
pub open spec fn values_ok(si: ScanInputs, ei: ExitInputs) -> bool {
    &&& all_prices_in_range(si.open)
    &&& all_prices_in_range(ei.high)
    &&& all_prices_in_range(ei.low)
    &&& all_prices_in_range(ei.close)
    &&& all_levels_in_range(si.long_tp)
    &&& all_levels_in_range(si.long_sl)
    &&& all_levels_in_range(si.short_tp)
    &&& all_levels_in_range(si.short_sl)
    &&& all_sizes_in_range(si.long_size)
    &&& all_sizes_in_range(si.short_size)
}

/// The first failure a run reports, in the fixed validation order; `None`
/// when the run goes through.
pub open spec fn input_error(si: ScanInputs, ei: ExitInputs) -> Option<BacktestError> {
    if !lengths_ok(si, ei) {
        Some(BacktestError::LengthMismatch)
    } else if !values_ok(si, ei) {
        Some(BacktestError::NonFinitePrice)
    } else if !ts_strictly_increasing(si.ts) {
        Some(BacktestError::TimestampsNotIncreasing)
    } else if !no_signal_conflict(si.longs, si.shorts) {
        Some(BacktestError::SignalConflict)
    } else if !expirations_ok(si.exp, si.ts) {
        Some(BacktestError::ExpirationInPast)
    } else if scan_fails(si) {
        Some(BacktestError::ExpirationInPast)
    } else {
        None
    }
}

/// Every position of the run, after entry scan and exit resolution, in
/// creation order.
pub open spec fn pipeline_positions(si: ScanInputs, ei: ExitInputs) -> Seq<Position> {
    Seq::new(scan_spec(si).len(), |k: int| simulate_spec(ei, scan_spec(si)[k]))
}

/// The closed positions, in creation order.
pub open spec fn closed_filter(s: Seq<Position>) -> Seq<Position>
    decreases s.len(),
{
    if s.len() == 0 {
        Seq::empty()
    } else if s.last().is_closed {
        closed_filter(s.drop_last()).push(s.last())
    } else {
        closed_filter(s.drop_last())
    }
}

/// The still-open positions, in creation order.
pub open spec fn open_filter(s: Seq<Position>) -> Seq<Position>
    decreases s.len(),
{
    if s.len() == 0 {
        Seq::empty()
    } else if !s.last().is_closed {
        open_filter(s.drop_last()).push(s.last())
    } else {
        open_filter(s.drop_last())
    }
}

/// Closed and open positions partition the run's positions.
pub proof fn lemma_partition_count(s: Seq<Position>)
    ensures
        closed_filter(s).len() + open_filter(s).len() == s.len(),
    decreases s.len(),
{
    if s.len() > 0 {
        lemma_partition_count(s.drop_last());
    }
}

/// The run carries exactly one position per signal bar, closed and open
/// together.
pub proof fn lemma_pipeline_count(si: ScanInputs, ei: ExitInputs)
    ensures
        pipeline_positions(si, ei).len() == scan_entries::signal_count(
            si.longs, si.shorts, si.n()),
        closed_filter(pipeline_positions(si, ei)).len() + open_filter(
            pipeline_positions(si, ei)).len() == pipeline_positions(si, ei).len(),
{
    lemma_scan_count(si, si.n());
    lemma_partition_count(pipeline_positions(si, ei));
}

/// Everything a successful run promises of its result: the positions it
/// holds, the exposure curve, and every metric field, each a function of
/// the inputs alone.
pub open spec fn run_ok(
    res: BacktestResult,
    si: ScanInputs,
    ei: ExitInputs,
    initial_equity: int,
) -> bool {
    let ps = pipeline_positions(si, ei);
    let expo = exposure_spec(ps, si.ts, ei.close, initial_equity);
    let closed = closed_filter(ps);
    &&& (forall|k: int| 0 <= k < scan_spec(si).len()
        ==> (#[trigger] scan_spec(si)[k]).fresh_ok(si.n()))
    &&& (forall|k: int| 0 <= k < ps.len() ==> (#[trigger] ps[k]).settled_ok(si.n()))
    &&& res.closed_positions@ == closed
    &&& res.open_positions@ == open_filter(ps)
    &&& res.exposure_time_series@ == expo
    &&& trade_metrics_ok(res.metrics.overall.trade_metrics, closed)
    &&& time_metrics_ok(res.metrics.overall.time_metrics, expo)
    &&& res.metrics.overall.total_pnl == expo.last().realized_equity + expo.last().floating_pnl
    &&& res.metrics.overall.total_return == cumulative_return_spec(expo)
    &&& side_metrics_ok(res.metrics.longs, side_filter(closed, Side::Long), expo)
    &&& side_metrics_ok(res.metrics.shorts, side_filter(closed, Side::Short), expo)
}

/// Exposure conservation over a whole run: the last snapshot's per-side
/// exposure is exactly the summed size of that side's still-open
/// positions, and its realized equity is exactly the summed net result of
/// the closed ones.
pub proof fn lemma_run_conservation(
    res: BacktestResult,
    si: ScanInputs,
    ei: ExitInputs,
    initial_equity: int,
)
    requires
        run_ok(res, si, ei, initial_equity),
        input_error(si, ei) is None,
    ensures
        res.exposure_time_series@.len() == si.n(),
        res.exposure_time_series@.last().long_exposure == exposure::open_side_size_sum(
            pipeline_positions(si, ei), Side::Long),
        res.exposure_time_series@.last().short_exposure == exposure::open_side_size_sum(
            pipeline_positions(si, ei), Side::Short),
        res.exposure_time_series@.last().realized_equity == exposure::closed_pnl_sum(
            pipeline_positions(si, ei)),
{
    let ps = pipeline_positions(si, ei);
    let n = si.n();
    lemma_pipeline_count(si, ei);
    lemma_signal_count_le(si.longs, si.shorts, n);
    exposure::lemma_exposure_conservation(ps, Side::Long, n);
    exposure::lemma_exposure_conservation(ps, Side::Short, n);
    exposure::lemma_realized_total(ps, n);
    exposure::lemma_side_exposure_bound(ps, Side::Long, n - 1, n);
    exposure::lemma_side_exposure_bound(ps, Side::Short, n - 1, n);
    exposure::lemma_realized_bound(ps, n - 1, n);
    assert(res.exposure_time_series@.last() == exposure::snapshot_at(
        ps, si.ts, ei.close, initial_equity, n - 1));
}

/// The realized curve of a run is a running sum: each bar adds exactly
/// the net results of the positions exiting on it.
pub proof fn lemma_run_realized_step(
    res: BacktestResult,
    si: ScanInputs,
    ei: ExitInputs,
    initial_equity: int,
    i: int,
)
    requires
        run_ok(res, si, ei, initial_equity),
        input_error(si, ei) is None,
        0 <= i < si.n(),
    ensures
        res.exposure_time_series@[i].realized_equity == (if i == 0 {
            0int
        } else {
            res.exposure_time_series@[i - 1].realized_equity as int
        }) + exposure::exit_pnl_at(pipeline_positions(si, ei), i),
{
    let ps = pipeline_positions(si, ei);
    let n = si.n();
    lemma_pipeline_count(si, ei);
    lemma_signal_count_le(si.longs, si.shorts, n);
    exposure::lemma_realized_step(ps, i);
    exposure::lemma_realized_bound(ps, i, n);
    assert(res.exposure_time_series@[i] == exposure::snapshot_at(
        ps, si.ts, ei.close, initial_equity, i));
    if i > 0 {
        exposure::lemma_realized_bound(ps, i - 1, n);
        assert(res.exposure_time_series@[i - 1] == exposure::snapshot_at(
            ps, si.ts, ei.close, initial_equity, i - 1));
    }
}

/// When no closed position of a run lost money, its realized curve never
/// falls.
pub proof fn lemma_run_realized_monotone(
    res: BacktestResult,
    si: ScanInputs,
    ei: ExitInputs,
    initial_equity: int,
    i: int,
)
    requires
        run_ok(res, si, ei, initial_equity),
        input_error(si, ei) is None,
        0 <= i < si.n() - 1,
        forall|k: int| 0 <= k < pipeline_positions(si, ei).len()
            ==> ((#[trigger] pipeline_positions(si, ei)[k]).is_closed
                ==> pipeline_positions(si, ei)[k].pnl->0 >= 0),
    ensures
        res.exposure_time_series@[i].realized_equity
            <= res.exposure_time_series@[i + 1].realized_equity,
{
    let ps = pipeline_positions(si, ei);
    let n = si.n();
    lemma_pipeline_count(si, ei);
    lemma_signal_count_le(si.longs, si.shorts, n);
    exposure::lemma_realized_monotone(ps, i);
    exposure::lemma_realized_bound(ps, i, n);
    exposure::lemma_realized_bound(ps, i + 1, n);
    assert(res.exposure_time_series@[i] == exposure::snapshot_at(
        ps, si.ts, ei.close, initial_equity, i));
    assert(res.exposure_time_series@[i + 1] == exposure::snapshot_at(
        ps, si.ts, ei.close, initial_equity, i + 1));
}

/// Precedence over a whole run: on every closed position's exit bar the
/// stop-loss predicate dominates take-profit, which dominates expiration,
/// and no predicate fired earlier.
pub proof fn lemma_run_exit_precedence(
    res: BacktestResult,
    si: ScanInputs,
    ei: ExitInputs,
    initial_equity: int,
    k: int,
)
    requires
        run_ok(res, si, ei, initial_equity),
        input_error(si, ei) is None,
        si.ts == ei.ts,
        0 <= ei.exit_fee_rate <= RATE_SCALE,
        0 <= ei.slippage_rate <= RATE_SCALE,
        0 <= k < pipeline_positions(si, ei).len(),
        pipeline_positions(si, ei)[k].is_closed,
    ensures
        ({
            let q = pipeline_positions(si, ei)[k];
            let t = q.exit_index->0 as int;
            &&& simulate_exits::triggered(ei, q, t)
            &&& (q.exit_condition->0 == position::ExitReason::StopLoss
                <==> simulate_exits::hit_sl(ei, q, t))
            &&& (q.exit_condition->0 == position::ExitReason::TakeProfit
                <==> !simulate_exits::hit_sl(ei, q, t) && simulate_exits::hit_tp(ei, q, t))
            &&& (q.exit_condition->0 == position::ExitReason::Expired
                <==> !simulate_exits::hit_sl(ei, q, t) && !simulate_exits::hit_tp(ei, q, t)
                    && simulate_exits::expired_at(ei, q, t))
            &&& (forall|u: int| q.entry_index <= u < t ==> !simulate_exits::triggered(ei, q, u))
        }),
{
    let p = scan_spec(si)[k];
    let q = pipeline_positions(si, ei)[k];
    assert(q == simulate_spec(ei, p));
    assert(p.fresh_ok(si.n()));
    assert(ei.n() == si.n());
    assert(ei.wf());
    simulate_exits::lemma_exit_precedence(ei, p);
    let t = q.exit_index->0 as int;
    assert(q.sl == p.sl && q.tp == p.tp && q.side == p.side
        && q.expiration_time == p.expiration_time && q.entry_index == p.entry_index);
    assert(simulate_exits::hit_sl(ei, q, t) == simulate_exits::hit_sl(ei, p, t));
    assert(simulate_exits::hit_tp(ei, q, t) == simulate_exits::hit_tp(ei, p, t));
    assert(simulate_exits::expired_at(ei, q, t) == simulate_exits::expired_at(ei, p, t));
    assert forall|u: int| q.entry_index <= u < t
        implies !simulate_exits::triggered(ei, q, u) by {
        assert(!simulate_exits::triggered(ei, p, u));
        assert(simulate_exits::hit_sl(ei, q, u) == simulate_exits::hit_sl(ei, p, u));
        assert(simulate_exits::hit_tp(ei, q, u) == simulate_exits::hit_tp(ei, p, u));
        assert(simulate_exits::expired_at(ei, q, u) == simulate_exits::expired_at(ei, p, u));
    }
}

/// Causality over a whole run: every position was opened by some signal
/// bar and filled on the following bar, clamped to the last.
pub proof fn lemma_run_entry_causality(si: ScanInputs, ei: ExitInputs, k: int)
    requires
        si.wf(),
        0 <= k < pipeline_positions(si, ei).len(),
    ensures
        exists|i: int| 0 <= i < si.n() && si.has_signal(i)
            && #[trigger] scan_entries::entry_bar(i, si.n())
                == pipeline_positions(si, ei)[k].entry_index
            && i <= pipeline_positions(si, ei)[k].entry_index < si.n(),
{
    scan_entries::lemma_scan_from_signal(si, si.n());
    let p = scan_spec(si)[k];
    let q = pipeline_positions(si, ei)[k];
    assert(q == simulate_spec(ei, p));
    assert(q.entry_index == p.entry_index);
    let i = choose|i: int| 0 <= i < si.n() && si.has_signal(i) && scan_spec(si)[k]
        == scan_entries::position_at(si, i);
    assert(scan_entries::entry_bar(i, si.n()) == q.entry_index);
    assert(0 <= i < si.n() && si.has_signal(i));
}

/// Determinism of the pipeline: two results of the same valid run carry
/// identical data, so a rerun reproduces every output exactly.
pub proof fn lemma_run_deterministic(
    r1: BacktestResult,
    r2: BacktestResult,
    si: ScanInputs,
    ei: ExitInputs,
    initial_equity: int,
)
    requires
        run_ok(r1, si, ei, initial_equity),
        run_ok(r2, si, ei, initial_equity),
    ensures
        r1.closed_positions@ == r2.closed_positions@,
        r1.open_positions@ == r2.open_positions@,
        r1.exposure_time_series@ == r2.exposure_time_series@,
        r1.metrics.model() == r2.metrics.model(),
{
}

/// Run the whole pipeline: validate, scan entries, resolve exits, build
/// the exposure curve and aggregate the metrics.
///
/// Fails with the first violated check, in the fixed validation order;
/// otherwise every output is the mathematical function of the inputs that
/// `run_ok` states.
pub fn run_backtest(
    timestamp: &Vec<i64>,
    open: &Vec<i64>,
    high: &Vec<i64>,
    low: &Vec<i64>,
    close: &Vec<i64>,
    long_signals: &Vec<bool>,
    short_signals: &Vec<bool>,
    long_tp: &Vec<i64>,
    long_sl: &Vec<i64>,
    short_tp: &Vec<i64>,
    short_sl: &Vec<i64>,
    long_size: &Vec<i64>,
    short_size: &Vec<i64>,
    expiration_times: &Vec<i64>,
    entry_fee_rate: i64,
    exit_fee_rate: i64,
    slippage_rate: i64,
    initial_equity: i64,
) -> (r: Result<BacktestResult, BacktestError>)
    requires
        0 <= entry_fee_rate <= RATE_SCALE,
        0 <= exit_fee_rate <= RATE_SCALE,
        0 <= slippage_rate <= RATE_SCALE,
    ensures
        ({
            let si = scan_view(
                timestamp@, open@, long_signals@, short_signals@, long_tp@, long_sl@, short_tp@,
                short_sl@, long_size@, short_size@, expiration_times@, entry_fee_rate as int,
                slippage_rate as int,
            );
            let ei = exit_view(
                timestamp@, high@, low@, close@, exit_fee_rate as int, slippage_rate as int,
            );
            &&& (r is Err <==> input_error(si, ei) is Some)
            &&& (r is Err ==> Some(r->Err_0) == input_error(si, ei))
            &&& (r matches Ok(res) ==> run_ok(res, si, ei, initial_equity as int))
        }),
{
    let ghost si = scan_view(
        timestamp@, open@, long_signals@, short_signals@, long_tp@, long_sl@, short_tp@,
        short_sl@, long_size@, short_size@, expiration_times@, entry_fee_rate as int,
        slippage_rate as int,
    );
    let ghost ei = exit_view(
        timestamp@, high@, low@, close@, exit_fee_rate as int, slippage_rate as int,
    );

    // Check 1: shapes.
    let n = timestamp.len();
    if n == 0 || n > MAX_BARS {
        return Err(BacktestError::LengthMismatch);
    }
    require_length(open, n)?;
    require_length(high, n)?;
    require_length(low, n)?;
    require_length(close, n)?;
    require_length(long_signals, n)?;
    require_length(short_signals, n)?;
    require_length(long_tp, n)?;
    require_length(long_sl, n)?;
    require_length(short_tp, n)?;
    require_length(short_sl, n)?;
    require_length(long_size, n)?;
    require_length(short_size, n)?;
    require_length(expiration_times, n)?;
    assert(lengths_ok(si, ei));

    // Check 2: values.  The four traded-price arrays go through the core
    // validator; levels and sizes follow.
    match prepare_inputs(timestamp, open, high, low, close) {
        Ok(_) => (),
        Err(e) => {
            return Err(e);
        },
    }
    if !(check_levels(long_tp) && check_levels(long_sl) && check_levels(short_tp)
        && check_levels(short_sl)) {
        return Err(BacktestError::NonFinitePrice);
    }
    if !(check_sizes(long_size) && check_sizes(short_size)) {
        return Err(BacktestError::NonFinitePrice);
    }
    assert(values_ok(si, ei));

    // Check 3: the time axis.
    if !check_increasing(timestamp) {
        return Err(BacktestError::TimestampsNotIncreasing);
    }

    // Check 4: signal exclusivity.
    if !check_no_conflict(long_signals, short_signals) {
        return Err(BacktestError::SignalConflict);
    }

    // Check 5: expiration sanity against the signal bars.
    if !check_expirations(expiration_times, timestamp) {
        return Err(BacktestError::ExpirationInPast);
    }

    assert(si.wf());
    assert(ei.wf());

    // Entries; the scan re-checks expirations against the clamped fill bar.
    let mut positions = scan_entries(
        timestamp, open, long_signals, short_signals, long_tp, long_sl, short_tp, short_sl,
        long_size, short_size, expiration_times, entry_fee_rate, slippage_rate,
    )?;
    assert(input_error(si, ei) is None);

    // Exits.
    proof {
        lemma_scan_count(si, si.n());
        lemma_signal_count_le(si.longs, si.shorts, si.n());
        assert(forall|k: int| 0 <= k < positions@.len()
            ==> (#[trigger] positions@[k]).settled_ok(timestamp@.len() as int));
    }
    simulate_position_exits(&mut positions, timestamp, high, low, close, exit_fee_rate,
        slippage_rate);
    proof {
        assert(positions@ =~= pipeline_positions(si, ei));
    }

    // Exposure.
    let exposure_series = compute_exposure_series(&positions, close, timestamp, initial_equity);

    // Partition into closed and open, in creation order.
    let m = positions.len();
    let mut closed: Vec<Position> = Vec::new();
    let mut open_: Vec<Position> = Vec::new();
    let mut k: usize = 0;
    while k < m
        invariant
            m == positions@.len(),
            0 <= k <= m,
            closed@ == closed_filter(positions@.take(k as int)),
            open_@ == open_filter(positions@.take(k as int)),
            closed@.len() <= k,
            forall|u: int| 0 <= u < m
                ==> (#[trigger] positions@[u]).settled_ok(timestamp@.len() as int),
            forall|u: int| 0 <= u < closed@.len()
                ==> (#[trigger] closed@[u]).settled_ok(timestamp@.len() as int)
                    && closed@[u].is_closed,
            timestamp@.len() <= MAX_BARS,
        decreases m - k,
    {
        let p = positions[k];
        proof {
            assert(positions@.take(k as int + 1).drop_last() =~= positions@.take(k as int));
            assert(positions@.take(k as int + 1).last() == positions@[k as int]);
        }
        if p.is_closed {
            closed.push(p);
        } else {
            open_.push(p);
        }
        k += 1;
    }
    proof {
        assert(positions@.take(m as int) =~= positions@);
        assert(forall|u: int| 0 <= u < closed@.len()
            ==> crate::engine::metrics::trade_ok(#[trigger] closed@[u]));
    }

    // Metrics.
    let summary_metrics = compute_summary_metrics(initial_equity, &closed, &exposure_series);

    Ok(BacktestResult {
        closed_positions: closed,
        open_positions: open_,
        exposure_time_series: exposure_series,
        metrics: summary_metrics,
    })
}

/// Ensure `arr.len() == expected` for one input array.
fn require_length<T>(arr: &Vec<T>, expected: usize) -> (r: Result<(), BacktestError>)
    ensures
        r is Ok <==> arr.len() == expected,
        r is Err ==> r->Err_0 == BacktestError::LengthMismatch,
{
    validate_length(arr, expected)
}

} // verus!
