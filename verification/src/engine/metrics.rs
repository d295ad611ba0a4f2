//! Performance metrics: per-trade statistics over the closed positions and
//! time-series statistics over the equity curve, partitioned by side.
//!
//! Money means are scaled by `RATE_SCALE` (a mean of `1_500_000` reads
//! 1.5 money units); rates, returns and ratios are plain `RATE_SCALE`-scaled
//! fixed-point values.

use vstd::prelude::*;
use vstd::math::max;
use crate::engine::num::{
    RATE_SCALE, MAX_PRICE, MAX_SIZE, MAX_BARS, RETURN_CAP, EQUITY_BOUND, abs_val, div_trunc,
    ratio_scaled, sqrt_floor, lemma_div_trunc_abs_le, div_trunc_i128, ratio_scaled_i128,
    isqrt_u128,
};
use crate::engine::position::{Position, Side};
use crate::engine::exposure::ExposureSnapshot;

verus! {

/// Per-trade metrics of one subset of the closed positions.
#[derive(Clone, Debug, PartialEq, Eq)]
pub struct SideTradeMetrics {
    /// How many closed trades the subset holds.
    pub number_of_trades: usize,
    /// Share of trades with a positive net result, scaled.
    pub win_rate: i128,
    /// Share of trades with a negative net result, scaled.
    pub loss_rate: i128,
    /// Mean of the scaled per-trade returns.
    pub average_trade_return: i128,
    /// Mean net result per trade, in money units scaled by `RATE_SCALE`.
    pub average_trade_pnl: i128,
    /// Gross winnings over gross losses, scaled; `None` when nothing was
    /// lost (an infinite factor).
    pub profit_factor: Option<i128>,
    /// The expected per-trade return: the mean of the scaled returns.
    pub expectancy: i128,
    /// Mean holding time, in bars scaled by `RATE_SCALE`.
    pub average_duration: i128,
    /// Scaled return of each trade, ascending by exit bar.
    pub trade_returns: Vec<i128>,
    /// Net result of each trade, ascending by exit bar.
    pub trade_pnls: Vec<i64>,
    /// Holding time in bars of each trade, ascending by exit bar.
    pub durations: Vec<i64>,
}

/// Bar-by-bar metrics of the whole portfolio's equity curve.
#[derive(Clone, Debug, PartialEq, Eq)]
pub struct TimeSeriesMetrics {
    /// Scaled equity return of each bar step.
    pub returns: Vec<i128>,
    /// Mean of the scaled bar returns.
    pub mean_return: i128,
    /// Sample standard deviation of the bar returns, scaled.
    pub volatility: i128,
    /// Mean over volatility, scaled; zero when volatility is zero.
    pub sharpe_ratio: i128,
    /// Scaled total equity growth from the first to the last bar.
    pub cumulative_return: i128,
    /// Largest scaled peak-to-trough equity decline.
    pub max_drawdown: i128,
}

/// One side's (or the whole run's) combined metrics.
#[derive(Clone, Debug, PartialEq, Eq)]
pub struct SideMetrics {
    /// The run's scaled cumulative equity return.
    pub total_return: i128,
    /// Summed net result of the subset's closed trades; for the overall
    /// view, realized plus floating at the final bar.
    pub total_pnl: i128,
    /// The subset's per-trade metrics.
    pub trade_metrics: SideTradeMetrics,
    /// The equity-curve metrics (shared by all three views).
    pub time_metrics: TimeSeriesMetrics,
}

/// The three views: every trade, longs only, shorts only.
#[derive(Clone, Debug, PartialEq, Eq)]
pub struct SummaryMetrics {
    pub overall: SideMetrics,
    pub longs: SideMetrics,
    pub shorts: SideMetrics,
}

/// The mathematical content of a `SideTradeMetrics` value.
pub struct TradeMetricsModel {
    pub number_of_trades: int,
    pub win_rate: int,
    pub loss_rate: int,
    pub average_trade_return: int,
    pub average_trade_pnl: int,
    pub profit_factor: Option<i128>,
    pub expectancy: int,
    pub average_duration: int,
    pub trade_returns: Seq<i128>,
    pub trade_pnls: Seq<i64>,
    pub durations: Seq<i64>,
}

impl SideTradeMetrics {
    /// Everything this value says, as one mathematical record.
    pub open spec fn model(self) -> TradeMetricsModel {
        TradeMetricsModel {
            number_of_trades: self.number_of_trades as int,
            win_rate: self.win_rate as int,
            loss_rate: self.loss_rate as int,
            average_trade_return: self.average_trade_return as int,
            average_trade_pnl: self.average_trade_pnl as int,
            profit_factor: self.profit_factor,
            expectancy: self.expectancy as int,
            average_duration: self.average_duration as int,
            trade_returns: self.trade_returns@,
            trade_pnls: self.trade_pnls@,
            durations: self.durations@,
        }
    }
}

/// The mathematical content of a `TimeSeriesMetrics` value.
pub struct TimeMetricsModel {
    pub returns: Seq<i128>,
    pub mean_return: int,
    pub volatility: int,
    pub sharpe_ratio: int,
    pub cumulative_return: int,
    pub max_drawdown: int,
}

impl TimeSeriesMetrics {
    /// Everything this value says, as one mathematical record.
    pub open spec fn model(self) -> TimeMetricsModel {
        TimeMetricsModel {
            returns: self.returns@,
            mean_return: self.mean_return as int,
            volatility: self.volatility as int,
            sharpe_ratio: self.sharpe_ratio as int,
            cumulative_return: self.cumulative_return as int,
            max_drawdown: self.max_drawdown as int,
        }
    }
}

/// The mathematical content of a `SideMetrics` value.
pub struct SideMetricsModel {
    pub total_return: int,
    pub total_pnl: int,
    pub trade_metrics: TradeMetricsModel,
    pub time_metrics: TimeMetricsModel,
}

impl SideMetrics {
    /// Everything this value says, as one mathematical record.
    pub open spec fn model(self) -> SideMetricsModel {
        SideMetricsModel {
            total_return: self.total_return as int,
            total_pnl: self.total_pnl as int,
            trade_metrics: self.trade_metrics.model(),
            time_metrics: self.time_metrics.model(),
        }
    }
}

/// The mathematical content of a `SummaryMetrics` value.
pub struct SummaryModel {
    pub overall: SideMetricsModel,
    pub longs: SideMetricsModel,
    pub shorts: SideMetricsModel,
}

impl SummaryMetrics {
    /// Everything this value says, as one mathematical record.
    pub open spec fn model(self) -> SummaryModel {
        SummaryModel {
            overall: self.overall.model(),
            longs: self.longs.model(),
            shorts: self.shorts.model(),
        }
    }
}

/// The key trades are ordered by: the exit bar, open positions last.
pub open spec fn exit_key(p: Position) -> int {
    match p.exit_index {
        Some(e) => e as int,
        None => usize::MAX as int,
    }
}

/// Insert `p` into `s` from the right, after any element of equal key:
/// the insertion step of a stable sort.
pub open spec fn insert_by_key(s: Seq<Position>, p: Position) -> Seq<Position>
    decreases s.len(),
{
    if s.len() == 0 {
        seq![p]
    } else if exit_key(p) < exit_key(s.last()) {
        insert_by_key(s.drop_last(), p).push(s.last())
    } else {
        s.push(p)
    }
}

/// Stable sort ascending by exit bar.
pub open spec fn sort_by_exit(s: Seq<Position>) -> Seq<Position>
    decreases s.len(),
{
    if s.len() == 0 {
        Seq::empty()
    } else {
        insert_by_key(sort_by_exit(s.drop_last()), s.last())
    }
}

/// Inserting at the position the scan-from-the-right finds is exactly the
/// insertion step.
proof fn lemma_insert_by_key_at(s: Seq<Position>, p: Position, j: int)
    requires
        0 <= j <= s.len(),
        forall|u: int| j <= u < s.len() ==> exit_key(#[trigger] s[u]) > exit_key(p),
        j > 0 ==> exit_key(s[j - 1]) <= exit_key(p),
    ensures
        insert_by_key(s, p) == s.insert(j, p),
    decreases s.len(),
{
    if s.len() == 0 {
        assert(insert_by_key(s, p) =~= s.insert(0, p));
    } else if j == s.len() {
        assert(insert_by_key(s, p) == s.push(p));
        assert(s.push(p) =~= s.insert(j, p));
    } else {
        assert(exit_key(s[s.len() - 1]) > exit_key(p));
        lemma_insert_by_key_at(s.drop_last(), p, j);
        assert(insert_by_key(s.drop_last(), p).push(s.last()) =~= s.insert(j, p));
    }
}

/// The net result a closed trade reports.
pub open spec fn pnl_of(p: Position) -> int {
    match p.pnl {
        Some(v) => v as int,
        None => 0,
    }
}

/// The scaled notional-normalized return of a closed trade.
pub open spec fn trade_return_of(p: Position) -> int {
    ratio_scaled(pnl_of(p), p.entry_price * p.position_size)
}

/// A closed trade's holding time in bars.
pub open spec fn duration_of(p: Position) -> int {
    abs_val(exit_key(p) - p.entry_index)
}

/// The per-trade net results, in order.
pub open spec fn pnls_seq(s: Seq<Position>) -> Seq<i64> {
    Seq::new(s.len(), |k: int| pnl_of(s[k]) as i64)
}

/// The per-trade scaled returns, in order.
pub open spec fn returns_seq(s: Seq<Position>) -> Seq<i128> {
    Seq::new(s.len(), |k: int| trade_return_of(s[k]) as i128)
}

/// The per-trade durations, in order.
pub open spec fn durations_seq(s: Seq<Position>) -> Seq<i64> {
    Seq::new(s.len(), |k: int| duration_of(s[k]) as i64)
}

/// How many trades won (net result strictly positive).
pub open spec fn win_count(s: Seq<Position>) -> int
    decreases s.len(),
{
    if s.len() == 0 {
        0
    } else {
        win_count(s.drop_last()) + if pnl_of(s.last()) > 0 {
            1int
        } else {
            0int
        }
    }
}

/// How many trades lost (net result strictly negative).
pub open spec fn loss_count(s: Seq<Position>) -> int
    decreases s.len(),
{
    if s.len() == 0 {
        0
    } else {
        loss_count(s.drop_last()) + if pnl_of(s.last()) < 0 {
            1int
        } else {
            0int
        }
    }
}

/// Gross winnings: the sum of the positive net results.
pub open spec fn win_sum(s: Seq<Position>) -> int
    decreases s.len(),
{
    if s.len() == 0 {
        0
    } else {
        win_sum(s.drop_last()) + if pnl_of(s.last()) > 0 {
            pnl_of(s.last())
        } else {
            0int
        }
    }
}

/// Gross losses: the summed magnitude of the negative net results.
pub open spec fn loss_sum(s: Seq<Position>) -> int
    decreases s.len(),
{
    if s.len() == 0 {
        0
    } else {
        loss_sum(s.drop_last()) + if pnl_of(s.last()) < 0 {
            -pnl_of(s.last())
        } else {
            0int
        }
    }
}

/// The summed net result.
pub open spec fn pnl_sum(s: Seq<Position>) -> int
    decreases s.len(),
{
    if s.len() == 0 {
        0
    } else {
        pnl_sum(s.drop_last()) + pnl_of(s.last())
    }
}

/// The summed scaled returns.
pub open spec fn return_sum(s: Seq<Position>) -> int
    decreases s.len(),
{
    if s.len() == 0 {
        0
    } else {
        return_sum(s.drop_last()) + trade_return_of(s.last())
    }
}

/// The summed durations.
pub open spec fn duration_sum(s: Seq<Position>) -> int
    decreases s.len(),
{
    if s.len() == 0 {
        0
    } else {
        duration_sum(s.drop_last()) + duration_of(s.last())
    }
}

/// Mean of already-scaled summands: plain truncating division by the count.
pub open spec fn mean_of(sum: int, count: int) -> int {
    if count == 0 {
        0
    } else {
        div_trunc(sum, count)
    }
}

/// A position every trade-metric consumer can digest: closed, fully set,
/// and within the model's ranges.
pub open spec fn trade_ok(p: Position) -> bool {
    p.settled_ok(MAX_BARS as int) && p.is_closed
}

/// Every element of `s` is a digestible closed trade.
pub open spec fn all_trades_ok(s: Seq<Position>) -> bool {
    forall|k: int| 0 <= k < s.len() ==> trade_ok(#[trigger] s[k])
}

/// Sorting keeps the elements: only the order changes.
pub proof fn lemma_insert_by_key_multiset(s: Seq<Position>, p: Position)
    ensures
        insert_by_key(s, p).to_multiset() == s.push(p).to_multiset(),
    decreases s.len(),
{
    broadcast use vstd::seq_lib::group_to_multiset_ensures;
    if s.len() > 0 && exit_key(p) < exit_key(s.last()) {
        lemma_insert_by_key_multiset(s.drop_last(), p);
        assert(s.drop_last().push(p).push(s.last()).to_multiset()
            =~= s.push(p).to_multiset()) by {
            assert(s.drop_last().push(p).push(s.last()).to_multiset()
                == s.drop_last().push(p).to_multiset().insert(s.last()));
            assert(s.push(p).to_multiset() == s.to_multiset().insert(p));
            assert(s =~= s.drop_last().push(s.last()));
            assert(s.to_multiset() == s.drop_last().to_multiset().insert(s.last()));
            assert(s.drop_last().push(p).to_multiset()
                == s.drop_last().to_multiset().insert(p));
        }
    }
}

/// The sorted sequence holds exactly the trades it was given.
pub proof fn lemma_sort_by_exit_multiset(s: Seq<Position>)
    ensures
        sort_by_exit(s).to_multiset() == s.to_multiset(),
    decreases s.len(),
{
    broadcast use vstd::seq_lib::group_to_multiset_ensures;
    if s.len() > 0 {
        lemma_sort_by_exit_multiset(s.drop_last());
        lemma_insert_by_key_multiset(sort_by_exit(s.drop_last()), s.last());
        assert(sort_by_exit(s.drop_last()).push(s.last()).to_multiset()
            == sort_by_exit(s.drop_last()).to_multiset().insert(s.last()));
        assert(s =~= s.drop_last().push(s.last()));
        assert(s.to_multiset() == s.drop_last().to_multiset().insert(s.last()));
    }
}

/// The insertion step keeps an ordered sequence ordered.
proof fn lemma_insert_by_key_sorted(s: Seq<Position>, p: Position)
    requires
        forall|a: int, b: int| 0 <= a <= b < s.len()
            ==> exit_key(#[trigger] s[a]) <= exit_key(#[trigger] s[b]),
    ensures
        forall|a: int, b: int| 0 <= a <= b < insert_by_key(s, p).len()
            ==> exit_key(#[trigger] insert_by_key(s, p)[a])
                <= exit_key(#[trigger] insert_by_key(s, p)[b]),
    decreases s.len(),
{
    if s.len() > 0 && exit_key(p) < exit_key(s.last()) {
        assert(forall|a: int, b: int| 0 <= a <= b < s.drop_last().len()
            ==> exit_key(#[trigger] s.drop_last()[a]) <= exit_key(#[trigger] s.drop_last()[b]));
        lemma_insert_by_key_sorted(s.drop_last(), p);
        let t = insert_by_key(s.drop_last(), p);
        lemma_insert_by_key_multiset(s.drop_last(), p);
        broadcast use vstd::seq_lib::group_to_multiset_ensures;
        assert forall|a: int| 0 <= a < t.len() implies exit_key(#[trigger] t[a])
            <= exit_key(s.last()) by {
            assert(t.to_multiset().contains(t[a]));
            assert(s.drop_last().push(p).to_multiset().contains(t[a]));
            assert(s.drop_last().push(p).contains(t[a]));
            let w = choose|w: int| 0 <= w < s.drop_last().push(p).len()
                && s.drop_last().push(p)[w] == t[a];
            if w < s.len() - 1 {
                assert(exit_key(s[w]) <= exit_key(s.last()));
            }
        }
    }
}

/// The sort orders its output ascending by exit bar.
pub proof fn lemma_sort_by_exit_sorted(s: Seq<Position>)
    ensures
        forall|a: int, b: int| 0 <= a <= b < sort_by_exit(s).len()
            ==> exit_key(#[trigger] sort_by_exit(s)[a]) <= exit_key(#[trigger] sort_by_exit(s)[b]),
    decreases s.len(),
{
    if s.len() > 0 {
        lemma_sort_by_exit_sorted(s.drop_last());
        lemma_insert_by_key_sorted(sort_by_exit(s.drop_last()), s.last());
    }
}

/// Stable sort of the trades ascending by exit bar, exact against
/// `sort_by_exit`.
fn sort_trades_by_exit(trades: Vec<Position>) -> (r: Vec<Position>)
    ensures
        r@ == sort_by_exit(trades@),
{
    let m = trades.len();
    let mut sorted: Vec<Position> = Vec::new();
    let mut k: usize = 0;
    while k < m
        invariant
            m == trades@.len(),
            0 <= k <= m,
            sorted@ == sort_by_exit(trades@.take(k as int)),
            sorted@.len() == k,
        decreases m - k,
    {
        let p = trades[k];
        let key_p: usize = exit_key_exec(&p);
        let mut j: usize = sorted.len();
        while j > 0
            invariant_except_break
                0 <= j <= sorted@.len(),
                key_p == exit_key(p),
                forall|u: int| j <= u < sorted@.len()
                    ==> exit_key(#[trigger] sorted@[u]) > exit_key(p),
            ensures
                0 <= j <= sorted@.len(),
                forall|u: int| j <= u < sorted@.len()
                    ==> exit_key(#[trigger] sorted@[u]) > exit_key(p),
                j > 0 ==> exit_key(sorted@[j - 1]) <= exit_key(p),
            decreases j,
        {
            let key_prev: usize = exit_key_exec(&sorted[j - 1]);
            if key_prev <= key_p {
                break;
            }
            j -= 1;
        }
        proof {
            lemma_insert_by_key_at(sorted@, p, j as int);
            assert(trades@.take(k as int + 1).drop_last() =~= trades@.take(k as int));
            assert(trades@.take(k as int + 1).last() == trades@[k as int]);
        }
        sorted.insert(j, p);
        k += 1;
    }
    proof {
        assert(trades@.take(m as int) =~= trades@);
    }
    sorted
}

/// The sort key as a machine value.
fn exit_key_exec(p: &Position) -> (k: usize)
    ensures
        k == exit_key(*p),
{
    match p.exit_index {
        Some(e) => e,
        None => usize::MAX,
    }
}

/// Every field the per-trade metrics of `trades` must carry.
pub open spec fn trade_metrics_ok(r: SideTradeMetrics, trades: Seq<Position>) -> bool {
    let sorted = sort_by_exit(trades);
    &&& r.number_of_trades == trades.len()
    &&& r.trade_pnls@ == pnls_seq(sorted)
    &&& r.trade_returns@ == returns_seq(sorted)
    &&& r.durations@ == durations_seq(sorted)
    &&& r.win_rate == ratio_scaled(win_count(sorted), trades.len() as int)
    &&& r.loss_rate == ratio_scaled(loss_count(sorted), trades.len() as int)
    &&& r.average_trade_return == mean_of(return_sum(sorted), trades.len() as int)
    &&& r.average_trade_pnl == ratio_scaled(pnl_sum(sorted), trades.len() as int)
    &&& (r.profit_factor matches Some(pf) ==> loss_sum(sorted) > 0 && pf == ratio_scaled(
        win_sum(sorted), loss_sum(sorted)))
    &&& (r.profit_factor is None <==> loss_sum(sorted) == 0)
    &&& r.expectancy == r.average_trade_return
    &&& r.average_duration == ratio_scaled(duration_sum(sorted), trades.len() as int)
}

/// Sorting keeps length and element validity.
pub proof fn lemma_sorted_trades_ok(s: Seq<Position>)
    requires
        all_trades_ok(s),
    ensures
        all_trades_ok(sort_by_exit(s)),
        sort_by_exit(s).len() == s.len(),
{
    broadcast use vstd::seq_lib::group_to_multiset_ensures;
    lemma_sort_by_exit_multiset(s);
    assert(sort_by_exit(s).to_multiset().len() == sort_by_exit(s).len());
    assert(s.to_multiset().len() == s.len());
    let t = sort_by_exit(s);
    assert forall|k: int| 0 <= k < t.len() implies trade_ok(#[trigger] t[k]) by {
        assert(t.to_multiset().contains(t[k]));
        assert(s.to_multiset().contains(t[k]));
        assert(s.contains(t[k]));
        let w = choose|w: int| 0 <= w < s.len() && s[w] == t[k];
        assert(trade_ok(s[w]));
    }
}

/// Build the per-trade metrics of one subset of the closed trades, sorted
/// ascending by exit bar.  Exact against `trade_metrics_ok`.
pub fn compute_trade_metrics(trades: &Vec<Position>) -> (r: SideTradeMetrics)
    requires
        all_trades_ok(trades@),
        trades@.len() <= MAX_BARS,
    ensures
        trade_metrics_ok(r, trades@),
{
    let ghost input = trades@;
    let mut owned: Vec<Position> = Vec::new();
    let mut c: usize = 0;
    while c < trades.len()
        invariant
            input == trades@,
            0 <= c <= trades@.len(),
            owned@ == trades@.take(c as int),
        decreases trades@.len() - c,
    {
        owned.push(trades[c]);
        proof {
            assert(trades@.take(c as int + 1) =~= trades@.take(c as int).push(trades@[c as int]));
        }
        c += 1;
    }
    proof {
        assert(trades@.take(trades@.len() as int) =~= trades@);
    }
    let sorted = sort_trades_by_exit(owned);
    let ghost ss = sort_by_exit(input);
    proof {
        lemma_sorted_trades_ok(input);
    }
    let m = sorted.len();

    let mut trade_pnls: Vec<i64> = Vec::new();
    let mut trade_returns: Vec<i128> = Vec::new();
    let mut durations: Vec<i64> = Vec::new();
    let mut wins: usize = 0;
    let mut losses: usize = 0;
    let mut sum_wins: i128 = 0;
    let mut sum_losses: i128 = 0;
    let mut sum_pnl: i128 = 0;
    let mut sum_ret: i128 = 0;
    let mut sum_dur: i128 = 0;
    let mut k: usize = 0;
    while k < m
        invariant
            ss == sort_by_exit(input),
            sorted@ == ss,
            m == ss.len() <= MAX_BARS,
            all_trades_ok(ss),
            0 <= k <= m,
            trade_pnls@.len() == k,
            forall|u: int| 0 <= u < k ==> #[trigger] trade_pnls@[u] == pnl_of(ss[u]) as i64,
            trade_returns@.len() == k,
            forall|u: int| 0 <= u < k ==> #[trigger] trade_returns@[u] == trade_return_of(
                ss[u]) as i128,
            durations@.len() == k,
            forall|u: int| 0 <= u < k ==> #[trigger] durations@[u] == duration_of(ss[u]) as i64,
            wins == win_count(ss.take(k as int)),
            losses == loss_count(ss.take(k as int)),
            0 <= wins <= k,
            0 <= losses <= k,
            sum_wins == win_sum(ss.take(k as int)),
            sum_losses == loss_sum(ss.take(k as int)),
            sum_pnl == pnl_sum(ss.take(k as int)),
            sum_ret == return_sum(ss.take(k as int)),
            sum_dur == duration_sum(ss.take(k as int)),
            0 <= sum_wins <= k * 6 * MAX_PRICE * MAX_SIZE,
            0 <= sum_losses <= k * 6 * MAX_PRICE * MAX_SIZE,
            -(k * 6 * MAX_PRICE * MAX_SIZE) <= sum_pnl <= k * 6 * MAX_PRICE * MAX_SIZE,
            -(k * 6 * MAX_PRICE * MAX_SIZE * RATE_SCALE) <= sum_ret <= k * 6 * MAX_PRICE
                * MAX_SIZE * RATE_SCALE,
            0 <= sum_dur <= k * MAX_BARS,
        decreases m - k,
    {
        let p = sorted[k];
        proof {
            assert(trade_ok(ss[k as int]));
            assert(ss.take(k as int + 1).drop_last() =~= ss.take(k as int));
            assert(ss.take(k as int + 1).last() == ss[k as int]);
        }
        let pnl_v: i64 = match p.pnl {
            Some(v) => v,
            None => 0,
        };
        assert(pnl_v == pnl_of(ss[k as int]));
        trade_pnls.push(pnl_v);

        proof {
            assert(-(MAX_SIZE * (2 * MAX_PRICE)) <= (p.entry_price as i128)
                * (p.position_size as i128) <= MAX_SIZE * (2 * MAX_PRICE)) by (nonlinear_arith)
                requires
                    0 <= p.position_size <= MAX_SIZE,
                    0 <= p.entry_price <= 2 * MAX_PRICE;
        }
        let notional: i128 = (p.entry_price as i128) * (p.position_size as i128);
        let ret: i128 = ratio_scaled_i128(pnl_v as i128, notional);
        assert(ret == trade_return_of(ss[k as int]));
        trade_returns.push(ret);

        let exit_i: usize = match p.exit_index {
            Some(e) => e,
            None => p.entry_index,
        };
        let dur: i64 = (exit_i - p.entry_index) as i64;
        assert(dur == duration_of(ss[k as int]));
        durations.push(dur);

        if pnl_v > 0 {
            sum_wins = sum_wins + pnl_v as i128;
            wins = wins + 1;
        } else if pnl_v < 0 {
            sum_losses = sum_losses - pnl_v as i128;
            losses = losses + 1;
        }
        sum_pnl = sum_pnl + pnl_v as i128;
        sum_ret = sum_ret + ret;
        sum_dur = sum_dur + dur as i128;
        k += 1;
    }
    proof {
        assert(ss.take(m as int) =~= ss);
        assert(trade_pnls@ =~= pnls_seq(ss));
        assert(trade_returns@ =~= returns_seq(ss));
        assert(durations@ =~= durations_seq(ss));
    }

    let win_rate: i128 = ratio_scaled_i128(wins as i128, m as i128);
    let loss_rate: i128 = ratio_scaled_i128(losses as i128, m as i128);
    let average_trade_return: i128 = if m == 0 {
        0
    } else {
        div_trunc_i128(sum_ret, m as i128)
    };
    let average_trade_pnl: i128 = ratio_scaled_i128(sum_pnl, m as i128);
    let profit_factor: Option<i128> = if sum_losses > 0 {
        Some(ratio_scaled_i128(sum_wins, sum_losses))
    } else {
        None
    };
    let average_duration: i128 = ratio_scaled_i128(sum_dur, m as i128);

    SideTradeMetrics {
        number_of_trades: m,
        win_rate,
        loss_rate,
        average_trade_return,
        average_trade_pnl,
        profit_factor,
        expectancy: average_trade_return,
        average_duration,
        trade_returns,
        trade_pnls,
        durations,
    }
}

/// The equity a snapshot reports.
pub open spec fn equity_of(s: Seq<ExposureSnapshot>, t: int) -> int {
    s[t].total_equity as int
}

/// The scaled bar-to-bar equity return, zero when the previous equity is
/// zero or the ratio leaves the representable band.
pub open spec fn bar_return(prev: int, cur: int) -> int {
    if prev == 0 {
        0
    } else {
        let r = div_trunc((cur - prev) * (RATE_SCALE as int), prev);
        if abs_val(r) > RETURN_CAP {
            0
        } else {
            r
        }
    }
}

/// The bar-to-bar return series of the equity curve.
pub open spec fn ts_returns_seq(s: Seq<ExposureSnapshot>) -> Seq<i128> {
    Seq::new((s.len() - 1) as nat, |t: int| bar_return(equity_of(s, t), equity_of(s, t + 1)) as i128)
}

/// The sum of a sequence of scaled values.
pub open spec fn seq_sum_i128(s: Seq<i128>) -> int
    decreases s.len(),
{
    if s.len() == 0 {
        0
    } else {
        seq_sum_i128(s.drop_last()) + s.last()
    }
}

/// The summed squared deviations from `mu`.
pub open spec fn sq_dev_sum(s: Seq<i128>, mu: int) -> int
    decreases s.len(),
{
    if s.len() == 0 {
        0
    } else {
        sq_dev_sum(s.drop_last(), mu) + (s.last() - mu) * (s.last() - mu)
    }
}

/// Mean of the bar returns.
pub open spec fn mean_return_spec(s: Seq<ExposureSnapshot>) -> int {
    mean_of(seq_sum_i128(ts_returns_seq(s)), ts_returns_seq(s).len() as int)
}

/// Sample standard deviation of the bar returns (Bessel's correction);
/// zero with fewer than two returns.
pub open spec fn volatility_spec(s: Seq<ExposureSnapshot>) -> int {
    let rs = ts_returns_seq(s);
    if rs.len() < 2 {
        0
    } else {
        sqrt_floor(div_trunc(sq_dev_sum(rs, mean_return_spec(s)), rs.len() - 1))
    }
}

/// Mean over volatility, zero when volatility is zero.
pub open spec fn sharpe_spec(s: Seq<ExposureSnapshot>) -> int {
    ratio_scaled(mean_return_spec(s), volatility_spec(s))
}

/// Scaled equity growth over the whole run, zero when it starts at zero.
pub open spec fn cumulative_return_spec(s: Seq<ExposureSnapshot>) -> int {
    if equity_of(s, 0) == 0 {
        0
    } else {
        ratio_scaled(equity_of(s, s.len() - 1), equity_of(s, 0)) - RATE_SCALE
    }
}

/// The running equity peak through bar `t`.
pub open spec fn peak_at(s: Seq<ExposureSnapshot>, t: int) -> int
    decreases t,
{
    if t <= 0 {
        equity_of(s, 0)
    } else {
        max(peak_at(s, t - 1), equity_of(s, t))
    }
}

/// The scaled drawdown at bar `t`, zero while the peak is not positive.
pub open spec fn drawdown_at(s: Seq<ExposureSnapshot>, t: int) -> int {
    if peak_at(s, t) > 0 {
        ratio_scaled(peak_at(s, t) - equity_of(s, t), peak_at(s, t))
    } else {
        0
    }
}

/// The largest drawdown through bar `t`.
pub open spec fn max_dd_upto(s: Seq<ExposureSnapshot>, t: int) -> int
    decreases t,
{
    if t <= 0 {
        drawdown_at(s, 0)
    } else {
        max(max_dd_upto(s, t - 1), drawdown_at(s, t))
    }
}

/// The largest drawdown of the whole curve.
pub open spec fn max_drawdown_spec(s: Seq<ExposureSnapshot>) -> int {
    max_dd_upto(s, s.len() - 1)
}

/// Every field the time-series metrics of the curve `s` must carry.
pub open spec fn time_metrics_ok(r: TimeSeriesMetrics, s: Seq<ExposureSnapshot>) -> bool {
    &&& r.returns@ == ts_returns_seq(s)
    &&& r.mean_return == mean_return_spec(s)
    &&& r.volatility == volatility_spec(s)
    &&& r.sharpe_ratio == sharpe_spec(s)
    &&& r.cumulative_return == cumulative_return_spec(s)
    &&& r.max_drawdown == max_drawdown_spec(s)
}

/// Build the bar-by-bar metrics from the full exposure curve.  Exact
/// against `time_metrics_ok`.
pub fn compute_time_metrics(exposure: &Vec<ExposureSnapshot>) -> (r: TimeSeriesMetrics)
    requires
        1 <= exposure@.len() <= MAX_BARS,
        crate::engine::exposure::snapshots_bounded(exposure@),
    ensures
        time_metrics_ok(r, exposure@),
{
    let ghost s = exposure@;
    let n = exposure.len();

    let mut rets: Vec<i128> = Vec::new();
    let mut t: usize = 1;
    while t < n
        invariant
            s == exposure@,
            1 <= n == s.len() <= MAX_BARS,
            crate::engine::exposure::snapshots_bounded(s),
            1 <= t <= n,
            rets@.len() == t - 1,
            forall|u: int| 0 <= u < t - 1 ==> #[trigger] rets@[u] == bar_return(
                equity_of(s, u), equity_of(s, u + 1)) as i128,
            forall|u: int| 0 <= u < t - 1 ==> -RETURN_CAP <= #[trigger] rets@[u] <= RETURN_CAP,
        decreases n - t,
    {
        let prev: i128 = exposure[t - 1].total_equity;
        let cur: i128 = exposure[t].total_equity;
        let rv: i128 = if prev == 0 {
            0
        } else {
            let r0 = ratio_scaled_i128(cur - prev, prev);
            if r0 > RETURN_CAP || r0 < -RETURN_CAP {
                0
            } else {
                r0
            }
        };
        assert(rv == bar_return(equity_of(s, (t - 1) as int), equity_of(s, t as int)));
        rets.push(rv);
        t += 1;
    }
    proof {
        assert(rets@ =~= ts_returns_seq(s));
    }

    let mcount = rets.len();
    let mut acc: i128 = 0;
    let mut u: usize = 0;
    while u < mcount
        invariant
            rets@ == ts_returns_seq(s),
            mcount == rets@.len() <= MAX_BARS,
            forall|w: int| 0 <= w < mcount ==> -RETURN_CAP <= #[trigger] rets@[w] <= RETURN_CAP,
            0 <= u <= mcount,
            acc == seq_sum_i128(rets@.take(u as int)),
            -(u * RETURN_CAP) <= acc <= u * RETURN_CAP,
        decreases mcount - u,
    {
        proof {
            assert(rets@.take(u as int + 1).drop_last() =~= rets@.take(u as int));
            assert(rets@.take(u as int + 1).last() == rets@[u as int]);
        }
        acc = acc + rets[u];
        u += 1;
    }
    proof {
        assert(rets@.take(mcount as int) =~= rets@);
    }
    let mean_return: i128 = if mcount == 0 {
        0
    } else {
        div_trunc_i128(acc, mcount as i128)
    };
    proof {
        if mcount > 0 {
            lemma_div_trunc_abs_le(acc as int, mcount as int, RETURN_CAP as int);
            assert(abs_val(acc as int) <= RETURN_CAP * (mcount as int)) by (nonlinear_arith)
                requires
                    -((mcount as int) * RETURN_CAP) <= acc as int
                        <= (mcount as int) * RETURN_CAP;
        }
        assert(mean_return == mean_return_spec(s));
        assert(-RETURN_CAP <= mean_return <= RETURN_CAP);
    }

    let mut acc2: i128 = 0;
    let mut w: usize = 0;
    while w < mcount
        invariant
            rets@ == ts_returns_seq(s),
            mcount == rets@.len() <= MAX_BARS,
            forall|q: int| 0 <= q < mcount ==> -RETURN_CAP <= #[trigger] rets@[q] <= RETURN_CAP,
            -RETURN_CAP <= mean_return <= RETURN_CAP,
            0 <= w <= mcount,
            acc2 == sq_dev_sum(rets@.take(w as int), mean_return as int),
            0 <= acc2 <= w * 4 * RETURN_CAP * RETURN_CAP,
        decreases mcount - w,
    {
        proof {
            assert(rets@.take(w as int + 1).drop_last() =~= rets@.take(w as int));
            assert(rets@.take(w as int + 1).last() == rets@[w as int]);
        }
        let d: i128 = rets[w] - mean_return;
        proof {
            assert(0 <= (d as int) * (d as int) <= 4 * RETURN_CAP * RETURN_CAP)
                by (nonlinear_arith)
                requires -2 * RETURN_CAP <= d as int <= 2 * RETURN_CAP;
        }
        let sq: i128 = d * d;
        acc2 = acc2 + sq;
        w += 1;
    }
    proof {
        assert(rets@.take(mcount as int) =~= rets@);
    }
    let volatility: i128 = if mcount < 2 {
        0
    } else {
        let variance: i128 = div_trunc_i128(acc2, (mcount - 1) as i128);
        assert(variance >= 0);
        isqrt_u128(variance as u128) as i128
    };
    assert(volatility == volatility_spec(s));

    let sharpe_ratio: i128 = ratio_scaled_i128(mean_return, volatility);

    let eq0: i128 = exposure[0].total_equity;
    let eq_last: i128 = exposure[n - 1].total_equity;
    let cumulative_return: i128 = if eq0 == 0 {
        0
    } else {
        ratio_scaled_i128(eq_last, eq0) - (RATE_SCALE as i128)
    };
    assert(cumulative_return == cumulative_return_spec(s));

    let mut peak: i128 = eq0;
    let mut max_dd: i128 = 0;
    let mut b: usize = 0;
    while b < n
        invariant
            s == exposure@,
            1 <= n == s.len() <= MAX_BARS,
            crate::engine::exposure::snapshots_bounded(s),
            eq0 == equity_of(s, 0),
            0 <= b <= n,
            peak == (if b == 0 {
                equity_of(s, 0)
            } else {
                peak_at(s, (b - 1) as int)
            }),
            max_dd == (if b == 0 {
                0int
            } else {
                max_dd_upto(s, (b - 1) as int)
            }),
            -EQUITY_BOUND <= peak <= EQUITY_BOUND,
            0 <= max_dd,
        decreases n - b,
    {
        let eq: i128 = exposure[b].total_equity;
        if eq > peak {
            peak = eq;
        }
        assert(peak == peak_at(s, b as int));
        let dd: i128 = if peak > 0 {
            ratio_scaled_i128(peak - eq, peak)
        } else {
            0
        };
        assert(dd == drawdown_at(s, b as int));
        if dd > max_dd {
            max_dd = dd;
        }
        proof {
            if b == 0 {
                assert(drawdown_at(s, 0) >= 0) by {
                    if peak_at(s, 0) > 0 {
                        assert(peak_at(s, 0) - equity_of(s, 0) == 0);
                    }
                }
                assert(max_dd == max_dd_upto(s, 0));
            }
        }
        b += 1;
    }
    assert(max_dd == max_drawdown_spec(s));

    TimeSeriesMetrics {
        returns: rets,
        mean_return,
        volatility,
        sharpe_ratio,
        cumulative_return,
        max_drawdown: max_dd,
    }
}

/// The subsequence of `s` on `side`, in creation order.
pub open spec fn side_filter(s: Seq<Position>, side: Side) -> Seq<Position>
    decreases s.len(),
{
    if s.len() == 0 {
        Seq::empty()
    } else if s.last().side == side {
        side_filter(s.drop_last(), side).push(s.last())
    } else {
        side_filter(s.drop_last(), side)
    }
}

/// Keep the positions of one side, in order.
fn filter_side(closed: &Vec<Position>, side: Side) -> (r: Vec<Position>)
    requires
        all_trades_ok(closed@),
    ensures
        r@ == side_filter(closed@, side),
        all_trades_ok(r@),
        r@.len() <= closed@.len(),
{
    let m = closed.len();
    let mut out: Vec<Position> = Vec::new();
    let mut k: usize = 0;
    while k < m
        invariant
            m == closed@.len(),
            all_trades_ok(closed@),
            0 <= k <= m,
            out@ == side_filter(closed@.take(k as int), side),
            all_trades_ok(out@),
            out@.len() <= k,
        decreases m - k,
    {
        let p = closed[k];
        proof {
            assert(closed@.take(k as int + 1).drop_last() =~= closed@.take(k as int));
            assert(closed@.take(k as int + 1).last() == closed@[k as int]);
        }
        let keep: bool = match (p.side, side) {
            (Side::Long, Side::Long) => true,
            (Side::Short, Side::Short) => true,
            _ => false,
        };
        assert(keep == (closed@[k as int].side == side));
        if keep {
            out.push(p);
        }
        k += 1;
    }
    proof {
        assert(closed@.take(m as int) =~= closed@);
    }
    out
}

/// Every field one side's combined metrics must carry: the subset's trade
/// metrics, the shared equity-curve metrics, the subset's summed net
/// result and the run's cumulative return.
pub open spec fn side_metrics_ok(
    r: SideMetrics,
    trades: Seq<Position>,
    s: Seq<ExposureSnapshot>,
) -> bool {
    &&& trade_metrics_ok(r.trade_metrics, trades)
    &&& time_metrics_ok(r.time_metrics, s)
    &&& r.total_pnl == pnl_sum(sort_by_exit(trades))
    &&& r.total_return == cumulative_return_spec(s)
}

/// Build the per-trade and time-series metrics for the overall, long and
/// short views.  The overall view's `total_pnl` is realized plus floating
/// at the final bar; each side's is its subset's summed net result; the
/// time-series metrics are the whole curve's, shared by all three views.
pub fn compute_summary_metrics(
    initial_equity: i64,
    closed: &Vec<Position>,
    exposure: &Vec<ExposureSnapshot>,
) -> (r: SummaryMetrics)
    requires
        all_trades_ok(closed@),
        closed@.len() <= MAX_BARS,
        1 <= exposure@.len() <= MAX_BARS,
        crate::engine::exposure::snapshots_bounded(exposure@),
    ensures
        trade_metrics_ok(r.overall.trade_metrics, closed@),
        time_metrics_ok(r.overall.time_metrics, exposure@),
        r.overall.total_pnl == exposure@.last().realized_equity
            + exposure@.last().floating_pnl,
        r.overall.total_return == cumulative_return_spec(exposure@),
        side_metrics_ok(r.longs, side_filter(closed@, Side::Long), exposure@),
        side_metrics_ok(r.shorts, side_filter(closed@, Side::Short), exposure@),
{
    let longs = filter_side(closed, Side::Long);
    let shorts = filter_side(closed, Side::Short);

    let tm_all = compute_trade_metrics(closed);
    let tm_long = compute_trade_metrics(&longs);
    let tm_short = compute_trade_metrics(&shorts);

    let ts_all = compute_time_metrics(exposure);
    let ts_long = compute_time_metrics(exposure);
    let ts_short = compute_time_metrics(exposure);

    let last = exposure[exposure.len() - 1];
    let total_pnl: i128 = last.realized_equity + last.floating_pnl;
    let total_return: i128 = ts_all.cumulative_return;

    proof {
        lemma_sorted_trades_ok(longs@);
        lemma_sorted_trades_ok(shorts@);
    }
    let long_pnl: i128 = sum_pnls_of(&tm_long.trade_pnls, Ghost(sort_by_exit(longs@)));
    let short_pnl: i128 = sum_pnls_of(&tm_short.trade_pnls, Ghost(sort_by_exit(shorts@)));

    SummaryMetrics {
        overall: SideMetrics {
            total_return,
            total_pnl,
            trade_metrics: tm_all,
            time_metrics: ts_all,
        },
        longs: SideMetrics {
            total_return: ts_long.cumulative_return,
            total_pnl: long_pnl,
            trade_metrics: tm_long,
            time_metrics: ts_long,
        },
        shorts: SideMetrics {
            total_return: ts_short.cumulative_return,
            total_pnl: short_pnl,
            trade_metrics: tm_short,
            time_metrics: ts_short,
        },
    }
}

/// Sum a subset's per-trade net results.
fn sum_pnls_of(pnls: &Vec<i64>, trades: Ghost<Seq<Position>>) -> (total: i128)
    requires
        pnls@ == pnls_seq(trades@),
        all_trades_ok(trades@),
        trades@.len() <= MAX_BARS,
    ensures
        total == pnl_sum(trades@),
{
    let m = pnls.len();
    let mut acc: i128 = 0;
    let mut k: usize = 0;
    while k < m
        invariant
            pnls@ == pnls_seq(trades@),
            all_trades_ok(trades@),
            m == pnls@.len() == trades@.len() <= MAX_BARS,
            0 <= k <= m,
            acc == pnl_sum(trades@.take(k as int)),
            -(k * 6 * MAX_PRICE * MAX_SIZE) <= acc <= k * 6 * MAX_PRICE * MAX_SIZE,
        decreases m - k,
    {
        proof {
            assert(trades@.take(k as int + 1).drop_last() =~= trades@.take(k as int));
            assert(trades@.take(k as int + 1).last() == trades@[k as int]);
            assert(trade_ok(trades@[k as int]));
        }
        acc = acc + pnls[k] as i128;
        k += 1;
    }
    proof {
        assert(trades@.take(m as int) =~= trades@);
    }
    acc
}

} // verus!
