//! Bar-by-bar exposure and equity: per-side open units, cumulative
//! realized result, and mark-to-market floating result of open positions.

use vstd::prelude::*;
use crate::engine::num::{MAX_PRICE, MAX_SIZE, MAX_BARS, EQUITY_BOUND};
use crate::engine::position::{Position, Side};
use crate::engine::prepare_inputs::all_prices_in_range;
use crate::engine::simulate_exits::gross_pnl;

verus! {

/// One snapshot of bar-level exposure and equity.
#[derive(Clone, Copy, Debug, PartialEq, Eq)]
pub struct ExposureSnapshot {
    /// The bar's timestamp, in seconds.
    pub timestamp: i64,
    /// Units held long over this bar.
    pub long_exposure: i64,
    /// Units held short over this bar.
    pub short_exposure: i64,
    /// Both sides together.
    pub total_exposure: i64,
    /// Cumulative net result of positions closed at or before this bar.
    pub realized_equity: i128,
    /// Mark-to-market result of the positions open over this bar, at the
    /// bar's close.
    pub floating_pnl: i128,
    /// Initial equity plus realized plus floating.
    pub total_equity: i128,
}

/// `p` is held over bar `i`: entered at or before `i` and not exited at or
/// before `i`.
pub open spec fn open_during(p: Position, i: int) -> bool {
    &&& p.entry_index <= i
    &&& match p.exit_index {
        Some(e) => e > i,
        None => true,
    }
}

/// The net result `p` contributes once it has exited at or before bar `i`.
pub open spec fn realized_contrib(p: Position, i: int) -> int {
    match p.exit_index {
        Some(e) => if e <= i {
            match p.pnl {
                Some(v) => v as int,
                None => 0,
            }
        } else {
            0
        },
        None => 0,
    }
}

/// Units of `side` held over bar `i`, summed in creation order.
pub open spec fn side_exposure_at(ps: Seq<Position>, side: Side, i: int) -> int
    decreases ps.len(),
{
    if ps.len() == 0 {
        0
    } else {
        side_exposure_at(ps.drop_last(), side, i) + if ps.last().side == side && open_during(
            ps.last(), i) {
            ps.last().position_size as int
        } else {
            0int
        }
    }
}

/// Cumulative realized result at bar `i`, summed in creation order.
pub open spec fn realized_at(ps: Seq<Position>, i: int) -> int
    decreases ps.len(),
{
    if ps.len() == 0 {
        0
    } else {
        realized_at(ps.drop_last(), i) + realized_contrib(ps.last(), i)
    }
}

/// Mark-to-market result of the positions open over bar `i`, at price
/// `close_i`, summed in creation order.
pub open spec fn floating_at(ps: Seq<Position>, close_i: int, i: int) -> int
    decreases ps.len(),
{
    if ps.len() == 0 {
        0
    } else {
        floating_at(ps.drop_last(), close_i, i) + if open_during(ps.last(), i) {
            gross_pnl(ps.last().side, ps.last().entry_price as int, close_i,
                ps.last().position_size as int)
        } else {
            0int
        }
    }
}

/// The snapshot of bar `i`.
pub open spec fn snapshot_at(
    ps: Seq<Position>,
    ts: Seq<i64>,
    close: Seq<i64>,
    initial_equity: int,
    i: int,
) -> ExposureSnapshot {
    let le = side_exposure_at(ps, Side::Long, i);
    let se = side_exposure_at(ps, Side::Short, i);
    let re = realized_at(ps, i);
    let fp = floating_at(ps, close[i] as int, i);
    ExposureSnapshot {
        timestamp: ts[i],
        long_exposure: le as i64,
        short_exposure: se as i64,
        total_exposure: (le + se) as i64,
        realized_equity: re as i128,
        floating_pnl: fp as i128,
        total_equity: (initial_equity + re + fp) as i128,
    }
}

/// Every money field of every snapshot stays within `EQUITY_BOUND`.
pub open spec fn snapshots_bounded(s: Seq<ExposureSnapshot>) -> bool {
    forall|t: int| 0 <= t < s.len() ==> {
        &&& -EQUITY_BOUND <= (#[trigger] s[t]).total_equity <= EQUITY_BOUND
        &&& -EQUITY_BOUND <= s[t].realized_equity <= EQUITY_BOUND
        &&& -EQUITY_BOUND <= s[t].floating_pnl <= EQUITY_BOUND
    }
}

/// The whole exposure series, one snapshot per bar.
pub open spec fn exposure_spec(
    ps: Seq<Position>,
    ts: Seq<i64>,
    close: Seq<i64>,
    initial_equity: int,
) -> Seq<ExposureSnapshot> {
    Seq::new(ts.len(), |i: int| snapshot_at(ps, ts, close, initial_equity, i))
}

/// `p` exits exactly on bar `b`.
pub open spec fn exits_at(p: Position, b: int) -> bool {
    match p.exit_index {
        Some(e) => e == b,
        None => false,
    }
}

/// What one position adds to a side's event delta on bar `b`: its size at
/// its entry bar, withdrawn again at its exit bar.
pub open spec fn side_delta_contrib(p: Position, side: Side, b: int) -> int {
    (if p.side == side && p.entry_index == b {
        p.position_size as int
    } else {
        0int
    }) - (if p.side == side && exits_at(p, b) {
        p.position_size as int
    } else {
        0int
    })
}

/// The side's summed event delta on bar `b`, over all positions.
pub open spec fn side_delta(ps: Seq<Position>, side: Side, b: int) -> int
    decreases ps.len(),
{
    if ps.len() == 0 {
        0
    } else {
        side_delta(ps.drop_last(), side, b) + side_delta_contrib(ps.last(), side, b)
    }
}

/// One position's deltas summed through bar `i`.
pub open spec fn contrib_prefix(p: Position, side: Side, i: int) -> int
    decreases i + 1,
{
    if i < 0 {
        0
    } else {
        contrib_prefix(p, side, i - 1) + side_delta_contrib(p, side, i)
    }
}

/// The side's deltas summed through bar `i`, over all positions.
pub open spec fn delta_prefix(ps: Seq<Position>, side: Side, i: int) -> int
    decreases i + 1,
{
    if i < 0 {
        0
    } else {
        delta_prefix(ps, side, i - 1) + side_delta(ps, side, i)
    }
}

/// A position's summed deltas telescope: through bar `i` they leave
/// exactly its open exposure over that bar.
proof fn lemma_contrib_prefix_telescopes(p: Position, side: Side, i: int, n: int)
    requires
        p.settled_ok(n),
        i >= -1,
    ensures
        contrib_prefix(p, side, i) == if p.side == side && open_during(p, i) {
            p.position_size as int
        } else {
            0int
        },
    decreases i + 1,
{
    if i >= 0 {
        lemma_contrib_prefix_telescopes(p, side, i - 1, n);
    }
}

/// The whole-sequence prefix splits into the shorter sequence's prefix
/// plus the last position's own prefix.
proof fn lemma_delta_prefix_split(ps: Seq<Position>, side: Side, i: int)
    requires
        ps.len() > 0,
        i >= -1,
    ensures
        delta_prefix(ps, side, i) == delta_prefix(ps.drop_last(), side, i) + contrib_prefix(
            ps.last(), side, i),
    decreases i + 1,
{
    if i >= 0 {
        lemma_delta_prefix_split(ps, side, i - 1);
    }
}

/// The prefix sum of the event deltas through bar `i` is exactly the
/// side's exposure over bar `i`: the event-delta accounting and the
/// direct per-position sum agree.
pub proof fn lemma_delta_prefix_is_exposure(ps: Seq<Position>, side: Side, i: int, n: int)
    requires
        forall|k: int| 0 <= k < ps.len() ==> (#[trigger] ps[k]).settled_ok(n),
        i >= -1,
    ensures
        delta_prefix(ps, side, i) == side_exposure_at(ps, side, i),
    decreases ps.len(),
{
    if ps.len() == 0 {
        lemma_delta_prefix_empty(ps, side, i);
    } else {
        assert(forall|k: int| 0 <= k < ps.drop_last().len()
            ==> (#[trigger] ps.drop_last()[k]).settled_ok(n));
        lemma_delta_prefix_is_exposure(ps.drop_last(), side, i, n);
        lemma_delta_prefix_split(ps, side, i);
        assert(ps.last() == ps[ps.len() - 1]);
        lemma_contrib_prefix_telescopes(ps.last(), side, i, n);
    }
}

/// An empty position set has zero deltas everywhere.
proof fn lemma_delta_prefix_empty(ps: Seq<Position>, side: Side, i: int)
    requires
        ps.len() == 0,
    ensures
        delta_prefix(ps, side, i) == 0,
    decreases i + 1,
{
    if i >= 0 {
        lemma_delta_prefix_empty(ps, side, i - 1);
    }
}

/// Before the first bar nothing is realized.
proof fn lemma_realized_at_start(ps: Seq<Position>)
    ensures
        realized_at(ps, -1) == 0,
    decreases ps.len(),
{
    if ps.len() > 0 {
        lemma_realized_at_start(ps.drop_last());
    }
}

/// Produce the exposure series: `n` snapshots in bar order, exact against
/// `exposure_spec`.
pub fn compute_exposure_series(
    positions: &Vec<Position>,
    price: &Vec<i64>,
    timestamps: &Vec<i64>,
    initial_equity: i64,
) -> (r: Vec<ExposureSnapshot>)
    requires
        1 <= timestamps@.len() <= MAX_BARS,
        price@.len() == timestamps@.len(),
        all_prices_in_range(price@),
        positions@.len() <= MAX_BARS,
        forall|k: int| 0 <= k < positions@.len()
            ==> (#[trigger] positions@[k]).settled_ok(timestamps@.len() as int),
    ensures
        r@ == exposure_spec(positions@, timestamps@, price@, initial_equity as int),
        r@.len() == timestamps@.len(),
        snapshots_bounded(r@),
{
    let ghost ps = positions@;
    let n = timestamps.len();
    let m = positions.len();

    // Pass 1: event deltas.  Each position deposits its size at its entry
    // bar and withdraws it (and realizes its net result) at its exit bar.
    let mut realized_events: Vec<i128> = Vec::new();
    let mut long_delta: Vec<i64> = Vec::new();
    let mut short_delta: Vec<i64> = Vec::new();
    let mut z: usize = 0;
    while z < n
        invariant
            0 <= z <= n,
            realized_events@.len() == z,
            long_delta@.len() == z,
            short_delta@.len() == z,
            forall|b: int| 0 <= b < z ==> #[trigger] realized_events@[b] == 0,
            forall|b: int| 0 <= b < z ==> #[trigger] long_delta@[b] == 0,
            forall|b: int| 0 <= b < z ==> #[trigger] short_delta@[b] == 0,
        decreases n - z,
    {
        realized_events.push(0);
        long_delta.push(0);
        short_delta.push(0);
        z += 1;
    }

    let mut q: usize = 0;
    while q < m
        invariant
            ps == positions@,
            n == timestamps@.len(),
            m == ps.len() <= MAX_BARS,
            forall|k: int| 0 <= k < m ==> (#[trigger] ps[k]).settled_ok(n as int),
            0 <= q <= m,
            realized_events@.len() == n,
            long_delta@.len() == n,
            short_delta@.len() == n,
            forall|b: int| 0 <= b < n ==> #[trigger] long_delta@[b] == side_delta(
                ps.take(q as int), Side::Long, b),
            forall|b: int| 0 <= b < n ==> #[trigger] short_delta@[b] == side_delta(
                ps.take(q as int), Side::Short, b),
            forall|b: int| 0 <= b < n ==> #[trigger] realized_events@[b] == exit_pnl_at(
                ps.take(q as int), b),
            forall|b: int| 0 <= b < n
                ==> -(q * MAX_SIZE) <= #[trigger] long_delta@[b] <= q * MAX_SIZE,
            forall|b: int| 0 <= b < n
                ==> -(q * MAX_SIZE) <= #[trigger] short_delta@[b] <= q * MAX_SIZE,
            forall|b: int| 0 <= b < n ==> -(q * 6 * MAX_PRICE * MAX_SIZE)
                <= #[trigger] realized_events@[b] <= q * 6 * MAX_PRICE * MAX_SIZE,
        decreases m - q,
    {
        let p = positions[q];
        proof {
            assert(ps.take(q as int + 1).drop_last() =~= ps.take(q as int));
            assert(ps.take(q as int + 1).last() == ps[q as int]);
            assert(ps[q as int].settled_ok(n as int));
        }
        let is_long_side: bool = matches!(p.side, Side::Long);
        assert(is_long_side == ps[q as int].is_long());

        let e = p.entry_index;
        if is_long_side {
            let cur: i64 = long_delta[e];
            long_delta.set(e, cur + p.position_size);
        } else {
            let cur: i64 = short_delta[e];
            short_delta.set(e, cur + p.position_size);
        }
        match p.exit_index {
            Some(x) => {
                let pnl_v: i64 = match p.pnl {
                    Some(v) => v,
                    None => 0,
                };
                let cr: i128 = realized_events[x];
                realized_events.set(x, cr + pnl_v as i128);
                if is_long_side {
                    let cl: i64 = long_delta[x];
                    long_delta.set(x, cl - p.position_size);
                } else {
                    let cs: i64 = short_delta[x];
                    short_delta.set(x, cs - p.position_size);
                }
            },
            None => (),
        }
        proof {
            assert forall|b: int| 0 <= b < n implies #[trigger] long_delta@[b] == side_delta(
                ps.take(q as int + 1), Side::Long, b) by {
                assert(side_delta(ps.take(q as int + 1), Side::Long, b) == side_delta(
                    ps.take(q as int), Side::Long, b) + side_delta_contrib(
                    ps[q as int], Side::Long, b));
            }
            assert forall|b: int| 0 <= b < n implies #[trigger] short_delta@[b] == side_delta(
                ps.take(q as int + 1), Side::Short, b) by {
                assert(side_delta(ps.take(q as int + 1), Side::Short, b) == side_delta(
                    ps.take(q as int), Side::Short, b) + side_delta_contrib(
                    ps[q as int], Side::Short, b));
            }
            assert forall|b: int| 0 <= b < n implies #[trigger] realized_events@[b]
                == exit_pnl_at(ps.take(q as int + 1), b) by {
                assert(exit_pnl_at(ps.take(q as int + 1), b) == exit_pnl_at(
                    ps.take(q as int), b) + match ps[q as int].exit_index {
                    Some(x2) => if x2 == b {
                        match ps[q as int].pnl {
                            Some(v) => v as int,
                            None => 0,
                        }
                    } else {
                        0int
                    },
                    None => 0int,
                });
            }
        }
        q += 1;
    }
    proof {
        assert(ps.take(m as int) =~= ps);
    }

    // Pass 2: prefix sums over the deltas, plus the per-bar floating scan.
    let mut snapshots: Vec<ExposureSnapshot> = Vec::new();
    let mut cum_realized: i128 = 0;
    let mut long_exp: i64 = 0;
    let mut short_exp: i64 = 0;
    let mut i: usize = 0;
    proof {
        lemma_realized_at_start(ps);
    }
    while i < n
        invariant
            ps == positions@,
            n == timestamps@.len(),
            price@.len() == n,
            all_prices_in_range(price@),
            m == ps.len() <= MAX_BARS,
            forall|k: int| 0 <= k < m ==> (#[trigger] ps[k]).settled_ok(n as int),
            0 <= i <= n,
            realized_events@.len() == n,
            long_delta@.len() == n,
            short_delta@.len() == n,
            forall|b: int| 0 <= b < n ==> #[trigger] long_delta@[b] == side_delta(
                ps, Side::Long, b),
            forall|b: int| 0 <= b < n ==> #[trigger] short_delta@[b] == side_delta(
                ps, Side::Short, b),
            forall|b: int| 0 <= b < n ==> #[trigger] realized_events@[b] == exit_pnl_at(ps, b),
            forall|b: int| 0 <= b < n
                ==> -(m * MAX_SIZE) <= #[trigger] long_delta@[b] <= m * MAX_SIZE,
            forall|b: int| 0 <= b < n
                ==> -(m * MAX_SIZE) <= #[trigger] short_delta@[b] <= m * MAX_SIZE,
            forall|b: int| 0 <= b < n ==> -(m * 6 * MAX_PRICE * MAX_SIZE)
                <= #[trigger] realized_events@[b] <= m * 6 * MAX_PRICE * MAX_SIZE,
            long_exp == delta_prefix(ps, Side::Long, i as int - 1),
            short_exp == delta_prefix(ps, Side::Short, i as int - 1),
            cum_realized == realized_at(ps, i as int - 1),
            snapshots@.len() == i,
            forall|j: int| 0 <= j < i ==> #[trigger] snapshots@[j] == snapshot_at(
                ps, timestamps@, price@, initial_equity as int, j),
            snapshots_bounded(snapshots@),
        decreases n - i,
    {
        proof {
            lemma_delta_prefix_is_exposure(ps, Side::Long, i as int - 1, n as int);
            lemma_delta_prefix_is_exposure(ps, Side::Long, i as int, n as int);
            lemma_delta_prefix_is_exposure(ps, Side::Short, i as int - 1, n as int);
            lemma_delta_prefix_is_exposure(ps, Side::Short, i as int, n as int);
            lemma_side_exposure_bound(ps, Side::Long, i as int - 1, n as int);
            lemma_side_exposure_bound(ps, Side::Long, i as int, n as int);
            lemma_side_exposure_bound(ps, Side::Short, i as int - 1, n as int);
            lemma_side_exposure_bound(ps, Side::Short, i as int, n as int);
            lemma_realized_step(ps, i as int);
            lemma_realized_bound(ps, i as int - 1, n as int);
            lemma_realized_bound(ps, i as int, n as int);
            lemma_realized_at_start(ps);
        }
        long_exp = long_exp + long_delta[i];
        short_exp = short_exp + short_delta[i];
        cum_realized = cum_realized + realized_events[i];
        assert(long_exp == side_exposure_at(ps, Side::Long, i as int));
        assert(short_exp == side_exposure_at(ps, Side::Short, i as int));
        assert(cum_realized == realized_at(ps, i as int));

        let close_i: i64 = price[i];
        let mut fp: i128 = 0;
        let mut k: usize = 0;
        while k < m
            invariant
                ps == positions@,
                m == ps.len() <= MAX_BARS,
                forall|u: int| 0 <= u < m ==> (#[trigger] ps[u]).settled_ok(n as int),
                1 <= price@[i as int] <= MAX_PRICE,
                close_i == price@[i as int],
                0 <= k <= m,
                fp == floating_at(ps.take(k as int), close_i as int, i as int),
                -(k * 2 * MAX_PRICE * MAX_SIZE) <= fp <= k * 2 * MAX_PRICE * MAX_SIZE,
            decreases m - k,
        {
            let p = positions[k];
            proof {
                assert(ps.take(k as int + 1).drop_last() =~= ps.take(k as int));
                assert(ps.take(k as int + 1).last() == ps[k as int]);
            }
            let is_open_during: bool = p.entry_index <= i && match p.exit_index {
                Some(e) => e > i,
                None => true,
            };
            assert(is_open_during == open_during(ps[k as int], i as int));
            if is_open_during {
                proof {
                    assert({
                        let d = if ps[k as int].is_long() {
                            close_i - p.entry_price
                        } else {
                            p.entry_price - close_i
                        };
                        -(2 * MAX_PRICE * MAX_SIZE) <= d * p.position_size
                            <= 2 * MAX_PRICE * MAX_SIZE
                    }) by (nonlinear_arith)
                        requires
                            0 <= p.position_size <= MAX_SIZE,
                            0 <= p.entry_price <= 2 * MAX_PRICE,
                            1 <= close_i <= MAX_PRICE;
                }
                let diff: i64 = if matches!(p.side, Side::Long) {
                    close_i - p.entry_price
                } else {
                    p.entry_price - close_i
                };
                let mark: i64 = diff * p.position_size;
                assert(mark as int == gross_pnl(ps[k as int].side, ps[k as int].entry_price as int,
                    close_i as int, ps[k as int].position_size as int));
                fp = fp + mark as i128;
            }
            k += 1;
        }
        proof {
            assert(ps.take(m as int) =~= ps);
        }
        let snap = ExposureSnapshot {
            timestamp: timestamps[i],
            long_exposure: long_exp,
            short_exposure: short_exp,
            total_exposure: long_exp + short_exp,
            realized_equity: cum_realized,
            floating_pnl: fp,
            total_equity: (initial_equity as i128) + cum_realized + fp,
        };
        assert(snap == snapshot_at(ps, timestamps@, price@, initial_equity as int, i as int));
        snapshots.push(snap);
        i += 1;
    }
    proof {
        assert(snapshots@ =~= exposure_spec(ps, timestamps@, price@, initial_equity as int));
    }
    snapshots
}

/// Units of `side` across the positions still open at the end of the run.
pub open spec fn open_side_size_sum(ps: Seq<Position>, side: Side) -> int
    decreases ps.len(),
{
    if ps.len() == 0 {
        0
    } else {
        open_side_size_sum(ps.drop_last(), side) + if !ps.last().is_closed && ps.last().side
            == side {
            ps.last().position_size as int
        } else {
            0int
        }
    }
}

/// The summed net result of the closed positions.
pub open spec fn closed_pnl_sum(ps: Seq<Position>) -> int
    decreases ps.len(),
{
    if ps.len() == 0 {
        0
    } else {
        closed_pnl_sum(ps.drop_last()) + if ps.last().is_closed {
            match ps.last().pnl {
                Some(v) => v as int,
                None => 0,
            }
        } else {
            0int
        }
    }
}

/// A side's exposure is bounded by the positions' count times the size cap.
pub proof fn lemma_side_exposure_bound(ps: Seq<Position>, side: Side, i: int, n: int)
    requires
        forall|k: int| 0 <= k < ps.len() ==> (#[trigger] ps[k]).settled_ok(n),
    ensures
        0 <= side_exposure_at(ps, side, i) <= ps.len() * MAX_SIZE,
    decreases ps.len(),
{
    if ps.len() > 0 {
        assert(forall|k: int| 0 <= k < ps.drop_last().len()
            ==> (#[trigger] ps.drop_last()[k]).settled_ok(n));
        lemma_side_exposure_bound(ps.drop_last(), side, i, n);
        assert(ps.last() == ps[ps.len() - 1]);
    }
}

/// The realized total is bounded by the positions' count times the result
/// cap.
pub proof fn lemma_realized_bound(ps: Seq<Position>, i: int, n: int)
    requires
        forall|k: int| 0 <= k < ps.len() ==> (#[trigger] ps[k]).settled_ok(n),
    ensures
        -(ps.len() * 6 * MAX_PRICE * MAX_SIZE) <= realized_at(ps, i) <= ps.len() * 6 * MAX_PRICE
            * MAX_SIZE,
    decreases ps.len(),
{
    if ps.len() > 0 {
        assert(forall|k: int| 0 <= k < ps.drop_last().len()
            ==> (#[trigger] ps.drop_last()[k]).settled_ok(n));
        lemma_realized_bound(ps.drop_last(), i, n);
        let p = ps.last();
        assert(p == ps[ps.len() - 1]);
        assert(p.settled_ok(n));
        if p.is_closed {
            assert(crate::engine::position::abs_pnl_bound(p.pnl->0 as int));
        }
    }
}

/// Exposure conservation: on the last bar each side's exposure is exactly
/// the summed size of that side's still-open positions.
pub proof fn lemma_exposure_conservation(ps: Seq<Position>, side: Side, n: int)
    requires
        n >= 1,
        forall|k: int| 0 <= k < ps.len() ==> (#[trigger] ps[k]).settled_ok(n),
    ensures
        side_exposure_at(ps, side, n - 1) == open_side_size_sum(ps, side),
    decreases ps.len(),
{
    if ps.len() > 0 {
        assert(forall|k: int| 0 <= k < ps.drop_last().len()
            ==> (#[trigger] ps.drop_last()[k]).settled_ok(n));
        lemma_exposure_conservation(ps.drop_last(), side, n);
        let p = ps.last();
        assert(p.settled_ok(n));
        if p.is_closed {
            assert(p.exit_index->0 < n);
            assert(!open_during(p, n - 1));
        } else {
            assert(open_during(p, n - 1));
        }
    }
}

/// At the last bar the cumulative realized result equals the summed net
/// result of every closed position.
pub proof fn lemma_realized_total(ps: Seq<Position>, n: int)
    requires
        n >= 1,
        forall|k: int| 0 <= k < ps.len() ==> (#[trigger] ps[k]).settled_ok(n),
    ensures
        realized_at(ps, n - 1) == closed_pnl_sum(ps),
    decreases ps.len(),
{
    if ps.len() > 0 {
        assert(forall|k: int| 0 <= k < ps.drop_last().len()
            ==> (#[trigger] ps.drop_last()[k]).settled_ok(n));
        lemma_realized_total(ps.drop_last(), n);
    }
}

/// The net result the positions exiting exactly on bar `i` contribute.
pub open spec fn exit_pnl_at(ps: Seq<Position>, i: int) -> int
    decreases ps.len(),
{
    if ps.len() == 0 {
        0
    } else {
        exit_pnl_at(ps.drop_last(), i) + match ps.last().exit_index {
            Some(e) => if e == i {
                match ps.last().pnl {
                    Some(v) => v as int,
                    None => 0,
                }
            } else {
                0int
            },
            None => 0int,
        }
    }
}

/// The realized curve is the running sum of net results at exit bars.
pub proof fn lemma_realized_step(ps: Seq<Position>, i: int)
    requires
        i >= 0,
    ensures
        realized_at(ps, i) == (if i == 0 {
            0int
        } else {
            realized_at(ps, i - 1)
        }) + exit_pnl_at(ps, i),
    decreases ps.len(),
{
    if ps.len() > 0 {
        lemma_realized_step(ps.drop_last(), i);
    }
}

/// When no closed position lost money the realized curve never falls.
pub proof fn lemma_realized_monotone(ps: Seq<Position>, i: int)
    requires
        i >= 0,
        forall|k: int| 0 <= k < ps.len() ==> ((#[trigger] ps[k]).is_closed
            ==> ps[k].pnl->0 >= 0),
        forall|k: int| 0 <= k < ps.len() ==> (!(#[trigger] ps[k]).is_closed
            ==> ps[k].exit_index is None),
    ensures
        realized_at(ps, i) <= realized_at(ps, i + 1),
    decreases ps.len(),
{
    if ps.len() > 0 {
        assert(forall|k: int| 0 <= k < ps.drop_last().len()
            ==> ps.drop_last()[k] == #[trigger] ps[k]);
        lemma_realized_monotone(ps.drop_last(), i);
        let p = ps.last();
        assert(p == ps[ps.len() - 1]);
        match p.exit_index {
            Some(e) => {
                if e <= i + 1 && !(e <= i) {
                    assert(p.is_closed);
                    assert(realized_contrib(p, i + 1) >= 0);
                }
            },
            None => {},
        }
    }
}

} // verus!
