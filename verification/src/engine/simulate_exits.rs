//! Exit simulation: each open position scans bars forward from its entry
//! and closes on the first bar where a predicate fires, with the fixed
//! precedence stop-loss over take-profit over expiration.

use vstd::prelude::*;
use crate::engine::num::{
    RATE_SCALE, MAX_PRICE, MAX_SIZE, MAX_BARS, ratio_scaled, price_rated_up, price_rated_down,
    fee_amount, price_up, price_down, fee_for, ratio_scaled_i128,
};
use crate::engine::position::{Position, Side, ExitReason};
use crate::engine::prepare_inputs::all_prices_in_range;

verus! {

/// The bar data and rates the exit scan reads, as one mathematical value.
pub struct ExitInputs {
    pub ts: Seq<i64>,
    pub high: Seq<i64>,
    pub low: Seq<i64>,
    pub close: Seq<i64>,
    pub exit_fee_rate: int,
    pub slippage_rate: int,
}

/// Bundle borrowed bar vectors and scalars into an `ExitInputs` value.
pub open spec fn exit_view(
    ts: Seq<i64>,
    high: Seq<i64>,
    low: Seq<i64>,
    close: Seq<i64>,
    exit_fee_rate: int,
    slippage_rate: int,
) -> ExitInputs {
    ExitInputs { ts, high, low, close, exit_fee_rate, slippage_rate }
}

impl ExitInputs {
    /// The bar count.
    pub open spec fn n(self) -> int {
        self.ts.len() as int
    }

    /// Well-formed, validated bar data.
    pub open spec fn wf(self) -> bool {
        &&& 1 <= self.n() <= MAX_BARS
        &&& self.high.len() == self.n()
        &&& self.low.len() == self.n()
        &&& self.close.len() == self.n()
        &&& all_prices_in_range(self.high)
        &&& all_prices_in_range(self.low)
        &&& all_prices_in_range(self.close)
        &&& 0 <= self.exit_fee_rate <= RATE_SCALE
        &&& 0 <= self.slippage_rate <= RATE_SCALE
    }
}

/// The stop-loss predicate on bar `j`.
pub open spec fn hit_sl(ei: ExitInputs, p: Position, j: int) -> bool {
    if p.is_long() {
        ei.low[j] <= p.sl
    } else {
        ei.high[j] >= p.sl
    }
}

/// The take-profit predicate on bar `j`.
pub open spec fn hit_tp(ei: ExitInputs, p: Position, j: int) -> bool {
    if p.is_long() {
        ei.high[j] >= p.tp
    } else {
        ei.low[j] <= p.tp
    }
}

/// The expiration predicate on bar `j`.
pub open spec fn expired_at(ei: ExitInputs, p: Position, j: int) -> bool {
    match p.expiration_time {
        Some(et) => ei.ts[j] >= et,
        None => false,
    }
}

/// Some exit predicate fires on bar `j`.
pub open spec fn triggered(ei: ExitInputs, p: Position, j: int) -> bool {
    hit_sl(ei, p, j) || hit_tp(ei, p, j) || expired_at(ei, p, j)
}

/// The first bar at or after `j` on which an exit predicate fires.
pub open spec fn first_trigger_from(ei: ExitInputs, p: Position, j: int) -> Option<int>
    decreases ei.n() - j,
{
    if j >= ei.n() {
        None
    } else if triggered(ei, p, j) {
        Some(j)
    } else {
        first_trigger_from(ei, p, j + 1)
    }
}

/// Which predicate closes the position on bar `j`: stop-loss dominates
/// take-profit dominates expiration.
pub open spec fn exit_reason_at(ei: ExitInputs, p: Position, j: int) -> ExitReason {
    if hit_sl(ei, p, j) {
        ExitReason::StopLoss
    } else if hit_tp(ei, p, j) {
        ExitReason::TakeProfit
    } else {
        ExitReason::Expired
    }
}

/// The exit fill before slippage: the level that fired, or the close on a
/// pure expiration.
pub open spec fn raw_exit_at(ei: ExitInputs, p: Position, j: int) -> int {
    if hit_sl(ei, p, j) {
        p.sl as int
    } else if hit_tp(ei, p, j) {
        p.tp as int
    } else {
        ei.close[j] as int
    }
}

/// The exit fill with slippage applied against the position.
pub open spec fn exit_price_at(ei: ExitInputs, p: Position, j: int) -> int {
    if p.is_long() {
        price_rated_down(raw_exit_at(ei, p, j), ei.slippage_rate)
    } else {
        price_rated_up(raw_exit_at(ei, p, j), ei.slippage_rate)
    }
}

/// Signed money result of the price move, before fees.
pub open spec fn gross_pnl(side: Side, entry_price: int, exit_price: int, size: int) -> int {
    if side == Side::Long {
        (exit_price - entry_price) * size
    } else {
        (entry_price - exit_price) * size
    }
}

/// `p` closed on bar `j`: every exit and result field filled in.
pub open spec fn closed_position(ei: ExitInputs, p: Position, j: int) -> Position {
    let raw = raw_exit_at(ei, p, j);
    let xp = exit_price_at(ei, p, j);
    let fee_exit = fee_amount(p.position_size as int, xp, ei.exit_fee_rate);
    let gross = gross_pnl(p.side, p.entry_price as int, xp, p.position_size as int);
    let pnl = gross - (p.fee_entry + fee_exit);
    let absolute_return = if p.entry_price != 0 {
        ratio_scaled(xp, p.entry_price as int) - RATE_SCALE
    } else {
        0
    };
    let real_return = ratio_scaled(pnl, p.entry_price * p.position_size);
    Position {
        exit_index: Some(j as usize),
        exit_price: Some(xp as i64),
        exit_condition: Some(exit_reason_at(ei, p, j)),
        fee_exit: fee_exit as i64,
        slippage_exit: if p.is_long() {
            (raw - xp) as i64
        } else {
            (xp - raw) as i64
        },
        absolute_return: Some(absolute_return as i128),
        real_return: Some(real_return as i128),
        pnl: Some(pnl as i64),
        is_closed: true,
        ..p
    }
}

/// What the exit simulation leaves of one position: an already-closed
/// position is untouched, an open one closes on its first trigger bar, or
/// stays open when none fires.
pub open spec fn simulate_spec(ei: ExitInputs, p: Position) -> Position {
    if p.is_closed {
        p
    } else {
        match first_trigger_from(ei, p, p.entry_index as int) {
            Some(j) => closed_position(ei, p, j),
            None => p,
        }
    }
}

/// The first trigger lies in the scanned window, fires, and nothing fires
/// before it; when there is none, nothing fires at all.
pub proof fn lemma_first_trigger_props(ei: ExitInputs, p: Position, j: int)
    requires
        0 <= j,
    ensures
        match first_trigger_from(ei, p, j) {
            Some(t) => j <= t < ei.n() && triggered(ei, p, t) && (forall|u: int|
                j <= u < t ==> !triggered(ei, p, u)),
            None => forall|u: int| j <= u < ei.n() ==> !triggered(ei, p, u),
        },
    decreases ei.n() - j,
{
    if j < ei.n() && !triggered(ei, p, j) {
        lemma_first_trigger_props(ei, p, j + 1);
    }
}

/// An open position either stays exactly as it was, or closes with every
/// exit field set, on a bar no earlier than its entry and within the run.
pub proof fn lemma_exit_well_formed(ei: ExitInputs, p: Position)
    requires
        ei.wf(),
        p.settled_ok(ei.n()),
        !p.is_closed,
    ensures
        ({
            let q = simulate_spec(ei, p);
            &&& (q.is_closed <==> q.exit_fields_set())
            &&& (q.is_closed ==> p.entry_index <= q.exit_index->0 < ei.n())
            &&& (!q.is_closed ==> q == p)
        }),
{
    lemma_first_trigger_props(ei, p, p.entry_index as int);
}

/// On the exit bar the stop-loss predicate dominates take-profit, which
/// dominates expiration; no predicate fires on any earlier bar.
pub proof fn lemma_exit_precedence(ei: ExitInputs, p: Position)
    requires
        ei.wf(),
        p.settled_ok(ei.n()),
        !p.is_closed,
        simulate_spec(ei, p).is_closed,
    ensures
        ({
            let q = simulate_spec(ei, p);
            let t = q.exit_index->0 as int;
            &&& triggered(ei, p, t)
            &&& (q.exit_condition->0 == ExitReason::StopLoss <==> hit_sl(ei, p, t))
            &&& (q.exit_condition->0 == ExitReason::TakeProfit <==> !hit_sl(ei, p, t)
                && hit_tp(ei, p, t))
            &&& (q.exit_condition->0 == ExitReason::Expired <==> !hit_sl(ei, p, t)
                && !hit_tp(ei, p, t) && expired_at(ei, p, t))
            &&& (forall|u: int| p.entry_index <= u < t ==> !triggered(ei, p, u))
        }),
{
    lemma_first_trigger_props(ei, p, p.entry_index as int);
}

/// Inverting the side of the same fill pair negates the gross result.
pub proof fn lemma_gross_pnl_antisymmetric(entry_price: int, exit_price: int, size: int)
    ensures
        gross_pnl(Side::Short, entry_price, exit_price, size) == -gross_pnl(
            Side::Long, entry_price, exit_price, size),
{
    assert((entry_price - exit_price) * size == -((exit_price - entry_price) * size))
        by (nonlinear_arith);
}

/// Reflecting the bars and the levels about a pivot swaps the sides'
/// roles bar by bar: the short on the mirrored data sees exactly the
/// predicates the long sees on the plain data.
pub proof fn lemma_reflection_same_triggers(
    ei1: ExitInputs,
    ei2: ExitInputs,
    pl: Position,
    ps: Position,
    m: int,
    j: int,
)
    requires
        pl.is_long(),
        !ps.is_long(),
        0 <= j < ei1.n(),
        ei1.n() == ei2.n(),
        ei1.ts == ei2.ts,
        ei2.high[j] == 2 * m - ei1.low[j],
        ei2.low[j] == 2 * m - ei1.high[j],
        ps.sl == 2 * m - pl.sl,
        ps.tp == 2 * m - pl.tp,
        ps.expiration_time == pl.expiration_time,
    ensures
        hit_sl(ei2, ps, j) == hit_sl(ei1, pl, j),
        hit_tp(ei2, ps, j) == hit_tp(ei1, pl, j),
        expired_at(ei2, ps, j) == expired_at(ei1, pl, j),
        triggered(ei2, ps, j) == triggered(ei1, pl, j),
        triggered(ei1, pl, j) ==> exit_reason_at(ei2, ps, j) == exit_reason_at(ei1, pl, j),
{
}

/// Under the same reflection, the first trigger bar coincides: the
/// mirrored short closes exactly when the long does, and for the same
/// kind of reason.
pub proof fn lemma_reflection_same_exit_bar(
    ei1: ExitInputs,
    ei2: ExitInputs,
    pl: Position,
    ps: Position,
    m: int,
    j: int,
)
    requires
        pl.is_long(),
        !ps.is_long(),
        0 <= j,
        ei1.n() == ei2.n(),
        ei1.ts == ei2.ts,
        forall|u: int| 0 <= u < ei1.n()
            ==> #[trigger] ei2.high[u] == 2 * m - ei1.low[u],
        forall|u: int| 0 <= u < ei1.n() ==> #[trigger] ei2.low[u] == 2 * m - ei1.high[u],
        ps.sl == 2 * m - pl.sl,
        ps.tp == 2 * m - pl.tp,
        ps.expiration_time == pl.expiration_time,
    ensures
        first_trigger_from(ei2, ps, j) == first_trigger_from(ei1, pl, j),
    decreases ei1.n() - j,
{
    if j < ei1.n() {
        lemma_reflection_same_triggers(ei1, ei2, pl, ps, m, j);
        if !triggered(ei1, pl, j) {
            lemma_reflection_same_exit_bar(ei1, ei2, pl, ps, m, j + 1);
        }
    }
}

/// With zero fees and zero slippage, a long and a short of the same entry,
/// size and raw exit settle to net results of equal magnitude and opposite
/// sign.
pub proof fn lemma_pnl_mirror(ei: ExitInputs, pl: Position, ps: Position, j: int)
    requires
        ei.wf(),
        ei.exit_fee_rate == 0,
        ei.slippage_rate == 0,
        pl.is_long(),
        !ps.is_long(),
        pl.entry_in_bounds(ei.n()),
        ps.entry_in_bounds(ei.n()),
        pl.entry_price == ps.entry_price,
        pl.position_size == ps.position_size,
        pl.fee_entry == 0,
        ps.fee_entry == 0,
        0 <= j < ei.n(),
        raw_exit_at(ei, pl, j) == raw_exit_at(ei, ps, j),
    ensures
        closed_position(ei, pl, j).pnl->0 == -closed_position(ei, ps, j).pnl->0,
{
    let raw = raw_exit_at(ei, pl, j);
    vstd::arithmetic::div_mod::lemma_div_multiples_vanish(raw, RATE_SCALE as int);
    assert(exit_price_at(ei, pl, j) == raw);
    assert(exit_price_at(ei, ps, j) == raw);
    let e = pl.entry_price as int;
    let s = pl.position_size as int;
    assert(fee_amount(s, raw, 0) == 0) by {
        assert(s * raw * 0 == 0) by (nonlinear_arith);
    }
    lemma_gross_pnl_antisymmetric(e, raw, s);
    assert(-(2 * MAX_PRICE * MAX_SIZE) <= (raw - e) * s <= 2 * MAX_PRICE * MAX_SIZE)
        by (nonlinear_arith)
        requires
            0 <= s <= MAX_SIZE,
            0 <= e <= 2 * MAX_PRICE,
            0 <= raw <= MAX_PRICE;
}

/// Close one open position against the bar data, or return it unchanged
/// when no predicate ever fires.  Exact against `simulate_spec`.
pub fn simulate_single_exit(
    pos: Position,
    timestamps: &Vec<i64>,
    high: &Vec<i64>,
    low: &Vec<i64>,
    close: &Vec<i64>,
    exit_fee_rate: i64,
    slippage_rate: i64,
) -> (r: Position)
    requires
        exit_view(
            timestamps@, high@, low@, close@, exit_fee_rate as int, slippage_rate as int,
        ).wf(),
        pos.settled_ok(timestamps@.len() as int),
    ensures
        ({
            let ei = exit_view(
                timestamps@, high@, low@, close@, exit_fee_rate as int, slippage_rate as int,
            );
            &&& r == simulate_spec(ei, pos)
            &&& r.settled_ok(ei.n())
        }),
{
    let ghost ei = exit_view(
        timestamps@, high@, low@, close@, exit_fee_rate as int, slippage_rate as int,
    );
    if pos.is_closed {
        return pos;
    }
    let n = high.len();
    let mut j: usize = pos.entry_index;
    while j < n
        invariant
            ei == exit_view(
                timestamps@, high@, low@, close@, exit_fee_rate as int, slippage_rate as int,
            ),
            ei.wf(),
            n == ei.n(),
            pos.settled_ok(ei.n()),
            !pos.is_closed,
            pos.entry_index <= j <= n,
            first_trigger_from(ei, pos, pos.entry_index as int) == first_trigger_from(
                ei, pos, j as int),
        decreases n - j,
    {
        let is_long: bool = matches!(pos.side, Side::Long);
        assert(is_long == pos.is_long());
        let hit_sl_now: bool = if is_long {
            low[j] <= pos.sl
        } else {
            high[j] >= pos.sl
        };
        let hit_tp_now: bool = if is_long {
            high[j] >= pos.tp
        } else {
            low[j] <= pos.tp
        };
        let expired_now: bool = match pos.expiration_time {
            Some(et) => timestamps[j] >= et,
            None => false,
        };
        assert(hit_sl_now == hit_sl(ei, pos, j as int));
        assert(hit_tp_now == hit_tp(ei, pos, j as int));
        assert(expired_now == expired_at(ei, pos, j as int));

        if hit_sl_now || hit_tp_now || expired_now {
            assert(first_trigger_from(ei, pos, j as int) == Some(j as int));
            let raw_exit: i64 = if hit_sl_now {
                pos.sl
            } else if hit_tp_now {
                pos.tp
            } else {
                close[j]
            };
            let exit_price: i64 = if is_long {
                price_down(raw_exit, slippage_rate)
            } else {
                price_up(raw_exit, slippage_rate)
            };
            let slippage_exit: i64 = if is_long {
                raw_exit - exit_price
            } else {
                exit_price - raw_exit
            };
            let fee_exit: i64 = fee_for(pos.position_size, exit_price, exit_fee_rate);

            proof {
                assert(0 <= pos.fee_entry <= pos.position_size * pos.entry_price);
                assert(pos.position_size * pos.entry_price <= MAX_SIZE * (2 * MAX_PRICE))
                    by (nonlinear_arith)
                    requires
                        0 <= pos.position_size <= MAX_SIZE,
                        0 <= pos.entry_price <= 2 * MAX_PRICE;
                assert(0 <= fee_exit <= MAX_SIZE * (2 * MAX_PRICE)) by (nonlinear_arith)
                    requires
                        0 <= fee_exit <= pos.position_size * exit_price,
                        0 <= pos.position_size <= MAX_SIZE,
                        0 <= exit_price <= 2 * MAX_PRICE;
                assert({
                    let d = if pos.is_long() {
                        exit_price - pos.entry_price
                    } else {
                        pos.entry_price - exit_price
                    };
                    -(2 * MAX_PRICE * MAX_SIZE) <= d * pos.position_size
                        <= 2 * MAX_PRICE * MAX_SIZE
                }) by (nonlinear_arith)
                    requires
                        0 <= pos.position_size <= MAX_SIZE,
                        0 <= pos.entry_price <= 2 * MAX_PRICE,
                        0 <= exit_price <= 2 * MAX_PRICE;
            }
            let gross_diff: i64 = if is_long {
                exit_price - pos.entry_price
            } else {
                pos.entry_price - exit_price
            };
            let gross: i64 = gross_diff * pos.position_size;
            let pnl: i64 = gross - (pos.fee_entry + fee_exit);

            let absolute_return: i128 = if pos.entry_price != 0 {
                ratio_scaled_i128(exit_price as i128, pos.entry_price as i128) - (
                RATE_SCALE as i128)
            } else {
                0
            };
            proof {
                assert(-(MAX_SIZE * (2 * MAX_PRICE)) <= (pos.entry_price as i128)
                    * (pos.position_size as i128) <= MAX_SIZE * (2 * MAX_PRICE))
                    by (nonlinear_arith)
                    requires
                        0 <= pos.position_size <= MAX_SIZE,
                        0 <= pos.entry_price <= 2 * MAX_PRICE;
            }
            let notional: i128 = (pos.entry_price as i128) * (pos.position_size as i128);
            let real_return: i128 = ratio_scaled_i128(pnl as i128, notional);

            let closed = Position {
                exit_index: Some(j),
                exit_price: Some(exit_price),
                exit_condition: Some(
                    if hit_sl_now {
                        ExitReason::StopLoss
                    } else if hit_tp_now {
                        ExitReason::TakeProfit
                    } else {
                        ExitReason::Expired
                    },
                ),
                fee_exit,
                slippage_exit,
                absolute_return: Some(absolute_return),
                real_return: Some(real_return),
                pnl: Some(pnl),
                is_closed: true,
                ..pos
            };
            assert(closed == closed_position(ei, pos, j as int));
            return closed;
        }
        j += 1;
    }
    pos
}

/// Resolve the exit of every position in place; already-closed entries are
/// untouched.  Exact against `simulate_spec`, element by element.
pub fn simulate_position_exits(
    positions: &mut Vec<Position>,
    timestamps: &Vec<i64>,
    high: &Vec<i64>,
    low: &Vec<i64>,
    close: &Vec<i64>,
    exit_fee_rate: i64,
    slippage_rate: i64,
)
    requires
        exit_view(
            timestamps@, high@, low@, close@, exit_fee_rate as int, slippage_rate as int,
        ).wf(),
        forall|k: int| 0 <= k < old(positions)@.len()
            ==> (#[trigger] old(positions)@[k]).settled_ok(timestamps@.len() as int),
    ensures
        ({
            let ei = exit_view(
                timestamps@, high@, low@, close@, exit_fee_rate as int, slippage_rate as int,
            );
            &&& final(positions)@.len() == old(positions)@.len()
            &&& (forall|k: int| 0 <= k < old(positions)@.len()
                ==> #[trigger] final(positions)@[k] == simulate_spec(ei, old(positions)@[k]))
            &&& (forall|k: int| 0 <= k < old(positions)@.len()
                ==> (#[trigger] final(positions)@[k]).settled_ok(ei.n()))
        }),
{
    let ghost ei = exit_view(
        timestamps@, high@, low@, close@, exit_fee_rate as int, slippage_rate as int,
    );
    let m = positions.len();
    let mut k: usize = 0;
    while k < m
        invariant
            ei == exit_view(
                timestamps@, high@, low@, close@, exit_fee_rate as int, slippage_rate as int,
            ),
            ei.wf(),
            positions@.len() == m == old(positions)@.len(),
            0 <= k <= m,
            forall|u: int| 0 <= u < m
                ==> (#[trigger] old(positions)@[u]).settled_ok(ei.n()),
            forall|u: int| k <= u < m ==> #[trigger] positions@[u] == old(positions)@[u],
            forall|u: int| 0 <= u < k
                ==> #[trigger] positions@[u] == simulate_spec(ei, old(positions)@[u]),
            forall|u: int| 0 <= u < k ==> (#[trigger] positions@[u]).settled_ok(ei.n()),
        decreases m - k,
    {
        let p = positions[k];
        let q = simulate_single_exit(p, timestamps, high, low, close, exit_fee_rate,
            slippage_rate);
        positions.set(k, q);
        k += 1;
    }
}

} // verus!
