//! Entry scanning: one position per active signal bar, filled at the next
//! bar's open (or the same bar when the signal sits on the last bar), with
//! slippage and the entry fee applied.

use vstd::prelude::*;
use crate::engine::num::{
    RATE_SCALE, MAX_PRICE, MAX_BARS, NO_EXPIRATION, price_rated_up, price_rated_down, fee_amount,
    price_up, price_down, fee_for,
};
use crate::engine::position::{Position, Side};
use crate::engine::prepare_inputs::{
    BacktestError, all_prices_in_range, all_levels_in_range, all_sizes_in_range,
    no_signal_conflict, expiration_set, price_in_range, level_in_range, size_in_range,
};

verus! {

/// The inputs of the entry scan, as one mathematical value.
pub struct ScanInputs {
    pub ts: Seq<i64>,
    pub open: Seq<i64>,
    pub longs: Seq<bool>,
    pub shorts: Seq<bool>,
    pub long_tp: Seq<i64>,
    pub long_sl: Seq<i64>,
    pub short_tp: Seq<i64>,
    pub short_sl: Seq<i64>,
    pub long_size: Seq<i64>,
    pub short_size: Seq<i64>,
    pub exp: Seq<i64>,
    pub entry_fee_rate: int,
    pub slippage_rate: int,
}

/// Bundle borrowed input vectors and scalars into a `ScanInputs` value.
pub open spec fn scan_view(
    ts: Seq<i64>,
    open: Seq<i64>,
    longs: Seq<bool>,
    shorts: Seq<bool>,
    long_tp: Seq<i64>,
    long_sl: Seq<i64>,
    short_tp: Seq<i64>,
    short_sl: Seq<i64>,
    long_size: Seq<i64>,
    short_size: Seq<i64>,
    exp: Seq<i64>,
    entry_fee_rate: int,
    slippage_rate: int,
) -> ScanInputs {
    ScanInputs {
        ts, open, longs, shorts, long_tp, long_sl, short_tp, short_sl, long_size, short_size,
        exp, entry_fee_rate, slippage_rate,
    }
}

impl ScanInputs {
    /// The bar count.
    pub open spec fn n(self) -> int {
        self.ts.len() as int
    }

    /// Well-formed, validated inputs.
    pub open spec fn wf(self) -> bool {
        &&& 1 <= self.n() <= MAX_BARS
        &&& self.open.len() == self.n()
        &&& self.longs.len() == self.n()
        &&& self.shorts.len() == self.n()
        &&& self.long_tp.len() == self.n()
        &&& self.long_sl.len() == self.n()
        &&& self.short_tp.len() == self.n()
        &&& self.short_sl.len() == self.n()
        &&& self.long_size.len() == self.n()
        &&& self.short_size.len() == self.n()
        &&& self.exp.len() == self.n()
        &&& all_prices_in_range(self.open)
        &&& all_levels_in_range(self.long_tp)
        &&& all_levels_in_range(self.long_sl)
        &&& all_levels_in_range(self.short_tp)
        &&& all_levels_in_range(self.short_sl)
        &&& all_sizes_in_range(self.long_size)
        &&& all_sizes_in_range(self.short_size)
        &&& no_signal_conflict(self.longs, self.shorts)
        &&& 0 <= self.entry_fee_rate <= RATE_SCALE
        &&& 0 <= self.slippage_rate <= RATE_SCALE
    }

    /// Bar `i` carries a signal.
    pub open spec fn has_signal(self, i: int) -> bool {
        self.longs[i] || self.shorts[i]
    }

    /// The side bar `i`'s signal opens.
    pub open spec fn side_at(self, i: int) -> Side {
        if self.longs[i] {
            Side::Long
        } else {
            Side::Short
        }
    }
}

/// The fill bar for a signal on bar `i`: the next bar, clamped to the last.
pub open spec fn entry_bar(i: int, n: int) -> int {
    if i + 1 < n {
        i + 1
    } else {
        i
    }
}

/// A set expiration that precedes the fill bar's timestamp is rejected.
pub open spec fn entry_exp_bad(si: ScanInputs, i: int) -> bool {
    expiration_set(si.exp[i]) && si.exp[i] < si.ts[entry_bar(i, si.n())]
}

/// The position opened by the signal on bar `i`.
pub open spec fn position_at(si: ScanInputs, i: int) -> Position {
    let n = si.n();
    let e = entry_bar(i, n);
    let raw = si.open[e] as int;
    let long = si.longs[i];
    let entry_price = if long {
        price_rated_up(raw, si.slippage_rate)
    } else {
        price_rated_down(raw, si.slippage_rate)
    };
    let size = if long {
        si.long_size[i] as int
    } else {
        si.short_size[i] as int
    };
    Position {
        position_id: si.ts[e],
        side: si.side_at(i),
        entry_index: e as usize,
        entry_price: entry_price as i64,
        tp: if long {
            si.long_tp[i]
        } else {
            si.short_tp[i]
        },
        sl: if long {
            si.long_sl[i]
        } else {
            si.short_sl[i]
        },
        expiration_time: if expiration_set(si.exp[i]) {
            Some(si.exp[i])
        } else {
            None
        },
        exit_index: None,
        exit_price: None,
        exit_condition: None,
        position_size: size as i64,
        fee_entry: fee_amount(size, entry_price, si.entry_fee_rate) as i64,
        fee_exit: 0,
        slippage_entry: if long {
            (entry_price - raw) as i64
        } else {
            (raw - entry_price) as i64
        },
        slippage_exit: 0,
        absolute_return: None,
        real_return: None,
        pnl: None,
        is_closed: false,
    }
}

/// The positions opened by the signals among the first `k` bars, in bar
/// order.
pub open spec fn scan_prefix(si: ScanInputs, k: int) -> Seq<Position>
    decreases k,
{
    if k <= 0 {
        Seq::empty()
    } else if si.has_signal(k - 1) {
        scan_prefix(si, k - 1).push(position_at(si, k - 1))
    } else {
        scan_prefix(si, k - 1)
    }
}

/// Every position the scan emits.
pub open spec fn scan_spec(si: ScanInputs) -> Seq<Position> {
    scan_prefix(si, si.n())
}

/// Some signal bar carries an expiration before its fill timestamp.
pub open spec fn scan_fails(si: ScanInputs) -> bool {
    exists|i: int| 0 <= i < si.n() && si.has_signal(i) && entry_exp_bad(si, i)
}

/// How many of the first `k` bars carry a signal.
pub open spec fn signal_count(longs: Seq<bool>, shorts: Seq<bool>, k: int) -> int
    decreases k,
{
    if k <= 0 {
        0
    } else {
        signal_count(longs, shorts, k - 1) + if longs[k - 1] || shorts[k - 1] {
            1int
        } else {
            0int
        }
    }
}

/// No more signal bars than bars.
pub proof fn lemma_signal_count_le(longs: Seq<bool>, shorts: Seq<bool>, k: int)
    requires
        k >= 0,
    ensures
        0 <= signal_count(longs, shorts, k) <= k,
    decreases k,
{
    if k > 0 {
        lemma_signal_count_le(longs, shorts, k - 1);
    }
}

/// The scan emits exactly one position per signal bar.
pub proof fn lemma_scan_count(si: ScanInputs, k: int)
    ensures
        scan_prefix(si, k).len() == signal_count(si.longs, si.shorts, k),
    decreases k,
{
    if k > 0 {
        lemma_scan_count(si, k - 1);
    }
}

/// Every scanned position is the one its signal bar describes.
pub proof fn lemma_scan_from_signal(si: ScanInputs, k: int)
    requires
        0 <= k <= si.n(),
    ensures
        forall|j: int| 0 <= j < scan_prefix(si, k).len()
            ==> exists|i: int| 0 <= i < k && si.has_signal(i)
                && #[trigger] scan_prefix(si, k)[j] == position_at(si, i),
    decreases k,
{
    if k > 0 {
        lemma_scan_from_signal(si, k - 1);
        let prev = scan_prefix(si, k - 1);
        let cur = scan_prefix(si, k);
        assert forall|j: int| 0 <= j < cur.len() implies exists|i: int| 0 <= i < k
            && si.has_signal(i) && #[trigger] cur[j] == position_at(si, i) by {
            if j < prev.len() {
                assert(cur[j] == prev[j]);
                let i = choose|i: int| 0 <= i < k - 1 && si.has_signal(i) && prev[j]
                    == position_at(si, i);
                assert(cur[j] == position_at(si, i));
            } else {
                assert(si.has_signal(k - 1) && cur[j] == position_at(si, k - 1));
            }
        }
    }
}

/// Causality of fills: a signal on bar `i` is filled on `min(i + 1, n - 1)`,
/// never before its own bar.
pub proof fn lemma_entry_causality(si: ScanInputs, i: int)
    requires
        si.wf(),
        0 <= i < si.n(),
        si.has_signal(i),
    ensures
        position_at(si, i).entry_index == entry_bar(i, si.n()),
        i <= position_at(si, i).entry_index < si.n(),
{
}

/// Emit the positions for every active signal bar, in bar order.
///
/// Fails with `ExpirationInPast` exactly when some signal bar's set
/// expiration precedes its fill bar's timestamp.
pub fn scan_entries(
    timestamps: &Vec<i64>,
    open: &Vec<i64>,
    long: &Vec<bool>,
    short: &Vec<bool>,
    long_tp: &Vec<i64>,
    long_sl: &Vec<i64>,
    short_tp: &Vec<i64>,
    short_sl: &Vec<i64>,
    long_size: &Vec<i64>,
    short_size: &Vec<i64>,
    expiration_times: &Vec<i64>,
    entry_fee_rate: i64,
    slippage_rate: i64,
) -> (r: Result<Vec<Position>, BacktestError>)
    requires
        scan_view(
            timestamps@, open@, long@, short@, long_tp@, long_sl@, short_tp@, short_sl@,
            long_size@, short_size@, expiration_times@, entry_fee_rate as int,
            slippage_rate as int,
        ).wf(),
    ensures
        ({
            let si = scan_view(
                timestamps@, open@, long@, short@, long_tp@, long_sl@, short_tp@, short_sl@,
                long_size@, short_size@, expiration_times@, entry_fee_rate as int,
                slippage_rate as int,
            );
            &&& (r is Ok <==> !scan_fails(si))
            &&& (r is Err ==> r->Err_0 == BacktestError::ExpirationInPast)
            &&& (r matches Ok(ps) ==> {
                &&& ps@ == scan_spec(si)
                &&& ps@.len() == signal_count(long@, short@, si.n())
                &&& (forall|j: int| 0 <= j < ps@.len() ==> (#[trigger] ps@[j]).fresh_ok(si.n()))
            })
        }),
{
    let ghost si = scan_view(
        timestamps@, open@, long@, short@, long_tp@, long_sl@, short_tp@, short_sl@,
        long_size@, short_size@, expiration_times@, entry_fee_rate as int, slippage_rate as int,
    );
    let n = timestamps.len();
    let mut positions: Vec<Position> = Vec::new();
    let mut i: usize = 0;
    while i < n
        invariant
            si == scan_view(
                timestamps@, open@, long@, short@, long_tp@, long_sl@, short_tp@, short_sl@,
                long_size@, short_size@, expiration_times@, entry_fee_rate as int,
                slippage_rate as int,
            ),
            si.wf(),
            n == si.n(),
            0 <= i <= n,
            positions@ == scan_prefix(si, i as int),
            forall|k: int| 0 <= k < i
                ==> !(si.has_signal(k) && entry_exp_bad(si, k)),
            forall|j: int| 0 <= j < positions@.len()
                ==> (#[trigger] positions@[j]).fresh_ok(si.n()),
        decreases n - i,
    {
        if long[i] || short[i] {
            let entry_idx: usize = if i + 1 < n {
                i + 1
            } else {
                i
            };
            let entry_ts: i64 = timestamps[entry_idx];
            let raw: i64 = open[entry_idx];

            let exp_t: i64 = expiration_times[i];
            if exp_t != NO_EXPIRATION && exp_t < entry_ts {
                assert(si.has_signal(i as int) && entry_exp_bad(si, i as int));
                return Err(BacktestError::ExpirationInPast);
            }

            let is_long: bool = long[i];
            let entry_price: i64 = if is_long {
                price_up(raw, slippage_rate)
            } else {
                price_down(raw, slippage_rate)
            };
            let slippage_entry: i64 = if is_long {
                entry_price - raw
            } else {
                raw - entry_price
            };
            let tp: i64 = if is_long {
                long_tp[i]
            } else {
                short_tp[i]
            };
            let sl: i64 = if is_long {
                long_sl[i]
            } else {
                short_sl[i]
            };
            let size: i64 = if is_long {
                long_size[i]
            } else {
                short_size[i]
            };
            let fee_entry: i64 = fee_for(size, entry_price, entry_fee_rate);

            let pos = Position {
                position_id: entry_ts,
                side: if is_long {
                    Side::Long
                } else {
                    Side::Short
                },
                entry_index: entry_idx,
                entry_price,
                tp,
                sl,
                expiration_time: if exp_t != NO_EXPIRATION {
                    Some(exp_t)
                } else {
                    None
                },
                exit_index: None,
                exit_price: None,
                exit_condition: None,
                position_size: size,
                fee_entry,
                fee_exit: 0,
                slippage_entry,
                slippage_exit: 0,
                absolute_return: None,
                real_return: None,
                pnl: None,
                is_closed: false,
            };
            assert(pos == position_at(si, i as int));
            assert(pos.fresh_ok(si.n())) by {
                assert(price_in_range(si.open[entry_idx as int] as int));
                assert(level_in_range(si.long_tp[i as int] as int));
                assert(level_in_range(si.long_sl[i as int] as int));
                assert(level_in_range(si.short_tp[i as int] as int));
                assert(level_in_range(si.short_sl[i as int] as int));
                assert(size_in_range(si.long_size[i as int] as int));
                assert(size_in_range(si.short_size[i as int] as int));
            }
            positions.push(pos);
        }
        i += 1;
    }
    proof {
        lemma_scan_count(si, si.n());
    }
    Ok(positions)
}

} // verus!
