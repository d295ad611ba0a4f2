//! Input validation: array shapes, value ranges, timestamp monotonicity,
//! signal exclusivity and expiration sanity.  Validation is total; no
//! later stage runs on a rejected input.

use vstd::prelude::*;
use crate::engine::num::{MAX_PRICE, MAX_SIZE, MAX_BARS, NO_EXPIRATION};

verus! {

/// The only failures a run can surface.
#[derive(Clone, Copy, Debug, PartialEq, Eq, Structural)]
pub enum BacktestError {
    /// An input array's length differs from the bar count, the bar count is
    /// zero, or it is beyond the supported maximum.
    LengthMismatch,
    /// A price, level or size lies outside the representable range.
    NonFinitePrice,
    /// Timestamps fail to increase strictly.
    TimestampsNotIncreasing,
    /// A bar raises both the long and the short signal.
    SignalConflict,
    /// A set expiration deadline precedes its bar's timestamp, or the
    /// clamped entry bar's timestamp.
    ExpirationInPast,
}

/// A traded price: positive and within the tick range.
pub open spec fn price_in_range(p: int) -> bool {
    1 <= p <= MAX_PRICE
}

/// A stop or target level: non-negative and within the tick range.
pub open spec fn level_in_range(p: int) -> bool {
    0 <= p <= MAX_PRICE
}

/// A position size: non-negative and within the unit range.
pub open spec fn size_in_range(s: int) -> bool {
    0 <= s <= MAX_SIZE
}

/// Every element of `s` is a traded price.
pub open spec fn all_prices_in_range(s: Seq<i64>) -> bool {
    forall|i: int| 0 <= i < s.len() ==> price_in_range(#[trigger] s[i] as int)
}

/// Every element of `s` is a level.
pub open spec fn all_levels_in_range(s: Seq<i64>) -> bool {
    forall|i: int| 0 <= i < s.len() ==> level_in_range(#[trigger] s[i] as int)
}

/// Every element of `s` is a size.
pub open spec fn all_sizes_in_range(s: Seq<i64>) -> bool {
    forall|i: int| 0 <= i < s.len() ==> size_in_range(#[trigger] s[i] as int)
}

/// Timestamps increase strictly bar over bar.
pub open spec fn ts_strictly_increasing(ts: Seq<i64>) -> bool {
    forall|i: int| 0 <= i < ts.len() - 1 ==> #[trigger] ts[i] < ts[i + 1]
}

/// No bar raises both signals.
pub open spec fn no_signal_conflict(longs: Seq<bool>, shorts: Seq<bool>) -> bool {
    forall|i: int| 0 <= i < longs.len() ==> !(#[trigger] longs[i] && shorts[i])
}

/// An expiration value that decays to "unset" disables the check.
pub open spec fn expiration_set(exp: i64) -> bool {
    exp != NO_EXPIRATION
}

/// A set expiration must not precede its own bar's timestamp.
pub open spec fn expirations_ok(exp: Seq<i64>, ts: Seq<i64>) -> bool {
    forall|i: int| 0 <= i < exp.len() ==> (expiration_set(#[trigger] exp[i]) ==> exp[i] >= ts[i])
}

/// Ensure `arr.len() == expected`, otherwise `LengthMismatch`.
pub fn validate_length<T>(arr: &Vec<T>, expected: usize) -> (r: Result<(), BacktestError>)
    ensures
        r is Ok <==> arr.len() == expected,
        r is Err ==> r->Err_0 == BacktestError::LengthMismatch,
{
    if arr.len() != expected {
        Err(BacktestError::LengthMismatch)
    } else {
        Ok(())
    }
}

/// True exactly when every element of `v` is a traded price.
pub fn check_prices(v: &Vec<i64>) -> (ok: bool)
    ensures
        ok <==> all_prices_in_range(v@),
{
    let mut i: usize = 0;
    while i < v.len()
        invariant
            0 <= i <= v.len(),
            forall|k: int| 0 <= k < i ==> price_in_range(#[trigger] v@[k] as int),
        decreases v.len() - i,
    {
        if v[i] < 1 || v[i] > MAX_PRICE {
            return false;
        }
        i += 1;
    }
    true
}

/// True exactly when every element of `v` is a level.
pub fn check_levels(v: &Vec<i64>) -> (ok: bool)
    ensures
        ok <==> all_levels_in_range(v@),
{
    let mut i: usize = 0;
    while i < v.len()
        invariant
            0 <= i <= v.len(),
            forall|k: int| 0 <= k < i ==> level_in_range(#[trigger] v@[k] as int),
        decreases v.len() - i,
    {
        if v[i] < 0 || v[i] > MAX_PRICE {
            return false;
        }
        i += 1;
    }
    true
}

/// True exactly when every element of `v` is a size.
pub fn check_sizes(v: &Vec<i64>) -> (ok: bool)
    ensures
        ok <==> all_sizes_in_range(v@),
{
    let mut i: usize = 0;
    while i < v.len()
        invariant
            0 <= i <= v.len(),
            forall|k: int| 0 <= k < i ==> size_in_range(#[trigger] v@[k] as int),
        decreases v.len() - i,
    {
        if v[i] < 0 || v[i] > MAX_SIZE {
            return false;
        }
        i += 1;
    }
    true
}

/// True exactly when timestamps increase strictly.
pub fn check_increasing(ts: &Vec<i64>) -> (ok: bool)
    ensures
        ok <==> ts_strictly_increasing(ts@),
{
    if ts.len() == 0 {
        return true;
    }
    let mut i: usize = 0;
    while i < ts.len() - 1
        invariant
            ts.len() >= 1,
            0 <= i <= ts.len() - 1,
            forall|k: int| 0 <= k < i ==> #[trigger] ts@[k] < ts@[k + 1],
        decreases ts.len() - i,
    {
        if ts[i + 1] <= ts[i] {
            return false;
        }
        i += 1;
    }
    true
}

/// True exactly when no bar raises both signals.
pub fn check_no_conflict(longs: &Vec<bool>, shorts: &Vec<bool>) -> (ok: bool)
    requires
        longs.len() == shorts.len(),
    ensures
        ok <==> no_signal_conflict(longs@, shorts@),
{
    let mut i: usize = 0;
    while i < longs.len()
        invariant
            longs.len() == shorts.len(),
            0 <= i <= longs.len(),
            forall|k: int| 0 <= k < i ==> !(#[trigger] longs@[k] && shorts@[k]),
        decreases longs.len() - i,
    {
        if longs[i] && shorts[i] {
            return false;
        }
        i += 1;
    }
    true
}

/// True exactly when every set expiration is at or after its bar.
pub fn check_expirations(exp: &Vec<i64>, ts: &Vec<i64>) -> (ok: bool)
    requires
        exp.len() == ts.len(),
    ensures
        ok <==> expirations_ok(exp@, ts@),
{
    let mut i: usize = 0;
    while i < exp.len()
        invariant
            exp.len() == ts.len(),
            0 <= i <= exp.len(),
            forall|k: int| 0 <= k < i
                ==> (expiration_set(#[trigger] exp@[k]) ==> exp@[k] >= ts@[k]),
        decreases exp.len() - i,
    {
        if exp[i] != NO_EXPIRATION && exp[i] < ts[i] {
            return false;
        }
        i += 1;
    }
    true
}

/// The five core arrays share one length within the supported range, and
/// the four price arrays hold traded prices.
pub fn prepare_inputs(
    timestamp: &Vec<i64>,
    open: &Vec<i64>,
    high: &Vec<i64>,
    low: &Vec<i64>,
    close: &Vec<i64>,
) -> (r: Result<usize, BacktestError>)
    ensures
        r is Ok ==> {
            &&& r->Ok_0 == timestamp.len()
            &&& 1 <= timestamp.len() <= MAX_BARS
            &&& open.len() == timestamp.len()
            &&& high.len() == timestamp.len()
            &&& low.len() == timestamp.len()
            &&& close.len() == timestamp.len()
            &&& all_prices_in_range(open@)
            &&& all_prices_in_range(high@)
            &&& all_prices_in_range(low@)
            &&& all_prices_in_range(close@)
        },
        r matches Err(e) ==> (e == BacktestError::LengthMismatch || e
            == BacktestError::NonFinitePrice),
        r is Err && r->Err_0 == BacktestError::LengthMismatch <==> !(1 <= timestamp.len()
            <= MAX_BARS && open.len() == timestamp.len() && high.len() == timestamp.len()
            && low.len() == timestamp.len() && close.len() == timestamp.len()),
        r is Err && r->Err_0 == BacktestError::NonFinitePrice <==> (1 <= timestamp.len()
            <= MAX_BARS && open.len() == timestamp.len() && high.len() == timestamp.len()
            && low.len() == timestamp.len() && close.len() == timestamp.len()
            && !(all_prices_in_range(open@) && all_prices_in_range(high@)
            && all_prices_in_range(low@) && all_prices_in_range(close@))),
{
    let n = timestamp.len();
    if n == 0 || n > MAX_BARS {
        return Err(BacktestError::LengthMismatch);
    }
    validate_length(open, n)?;
    validate_length(high, n)?;
    validate_length(low, n)?;
    validate_length(close, n)?;
    if !(check_prices(open) && check_prices(high) && check_prices(low) && check_prices(close)) {
        return Err(BacktestError::NonFinitePrice);
    }
    Ok(n)
}

} // verus!
