//! The central mutable entity of a run: a position opened by a signal,
//! later closed by stop-loss, take-profit or expiration.

use vstd::prelude::*;
use crate::engine::num::{MAX_PRICE, MAX_SIZE};

verus! {

/// Direction of a position: a closed two-variant tag.
#[derive(Clone, Copy, Debug, PartialEq, Eq, Structural)]
pub enum Side {
    Long,
    Short,
}

/// Why a position was closed.
#[derive(Clone, Copy, Debug, PartialEq, Eq, Structural)]
pub enum ExitReason {
    StopLoss,
    TakeProfit,
    Expired,
}

/// A position over its whole life.  Prices are ticks, sizes whole units,
/// money tick-units; `absolute_return` and `real_return` are fixed-point
/// ratios scaled by `RATE_SCALE`.  The exit and result fields are `None`
/// exactly until the position closes.
#[derive(Clone, Copy, Debug, PartialEq, Eq)]
pub struct Position {
    /// The entry-bar timestamp, in seconds.
    pub position_id: i64,
    /// Long or short.
    pub side: Side,
    /// Bar index at which this position was filled.
    pub entry_index: usize,
    /// Fill price at entry, slippage included.
    pub entry_price: i64,
    /// Absolute take-profit level.
    pub tp: i64,
    /// Absolute stop-loss level.
    pub sl: i64,
    /// Expiration deadline in seconds, when one is set.
    pub expiration_time: Option<i64>,
    /// Bar index at which this position was closed.
    pub exit_index: Option<usize>,
    /// Fill price at exit, slippage included.
    pub exit_price: Option<i64>,
    /// Which predicate closed the position.
    pub exit_condition: Option<ExitReason>,
    /// Number of units.
    pub position_size: i64,
    /// Fee charged at entry.
    pub fee_entry: i64,
    /// Fee charged at exit; zero while open.
    pub fee_exit: i64,
    /// Absolute price delta lost to slippage at entry.
    pub slippage_entry: i64,
    /// Absolute price delta lost to slippage at exit; zero while open.
    pub slippage_exit: i64,
    /// `exit_price / entry_price - 1`, scaled.
    pub absolute_return: Option<i128>,
    /// `pnl / (entry_price * position_size)`, scaled.
    pub real_return: Option<i128>,
    /// Net money result, fees included.
    pub pnl: Option<i64>,
    /// True exactly once the exit fields are set.
    pub is_closed: bool,
}

impl Position {
    /// The long side carries `true` here.
    pub open spec fn is_long(self) -> bool {
        self.side == Side::Long
    }

    /// Every exit and result field is present.
    pub open spec fn exit_fields_set(self) -> bool {
        &&& self.exit_index is Some
        &&& self.exit_price is Some
        &&& self.exit_condition is Some
        &&& self.absolute_return is Some
        &&& self.real_return is Some
        &&& self.pnl is Some
    }

    /// No exit or result field is present, and the exit charges are zero.
    pub open spec fn exit_fields_unset(self) -> bool {
        &&& self.exit_index is None
        &&& self.exit_price is None
        &&& self.exit_condition is None
        &&& self.absolute_return is None
        &&& self.real_return is None
        &&& self.pnl is None
        &&& self.fee_exit == 0
        &&& self.slippage_exit == 0
    }

    /// Ranges that every position carries from validated inputs; `n` is the
    /// bar count of the run.
    pub open spec fn entry_in_bounds(self, n: int) -> bool {
        &&& 0 <= self.entry_index < n
        &&& 0 <= self.entry_price <= 2 * MAX_PRICE
        &&& 0 <= self.tp <= MAX_PRICE
        &&& 0 <= self.sl <= MAX_PRICE
        &&& 0 <= self.position_size <= MAX_SIZE
        &&& 0 <= self.fee_entry <= self.position_size * self.entry_price
        &&& 0 <= self.slippage_entry <= MAX_PRICE
    }

    /// A position as the entry scanner emits it: within bounds and open.
    pub open spec fn fresh_ok(self, n: int) -> bool {
        &&& self.entry_in_bounds(n)
        &&& self.exit_fields_unset()
        &&& !self.is_closed
    }

    /// A position as the exit simulator leaves it: either still open, or
    /// closed with every exit field set, the exit bar no earlier than the
    /// entry bar, and the money fields within range.
    pub open spec fn settled_ok(self, n: int) -> bool {
        &&& self.entry_in_bounds(n)
        &&& (self.is_closed <==> self.exit_fields_set())
        &&& (!self.is_closed ==> self.exit_fields_unset())
        &&& self.is_closed ==> {
            &&& self.entry_index <= self.exit_index->0 < n
            &&& 0 <= self.exit_price->0 <= 2 * MAX_PRICE
            &&& 0 <= self.fee_exit <= self.position_size * self.exit_price->0
            &&& 0 <= self.slippage_exit <= MAX_PRICE
            &&& abs_pnl_bound(self.pnl->0 as int)
        }
    }
}

/// The magnitude every net result stays within: gross move plus both fees.
pub open spec fn abs_pnl_bound(pnl: int) -> bool {
    -(6 * (MAX_PRICE as int) * (MAX_SIZE as int)) <= pnl
        <= 6 * (MAX_PRICE as int) * (MAX_SIZE as int)
}

} // verus!
