//! Fixed-point money arithmetic.
//!
//! Every amount (price, cost basis, quantity, indicator value) is an
//! `i64` counting ten-thousandths, so `1.5` is stored as `15_000`.
//! Amounts the engine works on are bounded by [`MAX_AMOUNT`], which keeps
//! every intermediate product inside `i64`/`i128` range.

use vstd::prelude::*;

verus! {

/// Number of fixed-point units in one whole currency unit.
pub const FP_SCALE: i64 = 10_000;

/// Largest magnitude an amount may have: ten million whole units.
pub const MAX_AMOUNT: i64 = 100_000_000_000;

/// An amount the engine accepts: bounded either way.
pub open spec fn in_range(x: int) -> bool {
    -MAX_AMOUNT <= x <= MAX_AMOUNT
}

/// Division rounding toward zero (what a hand calculation truncates to).
pub open spec fn div_trunc(n: int, d: int) -> int {
    if n >= 0 {
        n / d
    } else {
        -((-n) / d)
    }
}

/// Truncating division on machine integers.
pub fn div_trunc_i64(n: i64, d: i64) -> (q: i64)
    requires
        d > 0,
        n > i64::MIN,
    ensures
        q == div_trunc(n as int, d as int),
        n >= 0 ==> 0 <= q <= n,
        n < 0 ==> n <= q <= 0,
{
    if n >= 0 {
        n / d
    } else {
        -(-n / d)
    }
}

} // verus!
