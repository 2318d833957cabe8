//! Saturating and rounding arithmetic used by the cost models.
use vstd::prelude::*;

verus! {

/// `a * b`, clamped to `usize::MAX`.
pub open spec fn sat_mul(a: usize, b: usize) -> usize {
    if a * b > usize::MAX {
        usize::MAX
    } else {
        (a * b) as usize
    }
}

/// `a + b`, clamped to `usize::MAX`.
pub open spec fn sat_add(a: usize, b: usize) -> usize {
    if a + b > usize::MAX {
        usize::MAX
    } else {
        (a + b) as usize
    }
}

/// `a - b`, clamped to zero.
pub open spec fn sat_sub(a: usize, b: usize) -> usize {
    if a < b {
        0
    } else {
        (a - b) as usize
    }
}

/// The largest `k` with `2^k <= n`, for positive `n`.
pub open spec fn floor_log2(n: nat) -> nat
    decreases n,
{
    if n <= 1 {
        0
    } else {
        1 + floor_log2(n / 2)
    }
}

/// `a * b`, clamped to `usize::MAX`, as `usize::saturating_mul` computes it.
pub fn saturating_mul(a: usize, b: usize) -> (r: usize)
    ensures
        r == sat_mul(a, b),
{
    match a.checked_mul(b) {
        Some(v) => v,
        None => usize::MAX,
    }
}

/// `floor(log2(n))` for a positive `n`, as `usize::ilog2` computes it.
pub fn ilog2(n: usize) -> (r: usize)
    requires
        n >= 1,
    ensures
        r == floor_log2(n as nat),
{
    let mut v = n;
    let mut k: usize = 0;
    while v > 1
        invariant
            v >= 1,
            k + floor_log2(v as nat) == floor_log2(n as nat),
            k + v <= n,
        decreases v,
    {
        v = v / 2;
        k = k + 1;
    }
    k
}

} // verus!
