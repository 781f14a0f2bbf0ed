use vstd::prelude::*;

verus! {

/// Fixed-point scale: the value `ONE` stands for 1.0.
pub const ONE: i64 = 1_000_000;

/// Number of marching steps along each ray; a step is `1 / STEPS` of the unit square.
pub const STEPS: i64 = 1024;

/// Fine scale used while marching: `FINE` stands for 1.0.
pub const FINE: i64 = 1_024_000_000;

/// Angles are measured in millidegrees; a full turn.
pub const TURN: i64 = 360_000;

/// Largest accepted screen dimension, ray count and occluder-layer dimension.
pub const MAX_DIM: u32 = 16384;

/// `v` clamped into `[lo, hi]`.
pub open spec fn clamp(v: int, lo: int, hi: int) -> int {
    if v < lo {
        lo
    } else if v > hi {
        hi
    } else {
        v
    }
}

/// `r` is the integer square root of `n`.
pub open spec fn is_root(r: int, n: int) -> bool {
    0 <= r && r * r <= n && n < (r + 1) * (r + 1)
}

/// The integer square root of `n` (the largest `r` with `r * r <= n`).
pub open spec fn sqrt_floor(n: int) -> int {
    choose|r: int| is_root(r, n)
}

proof fn lemma_root_unique(r: int, s: int, n: int)
    requires
        is_root(r, n),
        is_root(s, n),
    ensures
        r == s,
{
    if r < s {
        assert((r + 1) * (r + 1) <= s * s) by (nonlinear_arith)
            requires
                0 <= r,
                r + 1 <= s,
        ;
    } else if s < r {
        assert((s + 1) * (s + 1) <= r * r) by (nonlinear_arith)
            requires
                0 <= s,
                s + 1 <= r,
        ;
    }
}

/// Any root found is the root.
pub proof fn lemma_sqrt_floor(r: int, n: int)
    requires
        is_root(r, n),
    ensures
        sqrt_floor(n) == r,
{
    assert(is_root(sqrt_floor(n), n));
    lemma_root_unique(sqrt_floor(n), r, n);
}

/// Integer square root by bisection.
pub fn isqrt(n: u64) -> (r: u64)
    ensures
        is_root(r as int, n as int),
        r as int == sqrt_floor(n as int),
{
    let mut lo: u64 = 0;
    let mut hi: u64 = 0x1_0000_0000;
    assert(n < 0x1_0000_0000 * 0x1_0000_0000);
    while hi - lo > 1
        invariant
            lo < hi <= 0x1_0000_0000,
            lo * lo <= n,
            n < hi * hi,
        decreases hi - lo,
    {
        let mid: u64 = lo + (hi - lo) / 2;
        assert(mid * mid < 0x1_0000_0000 * 0x1_0000_0000) by (nonlinear_arith)
            requires
                mid < 0x1_0000_0000,
        ;
        if mid * mid <= n {
            lo = mid;
        } else {
            hi = mid;
        }
    }
    assert(hi == lo + 1);
    proof {
        lemma_sqrt_floor(lo as int, n as int);
    }
    lo
}

} // verus!

verus! {

/// A point in fixed-point normalized coordinates, origin at the bottom-left.
#[derive(Clone, Copy, Debug, PartialEq, Eq, Structural)]
pub struct Point {
    pub x: i64,
    pub y: i64,
}

impl Point {
    /// The point lies in the closed unit square.
    pub open spec fn in_unit(self) -> bool {
        0 <= self.x <= ONE && 0 <= self.y <= ONE
    }
}

} // verus!
