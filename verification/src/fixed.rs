//! Fixed-point numeric base: world positions, floor division and remainder,
//! height clamping and an integer square root.

use vstd::prelude::*;

verus! {

use crate::FRAC;

/// Heights are kept inside `[-HEIGHT_LIMIT, HEIGHT_LIMIT]`; every write
/// clamps into this range so that field arithmetic can never overflow.
pub const HEIGHT_LIMIT: i64 = 0x1000_0000_0000;

/// Largest magnitude a single `modify` delta may carry.
pub const DELTA_LIMIT: i64 = 0x1_0000_0000;

/// Largest magnitude of a world-position component, in subpixel units.
pub const POS_LIMIT: i64 = 0x100_0000_0000;

/// Largest magnitude of an integer cell coordinate.
pub const CELL_LIMIT: i64 = 0x10_0000_0000;

/// A world-space position in fixed point: `FRAC` subpixel units per cell.
#[derive(Clone, Copy, PartialEq, Eq, Structural, Debug)]
pub struct Pos {
    pub x: i64,
    pub y: i64,
}

impl Pos {
    /// Both components within the supported world range.
    pub open spec fn in_range(self) -> bool {
        -POS_LIMIT <= self.x <= POS_LIMIT && -POS_LIMIT <= self.y <= POS_LIMIT
    }

    /// Cell column containing this position (floor of `x / FRAC`).
    pub open spec fn cell_x(self) -> int {
        self.x as int / FRAC as int
    }

    /// Cell row containing this position (floor of `y / FRAC`).
    pub open spec fn cell_y(self) -> int {
        self.y as int / FRAC as int
    }

    /// Subpixel offset along x, always in `[0, FRAC)`.
    pub open spec fn frac_x(self) -> int {
        self.x as int % FRAC as int
    }

    /// Subpixel offset along y, always in `[0, FRAC)`.
    pub open spec fn frac_y(self) -> int {
        self.y as int % FRAC as int
    }

    /// True when the position lies exactly on the integer lattice.
    pub open spec fn is_lattice(self) -> bool {
        self.frac_x() == 0 && self.frac_y() == 0
    }

    /// In range with one cell of margin on every side, so the four
    /// cardinal neighbor positions used by the slope are in range too.
    pub open spec fn in_slope_range(self) -> bool {
        -(POS_LIMIT - FRAC) <= self.x <= POS_LIMIT - FRAC && -(POS_LIMIT - FRAC) <= self.y
            <= POS_LIMIT - FRAC
    }
}

/// Floor division by a positive divisor (Euclidean quotient).
pub fn floor_div(a: i64, b: i64) -> (r: i64)
    requires
        b > 0,
        a > i64::MIN,
    ensures
        r == a as int / b as int,
{
    proof {
        lemma_floor_div_in_range(a as int, b as int);
    }
    match a.checked_div_euclid(b) {
        Some(q) => q,
        None => {
            proof {
                assert(false);
            }
            0
        },
    }
}

/// Euclidean remainder by a positive divisor, always in `[0, b)`.
pub fn floor_mod(a: i64, b: i64) -> (r: i64)
    requires
        b > 0,
        a > i64::MIN,
    ensures
        r == a as int % b as int,
        0 <= r < b,
{
    proof {
        lemma_mod_in_range(a as int, b as int);
    }
    match a.checked_rem_euclid(b) {
        Some(m) => m,
        None => {
            proof {
                assert(false);
            }
            0
        },
    }
}

/// The Euclidean quotient of a bounded dividend stays within its bounds.
pub proof fn lemma_floor_div_in_range(a: int, b: int)
    requires
        b > 0,
    ensures
        a < 0 ==> a <= a / b <= 0,
        a >= 0 ==> 0 <= a / b <= a,
        a == b * (a / b) + a % b,
        0 <= a % b < b,
{
    vstd::arithmetic::div_mod::lemma_fundamental_div_mod(a, b);
    lemma_mod_in_range(a, b);
    if a < 0 {
        assert(a <= a / b <= 0) by (nonlinear_arith)
            requires
                b > 0,
                a < 0,
                a == b * (a / b) + a % b,
                0 <= a % b < b,
        ;
    } else {
        assert(0 <= a / b <= a) by (nonlinear_arith)
            requires
                b > 0,
                a >= 0,
                a == b * (a / b) + a % b,
                0 <= a % b < b,
        ;
    }
}

/// The Euclidean remainder by a positive divisor lies in `[0, b)`.
pub proof fn lemma_mod_in_range(a: int, b: int)
    requires
        b > 0,
    ensures
        0 <= a % b < b,
{
    assert(0 <= a % b < b) by (nonlinear_arith)
        requires
            b > 0,
    ;
}

/// A product of a bounded nonnegative factor and a bounded factor is
/// bounded both by the factor bounds and by the first factor itself.
pub proof fn lemma_mul_bound(w: int, h: int, wm: int, hm: int)
    requires
        0 <= w <= wm,
        -hm <= h <= hm,
        0 <= hm,
    ensures
        -(wm * hm) <= w * h <= wm * hm,
        -(w * hm) <= w * h <= w * hm,
{
    assert(-(wm * hm) <= w * h <= wm * hm && -(w * hm) <= w * h <= w * hm) by (nonlinear_arith)
        requires
            0 <= w <= wm,
            -hm <= h <= hm,
            0 <= hm,
    ;
}

/// Height clamp: the value forced into `[-HEIGHT_LIMIT, HEIGHT_LIMIT]`.
pub open spec fn clamp_height(v: int) -> int {
    if v < -HEIGHT_LIMIT {
        -HEIGHT_LIMIT as int
    } else if v > HEIGHT_LIMIT {
        HEIGHT_LIMIT as int
    } else {
        v
    }
}

/// Clamp a height value into the supported range.
pub fn clamp_height_exec(v: i64) -> (r: i64)
    ensures
        r == clamp_height(v as int),
{
    if v < -HEIGHT_LIMIT {
        -HEIGHT_LIMIT
    } else if v > HEIGHT_LIMIT {
        HEIGHT_LIMIT
    } else {
        v
    }
}

/// The integer square root: the greatest `r` with `r * r <= n`.
pub open spec fn sqrt_floor(n: int) -> int
    recommends
        n >= 0,
{
    choose|r: int| 0 <= r && #[trigger] (r * r) <= n < (r + 1) * (r + 1)
}

/// Every nonnegative integer has an integer square root.
pub proof fn lemma_sqrt_floor_exists(n: int)
    requires
        n >= 0,
    ensures
        exists|r: int| 0 <= r && #[trigger] (r * r) <= n < (r + 1) * (r + 1),
    decreases n,
{
    if n == 0 {
        assert(0 <= 0int && 0int * 0int <= n < (0int + 1) * (0int + 1));
    } else {
        lemma_sqrt_floor_exists(n - 1);
        let r = choose|r: int| 0 <= r && #[trigger] (r * r) <= n - 1 < (r + 1) * (r + 1);
        if (r + 1) * (r + 1) <= n {
            assert(n == (r + 1) * (r + 1));
            assert((r + 2) * (r + 2) > (r + 1) * (r + 1)) by (nonlinear_arith)
                requires
                    r >= 0,
            ;
            assert(0 <= r + 1 && (r + 1) * (r + 1) <= n < ((r + 1) + 1) * ((r + 1) + 1));
        } else {
            assert(0 <= r && r * r <= n < (r + 1) * (r + 1));
        }
    }
}

/// The integer square root satisfies its defining inequalities.
pub proof fn lemma_sqrt_floor_bounds(n: int)
    requires
        n >= 0,
    ensures
        0 <= sqrt_floor(n),
        sqrt_floor(n) * sqrt_floor(n) <= n,
        n < (sqrt_floor(n) + 1) * (sqrt_floor(n) + 1),
{
    lemma_sqrt_floor_exists(n);
}

/// Two integer square roots of the same value are equal.
pub proof fn lemma_sqrt_floor_unique(n: int, r1: int, r2: int)
    requires
        0 <= r1,
        r1 * r1 <= n < (r1 + 1) * (r1 + 1),
        0 <= r2,
        r2 * r2 <= n < (r2 + 1) * (r2 + 1),
    ensures
        r1 == r2,
{
    assert(r1 == r2) by (nonlinear_arith)
        requires
            0 <= r1,
            r1 * r1 <= n < (r1 + 1) * (r1 + 1),
            0 <= r2,
            r2 * r2 <= n < (r2 + 1) * (r2 + 1),
    ;
}

/// Integer square root by bisection.
pub fn isqrt(n: u128) -> (r: u64)
    requires
        n < 0x4000_0000_0000_0000_0000_0000_0000_0000,
    ensures
        r * r <= n < (r + 1) * (r + 1),
        r == sqrt_floor(n as int),
{
    let mut lo: u128 = 0;
    let mut hi: u128 = 0x8000_0000_0000_0000;
    assert(n < hi * hi);
    while hi - lo > 1
        invariant
            lo < hi <= 0x8000_0000_0000_0000,
            lo * lo <= n,
            n < hi * hi,
        decreases hi - lo,
    {
        let mid = lo + (hi - lo) / 2;
        proof {
            assert(mid * mid <= 0x8000_0000_0000_0000 * 0x8000_0000_0000_0000)
                by (nonlinear_arith)
                requires
                    0 <= mid <= 0x8000_0000_0000_0000u128,
            ;
        }
        if mid * mid <= n {
            lo = mid;
        } else {
            hi = mid;
        }
    }
    proof {
        assert(hi == lo + 1);
        assert(exists|r: int| 0 <= r && #[trigger] (r * r) <= n < (r + 1) * (r + 1)) by {
            assert(0 <= lo as int && lo as int * lo as int <= n < (lo as int + 1) * (lo as int
                + 1));
        }
        lemma_sqrt_floor_unique(n as int, lo as int, sqrt_floor(n as int));
    }
    lo as u64
}

} // verus!
