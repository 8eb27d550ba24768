//! Pixel angles in milli-degrees, computed in pure integer arithmetic.
//!
//! A pixel at column `x`, scanline `y` is assigned the clockwise-from-top
//! query angle `180 - atan2(x, y)` in degrees, where `atan2(x, y)` is the
//! angle whose sine is proportional to `x` and cosine to `y` — angle zero
//! points toward positive `y` (the bottom of the raster), so the query runs
//! clockwise starting at twelve o'clock. Angles are approximated in units of
//! one thousandth of a degree by octant reduction and the quadratic
//! `atan(z) ~= 45*z + 15.64*z*(1 - z)` degrees for `z` in `[0, 1]`, which is
//! exact at the octant boundaries. A positive first octant fraction never
//! rounds down to zero, so the sign of the result always matches the sign of
//! `x`.

use vstd::prelude::*;
use vstd::arithmetic::div_mod::lemma_basic_div;
use vstd::arithmetic::div_mod::lemma_div_is_ordered;
use vstd::arithmetic::div_mod::lemma_div_multiples_vanish_fancy;
use vstd::arithmetic::div_mod::lemma_div_pos_is_pos;

verus! {

/// The rounded quadratic approximation of `atan(n/d)` in milli-degrees,
/// before the positivity clamp: `round((45000*n*d + 15640*n*(d-n)) / (d*d))`.
pub open spec fn atan_frac_raw(n: int, d: int) -> int {
    (90000 * n * d + 31280 * n * (d - n) + d * d) / (2 * (d * d))
}

/// Approximation of `atan(n/d)` in milli-degrees for `0 <= n <= d`, clamped
/// away from zero for positive fractions so that octant signs stay exact.
pub open spec fn atan_frac(n: int, d: int) -> int {
    let v = atan_frac_raw(n, d);
    if n > 0 && v == 0 {
        1
    } else {
        v
    }
}

/// Approximation of `atan2(x, y)` in milli-degrees for `x >= 1`: the octant
/// reduction of the first-octant approximation to the right half plane.
pub open spec fn pos_atan2(x: int, y: int) -> int {
    if y > 0 {
        if x <= y {
            atan_frac(x, y)
        } else {
            90000 - atan_frac(y, x)
        }
    } else if y == 0 {
        90000
    } else {
        if x <= -y {
            180000 - atan_frac(x, -y)
        } else {
            90000 + atan_frac(-y, x)
        }
    }
}

/// Approximation of `atan2(x, y)` in milli-degrees, in `(-180000, 180000]`,
/// with angle zero toward positive `y` and positive angles at positive `x`.
pub open spec fn atan2_milli(x: int, y: int) -> int {
    if x > 0 {
        pos_atan2(x, y)
    } else if x < 0 {
        -pos_atan2(-x, y)
    } else if y < 0 {
        180000
    } else {
        0
    }
}

/// The clockwise-from-top query angle of the pixel at column `x` on scanline
/// `y`, in milli-degrees.
pub open spec fn query_spec(x: int, y: int) -> int {
    180000 - atan2_milli(x, y)
}

/// Range facts for the first-octant approximation: it stays within the
/// octant, is exact at both octant boundaries, and is positive for positive
/// fractions.
pub proof fn lemma_atan_frac_range(n: int, d: int)
    requires
        0 <= n <= d,
        1 <= d,
    ensures
        0 <= atan_frac(n, d) <= 45000,
        n == 0 ==> atan_frac(n, d) == 0,
        n > 0 ==> atan_frac(n, d) >= 1,
        n == d ==> atan_frac(n, d) == 45000,
        0 <= atan_frac_raw(n, d) <= 45000,
{
    let num = 90000 * n * d + 31280 * n * (d - n) + d * d;
    let den = 2 * (d * d);
    assert(0 < d * d && num <= 45000 * den + d * d && d * d < den && 0 <= num)
        by (nonlinear_arith)
        requires
            0 <= n <= d,
            1 <= d,
            num == 90000 * n * d + 31280 * n * (d - n) + d * d,
            den == 2 * (d * d),
    ;
    lemma_div_is_ordered(num, 45000 * den + (d * d), den);
    lemma_div_multiples_vanish_fancy(45000, d * d, den);
    assert((den * 45000 + d * d) / den == 45000);
    assert(45000 * den + d * d == den * 45000 + d * d);
    assert(num / den <= 45000);
    lemma_div_pos_is_pos(num, den);
    if n == 0 {
        assert(num == d * d) by (nonlinear_arith)
            requires
                num == 90000 * n * d + 31280 * n * (d - n) + d * d,
                n == 0,
        ;
        lemma_basic_div(num, den);
    }
    if n == d {
        assert(num == den * 45000 + d * d) by (nonlinear_arith)
            requires
                num == 90000 * n * d + 31280 * n * (d - n) + d * d,
                den == 2 * (d * d),
                n == d,
        ;
        lemma_div_multiples_vanish_fancy(45000, d * d, den);
    }
}

/// Range facts for the right-half-plane angle: for `x >= 1` it lies strictly
/// inside `(0, 180000)`.
pub proof fn lemma_pos_atan2_range(x: int, y: int)
    requires
        1 <= x,
    ensures
        1 <= pos_atan2(x, y) <= 179999,
{
    if y > 0 {
        if x <= y {
            lemma_atan_frac_range(x, y);
        } else {
            lemma_atan_frac_range(y, x);
        }
    } else if y < 0 {
        if x <= -y {
            lemma_atan_frac_range(x, -y);
        } else {
            lemma_atan_frac_range(-y, x);
        }
    }
}

/// The query angle of every pixel lies in `[0, 360000)`; pixels in the right
/// half of the raster (including the centre column at and below centre) query
/// at most a half turn, pixels strictly left of centre query more.
pub proof fn lemma_query_range(x: int, y: int)
    ensures
        0 <= query_spec(x, y) <= 359999,
        x >= 0 ==> query_spec(x, y) <= 180000,
        x < 0 ==> query_spec(x, y) >= 180001,
{
    if x > 0 {
        lemma_pos_atan2_range(x, y);
    } else if x < 0 {
        lemma_pos_atan2_range(-x, y);
    }
}

/// Computes `atan_frac(n, d)`.
fn atan_frac_exec(n: u64, d: u64) -> (r: u32)
    requires
        0 < d <= 0x200_0000,
        n <= d,
    ensures
        r as int == atan_frac(n as int, d as int),
        r <= 45000,
{
    proof {
        lemma_atan_frac_range(n as int, d as int);
        assert(1 <= (d as int) * (d as int)
            && 90000 * (n as int) * (d as int) + 31280 * (n as int) * ((d as int) - (n as int))
            + (d as int) * (d as int) <= 0x200_0000_0000_0000_0000) by (nonlinear_arith)
            requires
                0 <= n as int <= d as int,
                1 <= d as int <= 0x200_0000,
        ;
    }
    let nw = n as u128;
    let dw = d as u128;
    let num: u128 = 90000 * nw * dw + 31280 * nw * (dw - nw) + dw * dw;
    let den: u128 = 2 * (dw * dw);
    let v: u128 = num / den;
    proof {
        assert(v as int == atan_frac_raw(n as int, d as int));
    }
    if n > 0 && v == 0 {
        1
    } else {
        v as u32
    }
}

/// Computes `atan2_milli(x, y)`.
pub fn atan2_milli_exec(x: i64, y: i64) -> (r: i64)
    requires
        -0x200_0000 <= x <= 0x200_0000,
        -0x200_0000 <= y <= 0x200_0000,
    ensures
        r as int == atan2_milli(x as int, y as int),
        -179999 <= r <= 180000,
{
    proof {
        if x > 0 {
            lemma_pos_atan2_range(x as int, y as int);
        } else if x < 0 {
            lemma_pos_atan2_range(-x as int, y as int);
        }
    }
    if x == 0 {
        if y < 0 {
            180000
        } else {
            0
        }
    } else {
        let px: i64 = if x > 0 {
            x
        } else {
            -x
        };
        let pos: i64 = if y > 0 {
            if px <= y {
                atan_frac_exec(px as u64, y as u64) as i64
            } else {
                90000 - atan_frac_exec(y as u64, px as u64) as i64
            }
        } else if y == 0 {
            90000
        } else {
            let my: i64 = -y;
            if px <= my {
                180000 - atan_frac_exec(px as u64, my as u64) as i64
            } else {
                90000 + atan_frac_exec(my as u64, px as u64) as i64
            }
        };
        if x > 0 {
            pos
        } else {
            -pos
        }
    }
}

/// Computes `query_spec(x, y)`.
pub fn query_exec(x: i64, y: i64) -> (q: u32)
    requires
        -0x200_0000 <= x <= 0x200_0000,
        -0x200_0000 <= y <= 0x200_0000,
    ensures
        q as int == query_spec(x as int, y as int),
        q <= 359999,
{
    proof {
        lemma_query_range(x as int, y as int);
    }
    let a = atan2_milli_exec(x, y);
    (180000 - a) as u32
}

} // verus!
