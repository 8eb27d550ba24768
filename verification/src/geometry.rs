//! Scanline geometry: the half-width of the (aspect-stretched) circle at each
//! scanline, computed as an exactly rounded integer square root.
//!
//! For radius `R`, aspect ratio `A` and scanline `y`, the half-width is
//! `round(sqrt(A) * sqrt(R^2 - y^2)) == round(sqrt(A * (R^2 - y^2)))`, which
//! is computed here without floating point: `round(sqrt(n))` is the unique
//! `w >= 0` with `w*w - w < n <= w*w + w` (and `w == 0` for `n == 0`), since
//! `sqrt` of a non-square integer is irrational and so never a half-integer.

use vstd::prelude::*;

verus! {

/// Helper for `rsqrt`: the smallest `w' >= w` with `n <= w'*w' + w'`.
pub open spec fn rsqrt_from(n: int, w: int) -> int
    decreases n - w,
{
    if n < 0 || w < 0 || n <= w * w + w {
        w
    } else {
        rsqrt_from(n, w + 1)
    }
}

/// The integer nearest to the real square root of `n`.
pub open spec fn rsqrt(n: int) -> int {
    rsqrt_from(n, 0)
}

/// `w` is the correctly rounded square root of `n`.
pub open spec fn is_rounded_sqrt(n: int, w: int) -> bool {
    if n == 0 {
        w == 0
    } else {
        0 <= w && w * w - w < n <= w * w + w
    }
}

proof fn lemma_rsqrt_from_characterizes(n: int, w: int)
    requires
        0 <= w,
        w * w - w < n,
    ensures
        ({
            let r = rsqrt_from(n, w);
            &&& w <= r
            &&& r * r - r < n <= r * r + r
        }),
    decreases n - w,
{
    if n <= w * w + w {
    } else {
        assert((w + 1) * (w + 1) - (w + 1) == w * w + w) by (nonlinear_arith);
        lemma_rsqrt_from_characterizes(n, w + 1);
    }
}

/// `rsqrt(n)` satisfies the rounding characterization.
pub proof fn lemma_rsqrt_is_rounded(n: int)
    requires
        0 <= n,
    ensures
        is_rounded_sqrt(n, rsqrt(n)),
{
    if n == 0 {
    } else {
        lemma_rsqrt_from_characterizes(n, 0);
    }
}

/// Rounded square roots are monotone in the radicand.
pub proof fn lemma_rsqrt_monotone(n1: int, n2: int)
    requires
        0 <= n1 <= n2,
    ensures
        rsqrt(n1) <= rsqrt(n2),
{
    lemma_rsqrt_is_rounded(n1);
    lemma_rsqrt_is_rounded(n2);
    let w1 = rsqrt(n1);
    let w2 = rsqrt(n2);
    if n1 == 0 {
        if n2 == 0 {
        } else {
            assert(w2 >= 0);
        }
    } else if w1 > w2 {
        assert(false) by (nonlinear_arith)
            requires
                0 <= w2 < w1,
                w1 * w1 - w1 < n1,
                n2 <= w2 * w2 + w2,
                n1 <= n2,
        ;
    }
}

/// An upper bound on the root from an upper bound on the radicand.
pub proof fn lemma_rsqrt_bound(n: int, b: int)
    requires
        0 <= n,
        0 <= b,
        n <= b * b,
    ensures
        rsqrt(n) <= b,
{
    lemma_rsqrt_is_rounded(n);
    let w = rsqrt(n);
    if n > 0 && w > b {
        assert(false) by (nonlinear_arith)
            requires
                0 <= b < w,
                w * w - w < n,
                n <= b * b,
        ;
    }
}

/// Computes `rsqrt(n)` for radicands up to `2^48` by searching upward from
/// zero; the root is at most `2^24 + 1`, so the search stays small.
pub fn rsqrt_exec(n: u64) -> (w: u64)
    requires
        n <= 0x1_0000_0000_0000,
    ensures
        w == rsqrt(n as int),
        w <= 0x100_0001,
{
    proof {
        lemma_rsqrt_is_rounded(n as int);
        lemma_rsqrt_bound(n as int, 0x100_0000);
    }
    if n == 0 {
        return 0;
    }
    let mut w: u64 = 0;
    loop
        invariant
            n <= 0x1_0000_0000_0000,
            0 <= w <= 0x100_0001,
            (w as int) * (w as int) - (w as int) < n as int,
            rsqrt(n as int) == rsqrt_from(n as int, w as int),
            rsqrt(n as int) <= 0x100_0000,
        decreases n as int - w as int,
    {
        if n <= w * w + w {
            proof {
                assert(rsqrt_from(n as int, w as int) == w as int);
            }
            return w;
        }
        proof {
            assert(rsqrt_from(n as int, w as int) == rsqrt_from(n as int, w as int + 1));
            lemma_rsqrt_from_characterizes(n as int, w as int);
            assert((w as int) + 1 <= rsqrt_from(n as int, w as int));
        }
        w = w + 1;
    }
}

/// Half-width of the rendered ellipse on scanline `y`, for a circle of the
/// given radius stretched horizontally by the square root of `aspect`.
pub open spec fn width_spec(radius: int, aspect: int, y: int) -> int {
    rsqrt(aspect * (radius * radius - y * y))
}

/// Computes `width_spec(radius, aspect, y)`.
pub fn calculate_width(radius: u16, aspect: u16, y: i64) -> (w: u32)
    requires
        -(radius as int) <= y as int <= radius as int,
    ensures
        w == width_spec(radius as int, aspect as int, y as int),
        w <= 0x100_0001,
{
    let r = radius as i64;
    proof {
        assert(0 <= (r as int) * (r as int) <= 0xffff * 0xffff
            && 0 <= (y as int) * (y as int) <= (r as int) * (r as int)) by (nonlinear_arith)
            requires
                -(r as int) <= y as int <= r as int,
                0 <= r as int <= 0xffff,
        ;
    }
    let sq: i64 = r * r - y * y;
    proof {
        assert((aspect as int) * (sq as int) <= 0x1_0000_0000_0000) by (nonlinear_arith)
            requires
                0 <= sq as int <= 0xffff * 0xffff,
                0 <= aspect as int <= 0xffff,
        ;
        assert(0 <= (aspect as int) * (sq as int)) by (nonlinear_arith)
            requires
                0 <= sq as int,
                0 <= aspect as int,
        ;
    }
    let n: u64 = (aspect as u64) * (sq as u64);
    let w = rsqrt_exec(n);
    w as u32
}

/// The shape is vertically symmetric: the half-width on scanline `y` equals
/// the half-width on scanline `-y`.
pub proof fn lemma_width_symmetric(radius: int, aspect: int, y: int)
    ensures
        width_spec(radius, aspect, y) == width_spec(radius, aspect, -y),
{
    assert(y * y == (-y) * (-y)) by (nonlinear_arith);
}

/// No scanline is wider than the center scanline (`y == 0`), whose half-width
/// serves as the common center column for alignment.
pub proof fn lemma_width_at_most_center(radius: int, aspect: int, y: int)
    requires
        0 <= aspect,
        -radius <= y <= radius,
    ensures
        width_spec(radius, aspect, y) <= width_spec(radius, aspect, 0),
        0 <= width_spec(radius, aspect, y),
{
    assert(0 <= aspect * (radius * radius - y * y) <= aspect * (radius * radius - 0 * 0))
        by (nonlinear_arith)
        requires
            0 <= aspect,
            -radius <= y <= radius,
    ;
    lemma_rsqrt_monotone(aspect * (radius * radius - y * y), aspect * (radius * radius - 0 * 0));
    lemma_rsqrt_is_rounded(aspect * (radius * radius - y * y));
}

} // verus!
