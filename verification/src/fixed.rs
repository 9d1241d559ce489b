//! Exact fixed-point scalar arithmetic.
//!
//! Every scalar quantity of the scene (a coordinate, a speed, an angle in
//! degrees, a time step) is carried as a signed integer holding the value
//! times [`SCALE`]. All arithmetic on such scalars is exact integer work:
//! products are rescaled by a truncating division, so each operation is a
//! total mathematical function of its operands and every result is
//! reproducible bit for bit.

use vstd::prelude::*;
use vstd::arithmetic::div_mod::*;

verus! {

/// One whole unit, as a fixed-point integer: values carry 16 fractional bits.
pub const SCALE: i128 = 65536;

/// Magnitude bound accepted by the arithmetic helpers; large enough for any
/// scene quantity, small enough that every intermediate product fits `i128`.
pub const FX_LIMIT: i128 = 0x400_0000_0000_0000;

/// Absolute value of a mathematical integer.
pub open spec fn iabs(a: int) -> int {
    if a >= 0 {
        a
    } else {
        -a
    }
}

/// Quotient of `p` by a positive `d`, rounded toward zero.
pub open spec fn trunc_div(p: int, d: int) -> int
    recommends
        d > 0,
{
    if p >= 0 {
        p / d
    } else {
        -((-p) / d)
    }
}

/// The fixed-point product: `a * b` rescaled by `SCALE`, rounded toward zero.
pub open spec fn mul_fx(a: int, b: int) -> int {
    trunc_div(a * b, SCALE as int)
}

/// Truncating division never grows the magnitude of the dividend's quotient.
pub proof fn lemma_trunc_div_bound(p: int, bound: int, d: int)
    requires
        d > 0,
        iabs(p) <= bound,
    ensures
        iabs(trunc_div(p, d)) <= bound / d,
        iabs(trunc_div(p, d)) <= bound,
{
    if p >= 0 {
        lemma_div_is_ordered(p, bound, d);
        lemma_div_nonincreasing(p, d);
        lemma_div_pos_is_pos(p, d);
        lemma_div_pos_is_pos(bound, d);
    } else {
        lemma_div_is_ordered(-p, bound, d);
        lemma_div_nonincreasing(-p, d);
        lemma_div_pos_is_pos(-p, d);
        lemma_div_pos_is_pos(bound, d);
    }
}

/// The magnitude of a product is the product of the magnitudes.
pub proof fn lemma_iabs_mul(a: int, b: int)
    ensures
        iabs(a * b) == iabs(a) * iabs(b),
{
    assert(iabs(a * b) == iabs(a) * iabs(b)) by (nonlinear_arith);
}

/// Bound on a fixed-point product from bounds on its operands.
pub proof fn lemma_mul_fx_bound(a: int, b: int, ba: int, bb: int)
    requires
        iabs(a) <= ba,
        iabs(b) <= bb,
    ensures
        iabs(mul_fx(a, b)) <= (ba * bb) / (SCALE as int),
{
    lemma_iabs_mul(a, b);
    assert(iabs(a) * iabs(b) <= ba * bb) by (nonlinear_arith)
        requires
            0 <= iabs(a) <= ba,
            0 <= iabs(b) <= bb,
    ;
    lemma_trunc_div_bound(a * b, ba * bb, SCALE as int);
}

/// Fixed-point multiplication, exact per [`mul_fx`].
pub fn fx_mul(a: i128, b: i128) -> (r: i128)
    requires
        iabs(a as int) <= FX_LIMIT as int,
        iabs(b as int) <= FX_LIMIT as int,
    ensures
        r == mul_fx(a as int, b as int),
{
    let neg: bool = (a < 0) != (b < 0);
    let ua: u128 = if a >= 0 {
        a as u128
    } else {
        (-a) as u128
    };
    let ub: u128 = if b >= 0 {
        b as u128
    } else {
        (-b) as u128
    };
    proof {
        assert(ua == iabs(a as int));
        assert(ub == iabs(b as int));
        assert(ua * ub <= (FX_LIMIT as int) * (FX_LIMIT as int)) by (nonlinear_arith)
            requires
                0 <= ua <= FX_LIMIT as int,
                0 <= ub <= FX_LIMIT as int,
        ;
    }
    let p: u128 = ua * ub;
    let q: u128 = p / 65536;
    proof {
        lemma_iabs_mul(a as int, b as int);
        lemma_div_is_ordered(p as int, (FX_LIMIT as int) * (FX_LIMIT as int), 65536);
        assert((FX_LIMIT as int) * (FX_LIMIT as int) / 65536 < i128::MAX) by (nonlinear_arith);
        lemma_div_pos_is_pos(p as int, 65536);
    }
    let qi: i128 = q as i128;
    proof {
        assert(p as int == iabs((a as int) * (b as int)));
        if neg {
            assert((a as int) * (b as int) <= 0) by (nonlinear_arith)
                requires
                    (a < 0) != (b < 0),
            ;
        } else {
            assert((a as int) * (b as int) >= 0) by (nonlinear_arith)
                requires
                    (a < 0) == (b < 0),
            ;
        }
        if (a as int) * (b as int) == 0 {
            assert(q == 0);
        }
    }
    if neg {
        -qi
    } else {
        qi
    }
}

/// Truncating division of a fixed-point value by a positive divisor.
pub fn fx_div_trunc(a: i128, d: i128) -> (r: i128)
    requires
        iabs(a as int) <= FX_LIMIT as int,
        0 < d <= FX_LIMIT,
    ensures
        r == trunc_div(a as int, d as int),
{
    let ua: u128 = if a >= 0 {
        a as u128
    } else {
        (-a) as u128
    };
    let q: u128 = ua / (d as u128);
    proof {
        assert(ua == iabs(a as int));
        lemma_div_is_ordered(q as int, ua as int, 1);
        lemma_div_nonincreasing(ua as int, d as int);
        lemma_div_pos_is_pos(ua as int, d as int);
    }
    let qi: i128 = q as i128;
    if a >= 0 {
        qi
    } else {
        -qi
    }
}

/// Truncating division with a wide unsigned divisor (used when dividing a
/// cross-product component by the vector's length).
pub fn fx_div_wide(a: i128, d: u128) -> (r: i128)
    requires
        -(i128::MAX as int) <= a as int,
        0 < d,
    ensures
        r == trunc_div(a as int, d as int),
{
    let ua: u128 = if a >= 0 {
        a as u128
    } else {
        (-a) as u128
    };
    let q: u128 = ua / d;
    proof {
        assert(ua == iabs(a as int));
        lemma_div_nonincreasing(ua as int, d as int);
        lemma_div_pos_is_pos(ua as int, d as int);
    }
    let qi: i128 = q as i128;
    if a >= 0 {
        qi
    } else {
        -qi
    }
}

/// Floor division of a fixed-point value by `SCALE`, with the remainder:
/// the lattice cell a coordinate falls in, and the offset within the cell.
pub fn fx_floor_scale(a: i128) -> (r: (i128, i128))
    requires
        iabs(a as int) <= FX_LIMIT as int,
    ensures
        r.0 == (a as int) / (SCALE as int),
        r.1 == a as int - (SCALE as int) * r.0,
        0 <= r.1 < SCALE,
{
    if a >= 0 {
        let ua: u128 = a as u128;
        let q: u128 = ua / 65536;
        let rem: u128 = ua % 65536;
        proof {
            lemma_fundamental_div_mod(ua as int, 65536);
            lemma_div_nonincreasing(ua as int, 65536);
            lemma_div_pos_is_pos(ua as int, 65536);
            lemma_mod_bound(ua as int, 65536);
        }
        (q as i128, rem as i128)
    } else {
        let m: u128 = (-a) as u128;
        let qm: u128 = (m + 65535) / 65536;
        proof {
            lemma_fundamental_div_mod((m + 65535) as int, 65536);
            lemma_div_pos_is_pos((m + 65535) as int, 65536);
            lemma_div_is_ordered((m + 65535) as int, (FX_LIMIT as int) + 65535, 65536);
            assert(((FX_LIMIT as int) + 65535) / 65536 < i128::MAX) by (nonlinear_arith);
        }
        let q: i128 = -(qm as i128);
        let rem: i128 = a - 65536 * q;
        proof {
            // qm is the ceiling of m / SCALE, so rem lies in [0, SCALE).
            lemma_mod_bound((m + 65535) as int, 65536);
            lemma_fundamental_div_mod_converse(a as int, 65536, q as int, rem as int);
        }
        (q, rem)
    }
}

/// `r` is the integer square root of `n`.
pub open spec fn is_isqrt(n: int, r: int) -> bool {
    0 <= r && r * r <= n && n < (r + 1) * (r + 1)
}

/// The integer square root, as a mathematical function.
pub open spec fn sqrt_of(n: int) -> int {
    choose|r: int| is_isqrt(n, r)
}

/// Every nonnegative integer has an integer square root.
pub proof fn lemma_isqrt_exists(n: int)
    requires
        n >= 0,
    ensures
        is_isqrt(n, sqrt_of(n)),
    decreases n,
{
    if n == 0 {
        assert(is_isqrt(0, 0));
    } else {
        lemma_isqrt_exists(n - 1);
        let r = sqrt_of(n - 1);
        if (r + 1) * (r + 1) <= n {
            assert(is_isqrt(n, r + 1)) by (nonlinear_arith)
                requires
                    is_isqrt(n - 1, r),
                    (r + 1) * (r + 1) <= n,
            ;
        } else {
            assert(is_isqrt(n, r));
        }
    }
}

/// The integer square root is unique.
pub proof fn lemma_isqrt_unique(n: int, r1: int, r2: int)
    requires
        is_isqrt(n, r1),
        is_isqrt(n, r2),
    ensures
        r1 == r2,
{
    assert(r1 == r2) by (nonlinear_arith)
        requires
            is_isqrt(n, r1),
            is_isqrt(n, r2),
    ;
}

/// Integer square root by bisection.
pub fn isqrt_u128(n: u128) -> (r: u128)
    ensures
        is_isqrt(n as int, r as int),
        r as int == sqrt_of(n as int),
{
    let mut lo: u128 = 0;
    let mut hi: u128 = 0xFFFF_FFFF_FFFF_FFFF;
    proof {
        assert((0xFFFF_FFFF_FFFF_FFFFu128 as int + 1) * (0xFFFF_FFFF_FFFF_FFFFu128 as int + 1)
            == 0x1_0000_0000_0000_0000_0000_0000_0000_0000int) by (nonlinear_arith);
    }
    while lo < hi
        invariant
            lo <= hi,
            hi <= 0xFFFF_FFFF_FFFF_FFFF,
            (lo as int) * (lo as int) <= n as int,
            (n as int) < (hi as int + 1) * (hi as int + 1),
        decreases hi - lo,
    {
        let mid: u128 = lo + (hi - lo + 1) / 2;
        proof {
            assert(lo < mid <= hi);
            assert((mid as int) * (mid as int) <= u128::MAX) by (nonlinear_arith)
                requires
                    0 <= mid as int <= 0xFFFF_FFFF_FFFF_FFFFu128 as int,
            ;
        }
        let sq: u128 = mid * mid;
        if sq <= n {
            lo = mid;
        } else {
            hi = mid - 1;
        }
    }
    proof {
        lemma_isqrt_exists(n as int);
        lemma_isqrt_unique(n as int, lo as int, sqrt_of(n as int));
    }
    lo
}

} // verus!
