//! A deterministic, bounded coherent noise field over fixed-point
//! coordinates.
//!
//! The terrain is displaced by a two-dimensional value-noise function: each
//! integer lattice cell corner gets a pseudo-random height from a hash of the
//! seed and the corner's coordinates, and points inside a cell interpolate
//! the four corner heights bilinearly with a smoothstep weight. The function
//! is a pure function of `(seed, x, z)`, continuous by construction across
//! cell boundaries, and its value always lies within one unit, i.e. within
//! `[-SCALE, SCALE]` in fixed-point form.

use vstd::prelude::*;
use vstd::arithmetic::div_mod::*;
use crate::fixed::{
    SCALE, FX_LIMIT, iabs, trunc_div, mul_fx, fx_mul, fx_floor_scale, lemma_trunc_div_bound,
    lemma_mul_fx_bound,
};

verus! {

/// One round of 64-bit avalanche mixing.
pub open spec fn spec_mix64(h: u64) -> u64 {
    let a = (h ^ (h >> 30u64)).wrapping_mul(0xBF58_476D_1CE4_E5B9u64);
    let b = (a ^ (a >> 27u64)).wrapping_mul(0x94D0_49BB_1331_11EBu64);
    b ^ (b >> 31u64)
}

fn mix64(h: u64) -> (r: u64)
    ensures
        r == spec_mix64(h),
{
    let a: u64 = (h ^ (h >> 30u64)).wrapping_mul(0xBF58_476D_1CE4_E5B9u64);
    let b: u64 = (a ^ (a >> 27u64)).wrapping_mul(0x94D0_49BB_1331_11EBu64);
    b ^ (b >> 31u64)
}

/// Hash of one lattice corner: a function of the seed and the corner alone.
pub open spec fn spec_cell_hash(seed: u32, cx: i128, cz: i128) -> u64 {
    spec_mix64(spec_mix64(spec_mix64((seed as u64) ^ 0x9E37_79B9_7F4A_7C15u64) ^ (cx as u64)) ^ (
    cz as u64))
}

fn cell_hash(seed: u32, cx: i128, cz: i128) -> (r: u64)
    ensures
        r == spec_cell_hash(seed, cx, cz),
{
    let h0: u64 = mix64((seed as u64) ^ 0x9E37_79B9_7F4A_7C15u64);
    let h1: u64 = mix64(h0 ^ (cx as u64));
    mix64(h1 ^ (cz as u64))
}

/// The pseudo-random height of a lattice corner, in `[-SCALE, SCALE]`.
pub open spec fn spec_corner(seed: u32, cx: i128, cz: i128) -> int {
    (spec_cell_hash(seed, cx, cz) % 131073u64) as int - 65536
}

fn corner(seed: u32, cx: i128, cz: i128) -> (r: i128)
    ensures
        r as int == spec_corner(seed, cx, cz),
        -SCALE <= r <= SCALE,
{
    let h: u64 = cell_hash(seed, cx, cz);
    let m: u64 = h % 131073;
    (m as i128) - 65536
}

/// The smoothstep weight `3t^2 - 2t^3` over fixed-point `t` in `[0, SCALE]`.
pub open spec fn spec_fade(t: int) -> int {
    mul_fx(mul_fx(t, t), 3 * (SCALE as int) - 2 * t)
}

/// The smoothstep weight stays within `[0, SCALE]`.
pub proof fn lemma_fade_range(t: int)
    requires
        0 <= t <= SCALE as int,
    ensures
        0 <= spec_fade(t) <= SCALE as int,
{
    let s = SCALE as int;
    let a = trunc_div(t * t, s);
    let b = 3 * s - 2 * t;
    assert(0 <= t * t) by (nonlinear_arith)
        requires
            0 <= t,
    ;
    lemma_div_pos_is_pos(t * t, s);
    assert(a == (t * t) / s);
    // s * a <= t * t, so a * b <= (t * t * b) / s.
    lemma_fundamental_div_mod(t * t, s);
    assert(s * a <= t * t);
    assert(0 <= b);
    assert(s * (a * b) <= (t * t) * b) by (nonlinear_arith)
        requires
            s * a <= t * t,
            0 <= b,
            s == 65536,
    ;
    assert(0 <= a * b) by (nonlinear_arith)
        requires
            0 <= a,
            0 <= b,
    ;
    lemma_div_multiples_vanish(a * b, s);
    lemma_div_is_ordered(s * (a * b), (t * t) * b, s);
    assert(a * b <= ((t * t) * b) / s);
    // t * t * (3s - 2t) <= s^3 because (s - t)^2 * (s + 2t) >= 0.
    assert((t * t) * b <= s * s * s) by (nonlinear_arith)
        requires
            0 <= t <= s,
            b == 3 * s - 2 * t,
    ;
    lemma_div_is_ordered((t * t) * b, s * s * s, s);
    assert((s * s * s) / s == s * s) by (nonlinear_arith)
        requires
            s == 65536,
    ;
    lemma_div_is_ordered(a * b, s * s, s);
    assert((s * s) / s == s) by (nonlinear_arith)
        requires
            s == 65536,
    ;
    lemma_div_pos_is_pos(a * b, s);
    assert(spec_fade(t) == (a * b) / s);
}

fn fade(t: i128) -> (r: i128)
    requires
        0 <= t <= SCALE,
    ensures
        r as int == spec_fade(t as int),
        0 <= r <= SCALE,
{
    proof {
        lemma_fade_range(t as int);
        assert(0 <= (t as int) * (t as int) <= (SCALE as int) * (SCALE as int)) by (nonlinear_arith)
            requires
                0 <= t as int <= SCALE as int,
        ;
        lemma_trunc_div_bound((t as int) * (t as int), (SCALE as int) * (SCALE as int), SCALE as int);
        lemma_div_multiples_vanish(SCALE as int, SCALE as int);
    }
    let tt: i128 = fx_mul(t, t);
    fx_mul(tt, 3 * SCALE - 2 * t)
}

/// Linear interpolation from `a` to `b` with fixed-point weight `t`.
pub open spec fn spec_lerp(a: int, b: int, t: int) -> int {
    a + mul_fx(b - a, t)
}

/// Interpolation with a weight in `[0, SCALE]` stays between its endpoints.
pub proof fn lemma_lerp_range(a: int, b: int, t: int)
    requires
        0 <= t <= SCALE as int,
    ensures
        a <= b ==> a <= spec_lerp(a, b, t) <= b,
        b <= a ==> b <= spec_lerp(a, b, t) <= a,
{
    let s = SCALE as int;
    let d = b - a;
    let p = d * t;
    if d >= 0 {
        assert(0 <= p && p <= d * s) by (nonlinear_arith)
            requires
                p == d * t,
                0 <= d,
                0 <= t,
                t <= s,
        ;
        lemma_div_pos_is_pos(p, s);
        lemma_div_is_ordered(p, d * s, s);
        assert(d * s == s * d) by (nonlinear_arith);
        lemma_div_multiples_vanish(d, s);
        assert(0 <= trunc_div(p, s) <= d);
    } else {
        assert(0 <= -p && -p <= (-d) * s) by (nonlinear_arith)
            requires
                p == d * t,
                d < 0,
                0 <= t,
                t <= s,
        ;
        lemma_div_pos_is_pos(-p, s);
        lemma_div_is_ordered(-p, (-d) * s, s);
        assert((-d) * s == s * (-d)) by (nonlinear_arith);
        lemma_div_multiples_vanish(-d, s);
        assert(0 <= (-p) / s <= -d);
        assert(d <= trunc_div(p, s) <= 0);
    }
}

fn lerp(a: i128, b: i128, t: i128) -> (r: i128)
    requires
        -SCALE <= a <= SCALE,
        -SCALE <= b <= SCALE,
        0 <= t <= SCALE,
    ensures
        r as int == spec_lerp(a as int, b as int, t as int),
        -SCALE <= r <= SCALE,
{
    proof {
        lemma_lerp_range(a as int, b as int, t as int);
        lemma_mul_fx_bound(b as int - a as int, t as int, 2 * SCALE as int, SCALE as int);
    }
    let m: i128 = fx_mul(b - a, t);
    a + m
}

/// The noise field: height of the point `(x, z)`, both fixed-point.
pub open spec fn spec_noise(seed: u32, x: i128, z: i128) -> int {
    let s = SCALE as int;
    let cx = (x as int) / s;
    let cz = (z as int) / s;
    let fx = (x as int) - s * cx;
    let fz = (z as int) - s * cz;
    let v00 = spec_corner(seed, cx as i128, cz as i128);
    let v10 = spec_corner(seed, (cx + 1) as i128, cz as i128);
    let v01 = spec_corner(seed, cx as i128, (cz + 1) as i128);
    let v11 = spec_corner(seed, (cx + 1) as i128, (cz + 1) as i128);
    let u = spec_fade(fx);
    let w = spec_fade(fz);
    spec_lerp(spec_lerp(v00, v10, u), spec_lerp(v01, v11, u), w)
}

/// The noise field never leaves one unit: for every seed and every
/// coordinate pair, the sample lies within `[-SCALE, SCALE]`.
pub proof fn lemma_noise_bounded(seed: u32, x: i128, z: i128)
    ensures
        -(SCALE as int) <= spec_noise(seed, x, z) <= SCALE as int,
{
    let s = SCALE as int;
    let cx = (x as int) / s;
    let cz = (z as int) / s;
    let fx = (x as int) - s * cx;
    let fz = (z as int) - s * cz;
    lemma_fundamental_div_mod(x as int, s);
    lemma_mod_bound(x as int, s);
    lemma_fundamental_div_mod(z as int, s);
    lemma_mod_bound(z as int, s);
    lemma_mod_bound(spec_cell_hash(seed, cx as i128, cz as i128) as int, 131073);
    lemma_mod_bound(spec_cell_hash(seed, (cx + 1) as i128, cz as i128) as int, 131073);
    lemma_mod_bound(spec_cell_hash(seed, cx as i128, (cz + 1) as i128) as int, 131073);
    lemma_mod_bound(spec_cell_hash(seed, (cx + 1) as i128, (cz + 1) as i128) as int, 131073);
    lemma_fade_range(fx);
    lemma_fade_range(fz);
    let v00 = spec_corner(seed, cx as i128, cz as i128);
    let v10 = spec_corner(seed, (cx + 1) as i128, cz as i128);
    let v01 = spec_corner(seed, cx as i128, (cz + 1) as i128);
    let v11 = spec_corner(seed, (cx + 1) as i128, (cz + 1) as i128);
    let u = spec_fade(fx);
    let w = spec_fade(fz);
    lemma_lerp_range(v00, v10, u);
    lemma_lerp_range(v01, v11, u);
    lemma_lerp_range(spec_lerp(v00, v10, u), spec_lerp(v01, v11, u), w);
}

/// Sample the noise field. Deterministic: the result is a function of the
/// seed and the coordinates alone, and it always lies within one unit.
pub fn noise_at(seed: u32, x: i128, z: i128) -> (r: i128)
    requires
        iabs(x as int) <= FX_LIMIT as int,
        iabs(z as int) <= FX_LIMIT as int,
    ensures
        r as int == spec_noise(seed, x, z),
        -SCALE <= r <= SCALE,
{
    let (cx, fx) = fx_floor_scale(x);
    let (cz, fz) = fx_floor_scale(z);
    let v00: i128 = corner(seed, cx, cz);
    let v10: i128 = corner(seed, cx + 1, cz);
    let v01: i128 = corner(seed, cx, cz + 1);
    let v11: i128 = corner(seed, cx + 1, cz + 1);
    let u: i128 = fade(fx);
    let w: i128 = fade(fz);
    proof {
        lemma_lerp_range(v00 as int, v10 as int, u as int);
        lemma_lerp_range(v01 as int, v11 as int, u as int);
    }
    let a: i128 = lerp(v00, v10, u);
    let b: i128 = lerp(v01, v11, u);
    lerp(a, b, w)
}

} // verus!
