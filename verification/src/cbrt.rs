//! Cube root of a binary16 value: the decisions taken on the input's bits.
//!
//! Inputs whose cube root is exactly a binary16 value are recognised from
//! the top ten fraction bits and the exponent of their binary32 encoding;
//! the one family of inputs on which the binary32 cube root rounds wrongly
//! is answered directly; everything else is left to the binary32 cube root.
use crate::convert::{
    f16_to_f32, f16_to_f32_bits, f16_widens_to, law_widen_negate, lemma_widening_exists,
    rounds_to_nearest_even,
};
use crate::encoding::{
    f16_is_nan, f16_mag, f16_magnitude, f16_negative, f32_mag, lemma_f16_binade,
    lemma_f16_order, lemma_f16_successor,
};
use vstd::arithmetic::power2::{lemma2_to64, lemma_pow2_adds, lemma_pow2_pos, lemma_pow2_unfold, pow2};
use vstd::prelude::*;

verus! {

/// What remains to compute the cube root of a binary16 input.
#[derive(PartialEq, Eq, Structural, Debug, Clone, Copy)]
pub enum CbrtPlan {
    /// The binary16 result, known exactly.
    Result(u16),
    /// The input is `±0x1.544p(3k+1)`: the result is `base` plus
    /// `0x1p-16 * (sign - 0.5)` in binary32 (a nudge towards zero, which
    /// only matters under directed rounding), rounded to binary16.
    Nudge { base: u16 },
    /// The binary32 cube root of the input, rounded to binary16.
    Evaluate,
}

/// For each value of the top four fraction bits, the next six fraction
/// bits of an input with an exact cube root (0xff where there is none).
pub open spec fn cbrt_tm(i: nat) -> nat {
    if i == 0 {
        0x00
    } else if i == 4 {
        0x33
    } else if i == 5 {
        0x1c
    } else if i == 6 {
        0x32
    } else if i == 11 {
        0x00
    } else if i == 15 {
        0x10
    } else {
        0xff
    }
}

/// The residue modulo 3 that the binary32 exponent field plus 2 must have.
pub open spec fn cbrt_te(i: nat) -> nat {
    if i == 4 || i == 11 {
        1
    } else if i == 5 {
        2
    } else {
        0
    }
}

/// The binary16 pattern of the cube root's significand (exponent field 15).
pub open spec fn cbrt_tf(i: nat) -> nat {
    if i == 0 {
        0x3c00
    } else if i == 4 {
        0x3d80
    } else if i == 5 {
        0x3f00
    } else if i == 6 {
        0x3c80
    } else if i == 11 {
        0x3e00
    } else if i == 15 {
        0x3d00
    } else {
        0
    }
}

/// The table index of a binary32 pattern: its top four fraction bits.
pub open spec fn cbrt_index(w: u32) -> nat {
    ((w / 0x8_0000) % 16) as nat
}

/// The binary32 exponent field.
pub open spec fn cbrt_expo(w: u32) -> int {
    (f32_mag(w) / 0x80_0000) as int
}

/// The exact-cube test on the binary32 pattern `w` of the input.
pub open spec fn cbrt_exact_applies(w: u32) -> bool {
    &&& cbrt_tm(cbrt_index(w)) == (w / 0x2000) % 64
    &&& cbrt_te(cbrt_index(w)) == (cbrt_expo(w) + 2) % 3
}

/// The result of the exact-cube path: the sign of `x`, the tabulated
/// significand, and the exponent divided by three, assembled modulo 2^16.
pub open spec fn cbrt_exact_result(x: u16, w: u32) -> int {
    let i = cbrt_index(w);
    ((x / 0x8000) * 0x8000 + (cbrt_expo(w) - 127 - cbrt_te(i)) / 3 * 1024 + cbrt_tf(i)) % 0x1_0000
}

/// Whether `x` is `±0x1.544p(3k+1)` with a finite result: fraction 0x151
/// and exponent field `e` with `e % 3 == 1` and `e < 31`.
pub open spec fn cbrt_nudge_applies(x: u16) -> bool {
    &&& x % 0x400 == 0x151
    &&& (f16_mag(x) / 0x400) % 3 == 1
    &&& f16_mag(x) / 0x400 < 31
}

/// The correctly rounded cube root of `±0x1.544p(3k+1)`: fraction 0x18b,
/// exponent `k`.
pub open spec fn cbrt_nudge_base(x: u16) -> int {
    ((f16_mag(x) / 0x400) as int - 16) / 3 * 1024 + 15 * 1024 + 0x18b + (x / 0x8000) * 0x8000
}

/// `r` is the cube root of `x` rounded to nearest: with `m` the magnitude
/// of `r` and `lo`, `hi` those of its neighbours, the cubes of the midpoints
/// `(lo + m) / 2` and `(m + hi) / 2` strictly bracket the magnitude of `x`
/// (all in units of 2^-149, hence the factors 8 and 2^298), and the signs
/// agree.
pub open spec fn cbrt_rounds_to(x: u16, r: u16) -> bool {
    let m = f16_magnitude(f16_mag(r));
    let lo = f16_magnitude((f16_mag(r) - 1) as nat);
    let hi = f16_magnitude(f16_mag(r) + 1);
    let c = 8 * f16_magnitude(f16_mag(x)) * pow2(298);
    &&& 0 < f16_mag(r) < 0x7c00
    &&& (lo + m) * (lo + m) * (lo + m) < c
    &&& c < (m + hi) * (m + hi) * (m + hi)
    &&& f16_negative(r) == f16_negative(x)
}

/// What the cube-root plan of the binary16 value `x` is: the exact-cube
/// result when the test on its binary32 pattern fires, otherwise the nudged
/// base for `±0x1.544p(3k+1)`, otherwise the binary32 cube root.
pub open spec fn cbrt_plan_spec(x: u16, p: CbrtPlan) -> bool {
    let w = f16_to_f32(x);
    &&& cbrt_exact_applies(w) ==> p == CbrtPlan::Result(cbrt_exact_result(x, w) as u16)
    &&& !cbrt_exact_applies(w) && cbrt_nudge_applies(x) ==> p == (CbrtPlan::Nudge {
        base: cbrt_nudge_base(x) as u16,
    })
    &&& !cbrt_exact_applies(w) && !cbrt_nudge_applies(x) ==> p == CbrtPlan::Evaluate
}

/// Decides the cube root of the binary16 value `x` as far as its bits
/// allow (see `cbrt_plan_spec`).
///
/// When the exact-cube test fires on a non-NaN input, the result is the
/// exact cube root: its magnitude cubed equals the input's magnitude (both
/// in units of 2^-149, hence the factor 2^298), and it has the input's sign.
/// The nudged base is kept by rounding to nearest.
pub fn cbrtf16_plan(x: u16) -> (p: CbrtPlan)
    ensures
        cbrt_plan_spec(x, p),
        f16_is_nan(x) ==> p == CbrtPlan::Evaluate,
        cbrt_exact_applies(f16_to_f32(x)) && !f16_is_nan(x) ==> (p matches CbrtPlan::Result(r) && {
            let rm = f16_magnitude(f16_mag(r));
            &&& rm * rm * rm == f16_magnitude(f16_mag(x)) * pow2(298)
            &&& f16_negative(r) == f16_negative(x)
        }),
        p matches CbrtPlan::Nudge { base } ==> cbrt_rounds_to(x, base),
        p matches CbrtPlan::Nudge { base } ==> rounds_to_nearest_even(
            (f16_magnitude(f16_mag(base)) - pow2(132)) as nat,
            f16_mag(base),
        ),
{
    let w = f16_to_f32_bits(x);
    proof {
        if f16_is_nan(x) {
            lemma_nan_evaluates(x, w);
        }
    }
    let idx = (w >> 19) % 16;
    assert(idx == (w / 0x8_0000) % 16 && (w >> 13) % 64 == (w / 0x2000) % 64
        && (w & 0x7fff_ffff) >> 23 == (w % 0x8000_0000) / 0x80_0000) by (bit_vector)
        requires idx == (w >> 19) % 16;
    if table_tm(idx) as u32 == (w >> 13) % 64 {
        // exact cases (not supported by the binary32 cube root)
        let expo = ((w & 0x7fff_ffff) >> 23) as i32;
        let te = table_te(idx) as i32;
        if te == (expo + 2) % 3 {
            let s: u32 = (x & 0x8000) as u32;
            let tf: u32 = table_tf(idx) as u32;
            let dd: i32 = (expo - 127 - te) / 3;
            proof {
                assert(s == (x / 0x8000) * 0x8000) by (bit_vector)
                    requires s == (x & 0x8000) as u32;
                assert((expo - 127 - te) % 3 == 0);
                assert(dd == (expo - 127 - te) / 3);
            }
            let a = (dd as u32) << 10;
            let b = s.wrapping_add(a);
            let c = b.wrapping_add(tf);
            let tu = c as u16;
            assert(tu as int == (s + dd * 1024 + tf) % 65536) by (bit_vector)
                requires -43 <= dd <= 43, s == 0 || s == 0x8000, tf < 0x4000, a == (dd as u32) << 10,
                    b == (if s + a > u32::MAX { (s + a - 0x1_0000_0000) as u32 } else { (s + a) as u32 }),
                    c == (if b + tf > u32::MAX { (b + tf - 0x1_0000_0000) as u32 } else { (b + tf) as u32 }),
                    tu == c as u16;
            proof {
                if !f16_is_nan(x) {
                    assert((w >= 0x8000_0000) == (x >= 0x8000));
                    lemma_exact_cube(x, w, tu);
                }
            }
            return CbrtPlan::Result(tu);
        }
    }
    assert((x & 0x03ff) == x % 0x400 && (x & 0x7fff) >> 10 == (x % 0x8000) / 0x400
        && (x >> 15) << 15 == (x / 0x8000) * 0x8000) by (bit_vector);
    if (x & 0x03ff) == 0x0151 {
        // the one wrongly rounded family: 0x1.544pk with k = 1 mod 3
        let expo = ((x & 0x7fff) >> 10) as i32;
        if (expo % 3) == 1 && expo < 31 {
            let k: i32 = (expo - 16) / 3 + 15;
            assert(k << 10 == k * 1024) by (bit_vector) requires 0 <= k < 32;
            let tu = ((k << 10) + 0x018b + (((x >> 15) << 15) as i32)) as u16;
            proof {
                assert(tu == k * 1024 + 0x018b + (x / 0x8000) * 0x8000);
                assert(f16_mag(tu) == k * 1024 + 0x018b);
                lemma_nudge_keeps(tu);
                assert(expo == 3 * k - 29);
                assert(f16_mag(x) == (3 * k - 29) * 1024 + 0x151);
                assert(f16_negative(tu) == f16_negative(x));
                lemma_nudge_root(x, tu, k as nat);
            }
            return CbrtPlan::Nudge { base: tu };
        }
    }
    CbrtPlan::Evaluate
}

/// Each tabulated significand cubes to the tabulated input significand,
/// scaled by the power of two that the exponent residue accounts for.
proof fn lemma_table_cube(i: nat)
    requires
        i < 16,
        cbrt_tm(i) != 0xff,
    ensures
        0x3c00 <= cbrt_tf(i) < 0x4000,
        ({
            let k = 1024 + cbrt_tf(i) - 0x3c00;
            k * k * k == (1024 + i * 64 + cbrt_tm(i)) * pow2(20 + cbrt_te(i))
        }),
{
    lemma2_to64();
    assert(i == 0 || i == 4 || i == 5 || i == 6 || i == 11 || i == 15);
    if i == 0 {
        assert(1024 * 1024 * 1024 == 1024 * 0x10_0000);
    } else if i == 4 {
        assert(1408 * 1408 * 1408 == (1024 + 4 * 64 + 0x33) * 0x20_0000);
    } else if i == 5 {
        assert(1792 * 1792 * 1792 == (1024 + 5 * 64 + 0x1c) * 0x40_0000);
    } else if i == 6 {
        assert(1152 * 1152 * 1152 == (1024 + 6 * 64 + 0x32) * 0x10_0000);
    } else if i == 11 {
        assert(1536 * 1536 * 1536 == (1024 + 11 * 64) * 0x20_0000);
    } else {
        assert(1280 * 1280 * 1280 == (1024 + 15 * 64 + 0x10) * 0x10_0000);
    }
}

/// The field-level facts of the exact-cube path on a finite nonzero input.
#[verifier::rlimit(30)]
proof fn lemma_exact_fields(x: u16, w: u32, tu: u16)
    requires
        !f16_is_nan(x),
        0 < f16_mag(x) < 0x7c00 ==> 103 <= f32_mag(w) / 0x80_0000 <= 142,
        f16_mag(x) == 0 ==> f32_mag(w) == 0,
        f16_mag(x) == 0x7c00 ==> f32_mag(w) == 0x7f80_0000,
        f32_mag(w) % 0x2000 == 0,
        (w >= 0x8000_0000) == (x >= 0x8000),
        cbrt_exact_applies(w),
        tu == cbrt_exact_result(x, w),
    ensures
        0 < f16_mag(x) < 0x7c00,
        f32_mag(w) % 0x80_0000 == (cbrt_index(w) * 64 + cbrt_tm(cbrt_index(w))) * 0x2000,
        cbrt_tm(cbrt_index(w)) != 0xff,
        ({
            let d = (cbrt_expo(w) - 127 - cbrt_te(cbrt_index(w))) / 3;
            &&& cbrt_expo(w) == 127 + cbrt_te(cbrt_index(w)) + 3 * d
            &&& -8 <= d <= 5
            &&& f16_mag(tu) == (15 + d) * 1024 + cbrt_tf(cbrt_index(w)) - 0x3c00
        }),
        f16_negative(tu) == f16_negative(x),
{
    let wm = f32_mag(w);
    let expo = wm / 0x80_0000;
    let ff = wm % 0x80_0000;
    let i = cbrt_index(w);
    let top = (w / 0x2000) % 64;
    lemma_f32_fraction_bits(w);
    assert(f16_mag(x) != 0x7c00 && f16_mag(x) != 0);
    assert(cbrt_tm(i) != 0xff);
    lemma_fraction_from_index(ff, i, top as nat);
    lemma_table_cube(i);
    let te = cbrt_te(i);
    let d: int = (expo - 127 - te) / 3;
    let tff = cbrt_tf(i) - 0x3c00;
    assert(expo == 127 + te + 3 * d);
    let sgn: int = (x / 0x8000) * 0x8000;
    assert(sgn == 0 || sgn == 0x8000);
    assert(0 <= sgn + (15 + d) * 1024 + tff < 0x1_0000);
    assert(cbrt_exact_result(x, w) == sgn + (15 + d) * 1024 + tff);
}

/// A fraction whose low thirteen bits are clear is its top four bits and
/// the next six bits, shifted into place.
proof fn lemma_fraction_from_index(ff: nat, i: nat, top: nat)
    requires
        ff < 0x80_0000,
        ff % 0x2000 == 0,
        i == ff / 0x8_0000,
        top == (ff / 0x2000) % 64,
    ensures
        ff == (i * 64 + top) * 0x2000,
{
    let q = ff / 0x2000;
    assert(ff == q * 0x2000);
    assert(q == (q / 64) * 64 + q % 64);
    assert(q / 64 == ff / 0x8_0000);
}

/// The top four and the next six fraction bits of a binary32 pattern, read
/// from its magnitude.
proof fn lemma_f32_fraction_bits(w: u32)
    by (bit_vector)
    ensures
        (w / 0x8_0000) % 16 == ((w % 0x8000_0000) % 0x80_0000) / 0x8_0000,
        (w / 0x2000) % 64 == (((w % 0x8000_0000) % 0x80_0000) / 0x2000) % 64,
{
}

/// On a non-NaN input, the exact-cube path yields the exact cube root.
proof fn lemma_exact_cube(x: u16, w: u32, tu: u16)
    requires
        f16_widens_to(x, w),
        !f16_is_nan(x),
        0 < f16_mag(x) < 0x7c00 ==> 103 <= f32_mag(w) / 0x80_0000 <= 142,
        f16_mag(x) == 0 ==> f32_mag(w) == 0,
        f16_mag(x) == 0x7c00 ==> f32_mag(w) == 0x7f80_0000,
        f32_mag(w) % 0x2000 == 0,
        cbrt_exact_applies(w),
        tu == cbrt_exact_result(x, w),
    ensures
        ({
            let rm = f16_magnitude(f16_mag(tu));
            rm * rm * rm == f16_magnitude(f16_mag(x)) * pow2(298)
        }),
        f16_negative(tu) == f16_negative(x),
{
    lemma_exact_fields(x, w, tu);
    let i = cbrt_index(w);
    lemma_table_cube(i);
    let expo = cbrt_expo(w);
    let te = cbrt_te(i);
    let d = (expo - 127 - te) / 3;
    let pp = i * 64 + cbrt_tm(i);
    let tff = (cbrt_tf(i) - 0x3c00) as nat;
    let e16 = (15 + d) as nat;
    lemma_f16_binade(e16, tff);
    lemma_cube_scaling(expo as nat, te, d, pp, 1024 + tff, f16_magnitude(f16_mag(x)),
        f16_magnitude(f16_mag(tu)));
}

/// The exponent bookkeeping of the exact cube: with `expo = 127 + te + 3d`,
/// an input `(1024 + pp) * 2^13 * 2^(expo - 1)` and a result
/// `k * 2^(139 + d)` with `k^3 = (1024 + pp) * 2^(20 + te)`, the result
/// cubed is the input times `2^298`.
proof fn lemma_cube_scaling(expo: nat, te: nat, d: int, pp: nat, k: nat, xm: nat, rm: nat)
    requires
        expo >= 103,
        expo == 127 + te + 3 * d,
        -8 <= d,
        k * k * k == (1024 + pp) * pow2(20 + te),
        xm == (0x80_0000 + pp * 0x2000) * pow2((expo - 1) as nat),
        rm == k * pow2((139 + d) as nat),
    ensures
        rm * rm * rm == xm * pow2(298),
{
    let sx = (139 + d) as nat;
    let big = pow2((expo - 1) as nat);
    lemma2_to64();
    assert((0x80_0000 + pp * 0x2000) * big == (1024 + pp) * (8192 * big)) by (nonlinear_arith);
    lemma_pow2_adds(13, (expo - 1) as nat);
    lemma_pow2_adds(sx, sx);
    lemma_pow2_adds(sx + sx, sx);
    lemma_pow2_adds(sx + sx + sx, 20 + te);
    lemma_pow2_adds(13 + ((expo - 1) as nat), 298);
    assert(13 + ((expo - 1) as nat) + 298 == sx + sx + sx + 20 + te);
    let p1 = pow2(sx);
    let p3 = pow2(sx + sx + sx);
    assert(p3 == p1 * p1 * p1);
    assert(rm * rm * rm == (k * k * k) * p3) by (nonlinear_arith)
        requires rm == k * p1, p3 == p1 * p1 * p1;
    let q = pow2(13 + ((expo - 1) as nat));
    assert(xm * pow2(298) == (1024 + pp) * (q * pow2(298))) by (nonlinear_arith)
        requires xm == (1024 + pp) * (8192 * big), 8192 * big == q;
    assert((1024 + pp) * (q * pow2(298)) == ((1024 + pp) * pow2(20 + te)) * p3) by (nonlinear_arith)
        requires q * pow2(298) == p3 * pow2(20 + te);
}

/// Rounding the nudged base, `|base| - 2^-17`, to nearest gives the base
/// back: its exponent is at least -5, so the nudge is below half an ulp.
proof fn lemma_nudge_keeps(tu: u16)
    requires
        10 <= f16_mag(tu) / 0x400 <= 19,
        f16_mag(tu) % 0x400 == 0x18b,
    ensures
        rounds_to_nearest_even(
            (f16_magnitude(f16_mag(tu)) - pow2(132)) as nat,
            f16_mag(tu),
        ),
{
    let b = f16_mag(tu);
    let e = b / 0x400;
    assert(b == e * 1024 + 0x18b);
    assert(b - 1 == e * 1024 + 0x18a);
    lemma_f16_binade(e, 0x18b);
    lemma_f16_binade(e, 0x18a);
    lemma_f16_successor(b);
    let u = pow2(e + 124);
    let p = pow2(132);
    lemma_pow2_pos(132);
    vstd::arithmetic::power2::lemma_pow2_strictly_increases(133, e + 124);
    vstd::arithmetic::power2::lemma_pow2_unfold(133);
    let mb = f16_magnitude(b);
    let ml = f16_magnitude((b - 1) as nat);
    let mh = f16_magnitude(b + 1);
    assert(mb == 1419 * u);
    assert(ml == 1418 * u);
    assert(u > 2 * p);
    assert(mb > p) by (nonlinear_arith) requires mb == 1419 * u, u > 2 * p, p > 0;
    let a = (mb - p) as nat;
    assert(2 * a > ml + mb) by (nonlinear_arith)
        requires a == mb - p, mb == 1419 * u, ml == 1418 * u, u > 2 * p;
    assert(2 * a < mb + mh);
}

/// The nudged base is the cube root of `0x1.544p(3k - 44)` rounded to
/// nearest: `0x1.18bp(k - 15)`, whose midpoint cubes are `2837^3 * 2^q` and
/// `2839^3 * 2^q` against the input's `1361 * 2^24 * 2^q`.
proof fn lemma_nudge_root(x: u16, tu: u16, k: nat)
    requires
        10 <= k <= 19,
        f16_mag(x) == (3 * k - 29) * 1024 + 0x151,
        f16_mag(tu) == k * 1024 + 0x18b,
        f16_negative(tu) == f16_negative(x),
    ensures
        cbrt_rounds_to(x, tu),
{
    let b = f16_mag(tu);
    let ex = (3 * k - 29) as nat;
    assert(b - 1 == k * 1024 + 0x18a && b + 1 == k * 1024 + 0x18c);
    lemma_f16_binade(k, 0x18b);
    lemma_f16_binade(k, 0x18a);
    lemma_f16_binade(k, 0x18c);
    lemma_f16_binade(ex, 0x151);
    let u = pow2(k + 124);
    let u3 = u * u * u;
    lemma_pow2_adds(k + 124, k + 124);
    lemma_pow2_adds(2 * k + 248, k + 124);
    lemma_pow2_adds(ex + 124, 298);
    lemma_pow2_adds(3 * k + 372, 21);
    lemma2_to64();
    lemma_pow2_pos(k + 124);
    assert(pow2(3 * k + 372) == u3) by (nonlinear_arith)
        requires pow2(3 * k + 372) == pow2(2 * k + 248) * u, pow2(2 * k + 248) == u * u, u3 == u * u * u;
    assert(ex + 124 + 298 == 3 * k + 372 + 21);
    let xm = f16_magnitude(f16_mag(x));
    assert(xm == 1361 * pow2(ex + 124));
    let c = 8 * xm * pow2(298);
    assert(c == 22833790976 * u3) by (nonlinear_arith)
        requires xm == 1361 * pow2(ex + 124), c == 8 * xm * pow2(298),
            pow2(ex + 124) * pow2(298) == u3 * 2097152;
    let m = f16_magnitude(b);
    let lo = f16_magnitude((b - 1) as nat);
    let hi = f16_magnitude(b + 1);
    assert(m == 1419 * u);
    assert(lo == 1418 * u);
    assert(hi == 1420 * u);
    assert(lo + m == 2837 * u && m + hi == 2839 * u) by (nonlinear_arith)
        requires m == 1419 * u, lo == 1418 * u, hi == 1420 * u;
    assert(u3 > 0) by (nonlinear_arith) requires u > 0, u3 == u * u * u;
    assert((lo + m) * (lo + m) * (lo + m) == 22833790253 * u3) by (nonlinear_arith)
        requires lo + m == 2837 * u, u3 == u * u * u;
    assert((m + hi) * (m + hi) * (m + hi) == 22882115719 * u3) by (nonlinear_arith)
        requires m + hi == 2839 * u, u3 == u * u * u;
}

/// The widened pattern of a NaN is quiet, so it passes neither the
/// exact-cube test nor the nudge test: NaNs go to the binary32 cube root.
proof fn lemma_nan_evaluates(x: u16, w: u32)
    requires
        f16_is_nan(x),
        f16_widens_to(x, w),
    ensures
        !cbrt_exact_applies(w),
        !cbrt_nudge_applies(x),
{
    let q = f16_mag(x) % 0x200;
    assert(f32_mag(w) == 0x7fc0_0000 + q * 0x2000);
    lemma_f32_fraction_bits(w);
    assert(cbrt_index(w) == 8 + q / 64);
    assert(cbrt_expo(w) == 255);
}

/// Every positive integer is an odd number times a power of two.
proof fn lemma_odd_part(k: nat) -> (r: (nat, nat))
    requires
        k >= 1,
    ensures
        r.0 % 2 == 1,
        k == r.0 * pow2(r.1),
    decreases k,
{
    if k % 2 == 1 {
        lemma2_to64();
        assert(k * pow2(0) == k * 1);
        (k, 0)
    } else {
        let (n, t) = lemma_odd_part(k / 2);
        lemma_pow2_unfold(t + 1);
        assert(k == n * pow2(t + 1)) by (nonlinear_arith)
            requires k == 2 * (k / 2), k / 2 == n * pow2(t), pow2(t + 1) == 2 * pow2(t);
        (n, t + 1)
    }
}

/// The odd part and the power of two of a positive integer are unique.
proof fn lemma_odd_unique(a: nat, i: nat, b: nat, j: nat)
    requires
        a % 2 == 1,
        b % 2 == 1,
        a * pow2(i) == b * pow2(j),
    ensures
        a == b,
        i == j,
    decreases i + j,
{
    lemma2_to64();
    if i == 0 && j == 0 {
        assert(a * pow2(0) == a * 1 && b * pow2(0) == b * 1);
    } else if i > 0 && j > 0 {
        lemma_pow2_unfold(i);
        lemma_pow2_unfold(j);
        assert(a * pow2((i - 1) as nat) == b * pow2((j - 1) as nat)) by (nonlinear_arith)
            requires a * pow2(i) == b * pow2(j), pow2(i) == 2 * pow2((i - 1) as nat),
                pow2(j) == 2 * pow2((j - 1) as nat);
        lemma_odd_unique(a, (i - 1) as nat, b, (j - 1) as nat);
    } else if i == 0 {
        lemma_pow2_unfold(j);
        assert(a * pow2(0) == a * 1);
        assert(a == 2 * (b * pow2((j - 1) as nat))) by (nonlinear_arith)
            requires a == b * pow2(j), pow2(j) == 2 * pow2((j - 1) as nat);
    } else {
        lemma_pow2_unfold(i);
        assert(b * pow2(0) == b * 1);
        assert(b == 2 * (a * pow2((i - 1) as nat))) by (nonlinear_arith)
            requires b == a * pow2(i), pow2(i) == 2 * pow2((i - 1) as nat);
    }
}

/// At most one power of two brings `c` into `[1024, 2048)`.
proof fn lemma_pow2_window(c: nat, u: nat, k: nat)
    requires
        1024 <= c * pow2(u) < 2048,
        1024 <= c * pow2(k) < 2048,
    ensures
        u == k,
{
    if u < k {
        lemma_pow2_adds(u, (k - u) as nat);
        vstd::arithmetic::power2::lemma_pow2_strictly_increases(0, (k - u) as nat);
        lemma2_to64();
        assert(c * pow2(k) >= 2 * (c * pow2(u))) by (nonlinear_arith)
            requires pow2(k) == pow2(u) * pow2((k - u) as nat), pow2((k - u) as nat) >= 2;
    } else if k < u {
        lemma_pow2_adds(k, (u - k) as nat);
        vstd::arithmetic::power2::lemma_pow2_strictly_increases(0, (u - k) as nat);
        lemma2_to64();
        assert(c * pow2(u) >= 2 * (c * pow2(k))) by (nonlinear_arith)
            requires pow2(u) == pow2(k) * pow2((u - k) as nat), pow2((u - k) as nat) >= 2;
    }
}

/// Cubing is injective on natural numbers.
proof fn lemma_cube_injective(a: nat, b: nat)
    requires
        a * a * a == b * b * b,
    ensures
        a == b,
{
    if a < b {
        assert(a * a * a < b * b * b) by (nonlinear_arith) requires a < b;
    } else if b < a {
        assert(b * b * b < a * a * a) by (nonlinear_arith) requires b < a;
    }
}

/// A binary16 significand `n * 2^k` between 1024 and 2047 whose odd part
/// `n` cubes to at most 2047 is one of the six the table lists: the
/// significand and the residue of the exponent pass the exact-cube test.
proof fn lemma_cube_significand(n: nat, mm: nat, u: nat, pp: nat)
    requires
        n % 2 == 1,
        mm == n * n * n,
        1024 + pp == mm * pow2(u),
        pp < 1024,
    ensures
        cbrt_tm(pp / 64) == pp % 64,
        (cbrt_te(pp / 64) + u) % 3 == 1,
{
    lemma2_to64();
    if n >= 13 {
        assert(n * n * n >= 2197) by (nonlinear_arith) requires n >= 13;
        assert(mm * pow2(u) >= mm) by (nonlinear_arith) requires pow2(u) >= 1;
    }
    assert(n == 1 || n == 3 || n == 5 || n == 7 || n == 9 || n == 11);
    if n == 1 {
        assert(mm == 1);
        lemma_pow2_window(1, u, 10);
    } else if n == 3 {
        assert(mm == 27);
        lemma_pow2_window(27, u, 6);
    } else if n == 5 {
        assert(mm == 125);
        lemma_pow2_window(125, u, 4);
    } else if n == 7 {
        assert(mm == 343);
        lemma_pow2_window(343, u, 2);
    } else if n == 9 {
        assert(mm == 729);
        lemma_pow2_window(729, u, 1);
    } else {
        assert(mm == 1331);
        lemma_pow2_window(1331, u, 0);
    }
}

/// Every exact cube is recognised: when the finite nonzero binary16 value
/// `x` is the exact cube of the binary16 value `y` (magnitudes in units of
/// 2^-149, hence the factor 2^298, and the same sign), the exact-cube test
/// fires on `x` and its result is `y`.
pub proof fn law_cbrt_exact_cubes(x: u16, y: u16)
    requires
        0 < f16_mag(x) < 0x7c00,
        f16_mag(y) < 0x7c00,
        f16_negative(y) == f16_negative(x),
        f16_magnitude(f16_mag(y)) * f16_magnitude(f16_mag(y)) * f16_magnitude(f16_mag(y))
            == f16_magnitude(f16_mag(x)) * pow2(298),
    ensures
        cbrt_exact_applies(f16_to_f32(x)),
        cbrt_exact_result(x, f16_to_f32(x)) == y,
{
    let w = f16_to_f32(x);
    lemma_widening_exists(x);
    let wm = f32_mag(w);
    let expo = wm / 0x80_0000;
    let ff = wm % 0x80_0000;
    assert(ff % 0x2000 == 0);
    let pp = ff / 0x2000;
    assert(ff == pp * 0x2000 && pp < 1024);
    let xm = f16_magnitude(f16_mag(x));
    let big = pow2((expo - 1) as nat);
    lemma2_to64();
    assert(xm == (0x80_0000 + ff) * big);
    assert(xm == (1024 + pp) * (8192 * big)) by (nonlinear_arith)
        requires xm == (0x80_0000 + ff) * big, ff == pp * 0x2000;
    lemma_pow2_adds(13, (expo - 1) as nat);
    let ex = (expo + 12) as nat;
    assert(xm == (1024 + pp) * pow2(ex));
    // the root's significand and exponent
    let ay = f16_mag(y);
    let ym = f16_magnitude(ay);
    let (kk, sy): (nat, nat) = if ay < 1024 {
        (ay, 125nat)
    } else {
        ((1024 + ay % 1024) as nat, (ay / 1024 + 124) as nat)
    };
    assert(ym == kk * pow2(sy));
    lemma_pow2_pos(ex);
    lemma_pow2_pos(298);
    assert(xm > 0) by (nonlinear_arith) requires xm == (1024 + pp) * pow2(ex), pow2(ex) > 0;
    assert(xm * pow2(298) > 0) by (nonlinear_arith) requires xm > 0, pow2(298) > 0;
    assert(kk >= 1) by (nonlinear_arith)
        requires ym == kk * pow2(sy), ym * ym * ym > 0;
    // odd parts
    let (n, t) = lemma_odd_part(kk);
    let (mm, u) = lemma_odd_part(1024 + pp);
    let e = t + sy;
    lemma_pow2_adds(t, sy);
    lemma_pow2_adds(e, e);
    lemma_pow2_adds(e + e, e);
    lemma_pow2_adds(u, ex);
    lemma_pow2_adds(u + ex, 298);
    let pe = pow2(e);
    assert(ym == n * pe) by (nonlinear_arith)
        requires ym == kk * pow2(sy), kk == n * pow2(t), pe == pow2(t) * pow2(sy);
    assert(ym * ym * ym == (n * n * n) * pow2(e + e + e)) by (nonlinear_arith)
        requires ym == n * pe, pow2(e + e + e) == pe * pe * pe;
    assert(xm * pow2(298) == mm * pow2(u + ex + 298)) by (nonlinear_arith)
        requires xm == (1024 + pp) * pow2(ex), 1024 + pp == mm * pow2(u),
            pow2(u + ex + 298) == pow2(u) * pow2(ex) * pow2(298);
    let q = n / 2;
    assert(n * n * n == 2 * (4 * q * q * q + 6 * q * q + 3 * q) + 1) by (nonlinear_arith)
        requires n == 2 * q + 1;
    assert((n * n * n) % 2 == 1);
    lemma_odd_unique(n * n * n, e + e + e, mm, u + ex + 298);
    lemma_cube_significand(n, mm, u, pp);
    // the exact-cube test on the widened pattern
    lemma_f32_fraction_bits(w);
    assert(cbrt_index(w) == pp / 64);
    assert((w / 0x2000) % 64 == pp % 64);
    assert(cbrt_expo(w) == expo);
    assert(expo + 2 + u == 3 * (e - 103) + 1);
    assert(cbrt_exact_applies(w));
    // its result is the exact root, which is y
    let r = cbrt_exact_result(x, w) as u16;
    lemma_exact_cube(x, w, r);
    lemma_exact_fields(x, w, r);
    let rm = f16_magnitude(f16_mag(r));
    lemma_cube_injective(rm, ym);
    lemma_f16_order(f16_mag(r), ay);
    assert(f16_mag(r) == ay);
    assert(r == y);
}

/// The plan of `-x` mirrors the plan of `x`.
pub open spec fn cbrt_mirror(p: CbrtPlan) -> CbrtPlan {
    match p {
        CbrtPlan::Result(r) => CbrtPlan::Result(r ^ 0x8000),
        CbrtPlan::Nudge { base } => CbrtPlan::Nudge { base: base ^ 0x8000 },
        CbrtPlan::Evaluate => CbrtPlan::Evaluate,
    }
}

/// The cube root is odd: the plan of `-x` is the mirror of the plan of `x`
/// (NaN inputs included).
pub proof fn law_cbrt_odd(x: u16, p: CbrtPlan, q: CbrtPlan)
    requires
        cbrt_plan_spec(x, p),
        cbrt_plan_spec(x ^ 0x8000, q),
    ensures
        q == cbrt_mirror(p),
{
    let y = x ^ 0x8000;
    let w = f16_to_f32(x);
    law_widen_negate(x);
    assert(f16_to_f32(y) == w ^ 0x8000_0000);
    assert((w ^ 0x8000_0000) / 0x8_0000 % 16 == w / 0x8_0000 % 16 && (w ^ 0x8000_0000) / 0x2000 % 64
        == w / 0x2000 % 64 && (w ^ 0x8000_0000) % 0x8000_0000 == w % 0x8000_0000) by (bit_vector);
    assert(y % 0x8000 == x % 0x8000 && y % 0x400 == x % 0x400 && (y / 0x8000 == 1 - x / 0x8000))
        by (bit_vector)
        requires y == x ^ 0x8000;
    if cbrt_exact_applies(w) {
        let r = cbrt_exact_result(x, w);
        let r2 = cbrt_exact_result(y, w ^ 0x8000_0000);
        let d = (cbrt_expo(w) - 127 - cbrt_te(cbrt_index(w))) / 3 * 1024 + cbrt_tf(cbrt_index(w));
        assert(r == ((x / 0x8000) * 0x8000 + d) % 0x1_0000);
        assert(r2 == ((y / 0x8000) * 0x8000 + d) % 0x1_0000);
        assert(r2 == (r + 0x8000) % 0x1_0000);
        let ru = r as u16;
        assert((ru ^ 0x8000) as int == (ru + 0x8000) % 0x1_0000) by (bit_vector);
    } else if cbrt_nudge_applies(x) {
        let b = cbrt_nudge_base(x);
        let e = b - (x / 0x8000) * 0x8000;
        assert(0 <= e < 0x8000);
        let bu = b as u16;
        assert(bu % 0x8000 == e && (bu / 0x8000) == x / 0x8000);
        assert((bu ^ 0x8000) == (bu % 0x8000) + (1 - bu / 0x8000) * 0x8000) by (bit_vector);
    }
}

fn table_tm(i: u32) -> (r: u16)
    requires
        i < 16,
    ensures
        r == cbrt_tm(i as nat),
{
    if i == 0 {
        0x00
    } else if i == 4 {
        0x33
    } else if i == 5 {
        0x1c
    } else if i == 6 {
        0x32
    } else if i == 11 {
        0x00
    } else if i == 15 {
        0x10
    } else {
        0xff
    }
}

fn table_te(i: u32) -> (r: u16)
    requires
        i < 16,
    ensures
        r == cbrt_te(i as nat),
{
    if i == 4 || i == 11 {
        1
    } else if i == 5 {
        2
    } else {
        0
    }
}

fn table_tf(i: u32) -> (r: u16)
    requires
        i < 16,
    ensures
        r == cbrt_tf(i as nat),
{
    if i == 0 {
        0x3c00
    } else if i == 4 {
        0x3d80
    } else if i == 5 {
        0x3f00
    } else if i == 6 {
        0x3c80
    } else if i == 11 {
        0x3e00
    } else if i == 15 {
        0x3d00
    } else {
        0
    }
}

} // verus!
