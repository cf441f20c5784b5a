//! Arc-tangent of a binary16 value: the decisions taken on the input's bits
//! and, after argument reduction, on the reduced argument's bits.
use crate::asin::HALF_PI;
use crate::convert::{
    f16_to_f32_bits, f32_narrows_to, f32_to_f16_bits, lemma_narrow_opposite, rounds_to_nearest_even,
};
use crate::encoding::{
    f16_mag, f16_magnitude, f16_negative, f32_is_nan, f32_mag, f32_negative, lemma_f16_binade,
    lemma_f16_increasing, lemma_f16_spacing, with_sign, F32_SIGN,
};
use crate::utils::quiet_nan16;
use vstd::arithmetic::power2::{lemma_pow2_adds, lemma_pow2_strictly_increases, pow2};
use vstd::prelude::*;

verus! {

/// What remains to compute the arc-tangent of a binary16 input.
#[derive(PartialEq, Eq, Structural, Debug, Clone, Copy)]
pub enum AtanPlan {
    /// The binary16 result, known without evaluating a polynomial.
    Result(u16),
    /// `0 < |x| <= 0x1.d14p-6`: atan(x) rounds to x; the result is
    /// `fma(x, -0x1p-23, x)` rounded to binary16, which is `x` itself under
    /// rounding to nearest.
    Tiny,
    /// `|x| <= 1`: evaluate the polynomial of `segment` (0 up to 0.25, 1 up
    /// to 0.5, 2 up to 0.75, 3 up to 1) at `t = |x|`, negate for a negative
    /// input, and round.
    Evaluate { segment: u8, negative: bool },
    /// `1 < |x| < inf`: compute `t = 1 / |x|` in binary32 and continue with
    /// `atanf16_reduced(x, t)`; the polynomial value `y` then gives
    /// `pi/2 - y`, negated for a negative input.
    Reduce { negative: bool },
}

/// What remains once the argument has been reduced to `t = 1 / |x|`.
#[derive(PartialEq, Eq, Structural, Debug, Clone, Copy)]
pub enum AtanReduced {
    /// The binary16 result, tabulated.
    Result(u16),
    /// Evaluate the polynomial of `segment` at `t`.
    Evaluate { segment: u8 },
}

/// The binary32 comparison `t <= c` for a positive threshold `c`: false for
/// a NaN, true for a negative `t`, otherwise the order of the magnitudes.
pub open spec fn f32_at_most(t: u32, c: nat) -> bool {
    !f32_is_nan(t) && (f32_negative(t) || f32_mag(t) <= c)
}

/// The binary16 magnitudes whose arc-tangent is tabulated, with their
/// tabulated binary32 results (0 where nothing is tabulated).
pub open spec fn atan_table(ax: nat) -> u32 {
    if ax == 0x32b5 {
        0x3e53_9001  // atan(0x1.ad4p-3) ~ 0x1.a72002p-3
    } else if ax == 0x48ae {
        0x3fbb_6fff  // atan(0x1.2b8p+3) ~ 0x1.76dffep+0
    } else if ax == 0x5619 {
        0x3fc7_bfff  // atan(0x1.864p+6) ~ 0x1.8f7ffep+0
    } else {
        0
    }
}

/// The polynomial range of a magnitude `t` at most 1 (pattern of 0.25 is
/// 0x3400, of 0.5 is 0x3800, of 0.75 is 0x3a00).
pub open spec fn atan_segment16(ax: nat) -> u8 {
    if ax <= 0x3400 {
        0
    } else if ax <= 0x3800 {
        1
    } else if ax <= 0x3a00 {
        2
    } else {
        3
    }
}

/// What the arc-tangent plan of the binary16 value `x` is.
///
/// A NaN is returned quiet; `atan(±inf) = ±pi/2` rounded; zeros are
/// returned unchanged; tiny inputs round to themselves; `±0x1.ad4p-3` is
/// tabulated; other inputs up to 1 in magnitude select a polynomial, and
/// larger ones go through the reduction `t = 1 / |x|`.
pub open spec fn atan_plan_spec(x: u16, p: AtanPlan) -> bool {
    let ax = f16_mag(x);
    let neg = f16_negative(x);
    &&& ax > 0x7c00 ==> (p matches AtanPlan::Result(r) && r % 0x8000 == 0x7e00 + x % 0x200
        && f16_negative(r) == neg)
    &&& ax == 0x7c00 ==> (p matches AtanPlan::Result(r) && f32_narrows_to(with_sign(HALF_PI, neg), r))
    &&& ax == 0 ==> p == AtanPlan::Result(x)
    &&& 0 < ax <= 0x2745 ==> p == AtanPlan::Tiny
    &&& ax == 0x32b5 ==> (p matches AtanPlan::Result(r) && f32_narrows_to(
        with_sign(atan_table(0x32b5), neg),
        r,
    ))
    &&& 0x2745 < ax <= 0x3c00 && ax != 0x32b5 ==> p == (AtanPlan::Evaluate {
        segment: atan_segment16(ax),
        negative: neg,
    })
    &&& 0x3c00 < ax < 0x7c00 ==> p == (AtanPlan::Reduce { negative: neg })
}

/// Decides the arc-tangent of the binary16 value `x` as far as its bits
/// allow (see `atan_plan_spec`).
///
/// For a tiny input of magnitude `a`, every magnitude from `a - a / 2^22`
/// to `a` rounds back to `|x|`: this holds `|x| (1 - 2^-23)` and any
/// binary32 rounding of it.
pub fn atanf16_plan(x: u16) -> (p: AtanPlan)
    ensures
        atan_plan_spec(x, p),
        p == AtanPlan::Tiny ==> forall|m: nat|
            f16_magnitude(f16_mag(x)) - f16_magnitude(f16_mag(x)) / pow2(22) <= m <= f16_magnitude(
                f16_mag(x),
            ) ==> #[trigger] rounds_to_nearest_even(m, f16_mag(x)),
{
    let u = f16_to_f32_bits(x);
    let au = u & 0x7fff_ffff;
    assert(au == f32_mag(u) && (u == au <==> !f32_negative(u)) && (u >> 31 != 0 <==> f32_negative(u))
        && (!f32_negative(u) || u == au + F32_SIGN)) by (bit_vector)
        requires au == u & 0x7fff_ffff;
    if au >= 0x7f80_0000 {
        // NaN or infinity
        if au == 0x7f80_0000 {
            let c = if u == 0x7f80_0000 {
                HALF_PI
            } else {
                HALF_PI | F32_SIGN
            };
            assert(HALF_PI | F32_SIGN == HALF_PI + F32_SIGN) by (bit_vector);
            return AtanPlan::Result(f32_to_f16_bits(c));
        }
        return AtanPlan::Result(quiet_nan16(x));
    }
    let negative = (u >> 31) != 0;
    if au > 0x3f80_0000 {
        // atan(x) = pi/2 - atan(1/x)
        return AtanPlan::Reduce { negative };
    }
    if au <= 0x3ce8_a000 {
        // atan(x) rounds to x to nearest
        if au == 0 {
            return AtanPlan::Result(x);
        }
        proof {
            lemma_tiny_keeps(f16_mag(x));
        }
        return AtanPlan::Tiny;
    }
    match select(au, u, au) {
        AtanReduced::Result(r) => AtanPlan::Result(r),
        AtanReduced::Evaluate { segment } => AtanPlan::Evaluate { segment, negative },
    }
}

/// What the arc-tangent plan is once `t = 1 / |x|` (a binary32 pattern)
/// has been computed: for `t <= 0.25`, the tabulated inputs or the first
/// polynomial; above, the polynomial of the range of `t`.
pub open spec fn atan_reduced_spec(x: u16, t: u32, p: AtanReduced) -> bool {
    let ax = f16_mag(x);
    &&& f32_at_most(t, 0x3e80_0000) && atan_table(ax) != 0 ==> (p matches AtanReduced::Result(r)
        && f32_narrows_to(with_sign(atan_table(ax), f16_negative(x)), r))
    &&& f32_at_most(t, 0x3e80_0000) && atan_table(ax) == 0 ==> p == (AtanReduced::Evaluate {
        segment: 0,
    })
    &&& !f32_at_most(t, 0x3e80_0000) ==> p == (AtanReduced::Evaluate {
        segment: if f32_at_most(t, 0x3f00_0000) {
            1
        } else if f32_at_most(t, 0x3f40_0000) {
            2
        } else {
            3
        },
    })
}

/// Decides the arc-tangent once `t = 1 / |x|` (a binary32 pattern) has been
/// computed for an input `x` with `1 < |x| < inf` (see
/// `atan_reduced_spec`).
pub fn atanf16_reduced(x: u16, t: u32) -> (p: AtanReduced)
    ensures
        atan_reduced_spec(x, t, p),
{
    let u = f16_to_f32_bits(x);
    let au = u & 0x7fff_ffff;
    assert(au == f32_mag(u) && (u == au <==> !f32_negative(u)) && (!f32_negative(u) || u == au
        + F32_SIGN)) by (bit_vector)
        requires au == u & 0x7fff_ffff;
    select(au, u, t)
}

/// A magnitude at most 0x1.d14p-6 moved towards zero by at most 2^-22 of
/// itself still rounds to itself: that is far below half the 2^-24 spacing.
proof fn lemma_tiny_keeps(ax: nat)
    requires
        0 < ax <= 0x2745,
    ensures
        forall|m: nat|
            f16_magnitude(ax) - f16_magnitude(ax) / pow2(22) <= m <= f16_magnitude(ax)
                ==> #[trigger] rounds_to_nearest_even(m, ax),
{
    let a = f16_magnitude(ax);
    lemma_f16_increasing(ax, 0x2800);
    lemma_f16_binade(10, 0);
    lemma_pow2_adds(10, 134);
    lemma_pow2_adds(122, 22);
    vstd::arithmetic::power2::lemma2_to64();
    assert(f16_magnitude(0x2800) == pow2(144));
    assert(a / pow2(22) < pow2(122)) by (nonlinear_arith)
        requires a < pow2(144), pow2(144) == pow2(122) * pow2(22), pow2(22) > 0;
    lemma_pow2_strictly_increases(123, 125);
    vstd::arithmetic::power2::lemma_pow2_unfold(123);
    lemma_f16_spacing((ax - 1) as nat);
    lemma_f16_spacing(ax);
    assert forall|m: nat| a - a / pow2(22) <= m <= a implies #[trigger] rounds_to_nearest_even(
        m,
        ax,
    ) by {
        assert(2 * m > f16_magnitude((ax - 1) as nat) + a);
        assert(2 * m < a + f16_magnitude(ax + 1));
    }
}

/// The plan of `-x` mirrors the plan of `x`: opposite results, the same
/// polynomial or reduction with the opposite sign.
pub open spec fn atan_mirror(p: AtanPlan) -> AtanPlan {
    match p {
        AtanPlan::Result(r) => AtanPlan::Result(r ^ 0x8000),
        AtanPlan::Tiny => AtanPlan::Tiny,
        AtanPlan::Evaluate { segment, negative } => AtanPlan::Evaluate { segment, negative: !negative },
        AtanPlan::Reduce { negative } => AtanPlan::Reduce { negative: !negative },
    }
}

/// The arc-tangent is odd: the plan of `-x` is the mirror of the plan of
/// `x`.
pub proof fn law_atan_odd(x: u16, p: AtanPlan, q: AtanPlan)
    requires
        atan_plan_spec(x, p),
        atan_plan_spec(x ^ 0x8000, q),
    ensures
        q == atan_mirror(p),
{
    assert(f16_mag(x ^ 0x8000) == f16_mag(x) && f16_negative(x ^ 0x8000) != f16_negative(x))
        by (bit_vector);
    let ax = f16_mag(x);
    if ax == 0x7c00 {
        lemma_narrow_opposite(HALF_PI, f16_negative(x), p->Result_0, q->Result_0);
    } else if ax == 0x32b5 {
        lemma_narrow_opposite(atan_table(0x32b5), f16_negative(x), p->Result_0, q->Result_0);
    } else if ax > 0x7c00 {
        let r = p->Result_0;
        let r2 = q->Result_0;
        assert(r % 0x8000 == 0x7e00 + x % 0x200 && r2 % 0x8000 == 0x7e00 + (x ^ 0x8000) % 0x200
            && (r >= 0x8000) == (x >= 0x8000) && (r2 >= 0x8000) == ((x ^ 0x8000) >= 0x8000)
            ==> r2 == r ^ 0x8000) by (bit_vector);
    }
}

/// After the reduction, `t` is the same for `x` and `-x`: the tabulated
/// results are opposite and the polynomial choice is the same.
pub proof fn law_atan_reduced_odd(x: u16, t: u32, p: AtanReduced, q: AtanReduced)
    requires
        atan_reduced_spec(x, t, p),
        atan_reduced_spec(x ^ 0x8000, t, q),
    ensures
        q == (match p {
            AtanReduced::Result(r) => AtanReduced::Result(r ^ 0x8000),
            AtanReduced::Evaluate { segment } => AtanReduced::Evaluate { segment },
        }),
{
    assert(f16_mag(x ^ 0x8000) == f16_mag(x) && f16_negative(x ^ 0x8000) != f16_negative(x))
        by (bit_vector);
    let ax = f16_mag(x);
    if f32_at_most(t, 0x3e80_0000) && atan_table(ax) != 0 {
        lemma_narrow_opposite(atan_table(ax), f16_negative(x), p->Result_0, q->Result_0);
    }
}

/// The binary32 comparison `t <= c` for a positive finite threshold `c`.
fn at_most(t: u32, c: u32) -> (r: bool)
    requires
        0 < c < 0x7f80_0000,
    ensures
        r == f32_at_most(t, c as nat),
{
    let m = t & 0x7fff_ffff;
    assert(m == f32_mag(t) && ((t >> 31 != 0) == f32_negative(t))) by (bit_vector)
        requires m == t & 0x7fff_ffff;
    if m > 0x7f80_0000 {
        false
    } else if (t >> 31) != 0 {
        true
    } else {
        m <= c
    }
}

/// The tabulated inputs and the polynomial choice, given the input's
/// binary32 magnitude `au` and pattern `u` and the (possibly reduced)
/// argument `t`.
fn select(au: u32, u: u32, t: u32) -> (p: AtanReduced)
    requires
        u == au || u == au + F32_SIGN,
    ensures
        f32_at_most(t, 0x3e80_0000) && atan_table32(au as nat) != 0 ==> (p matches AtanReduced::Result(
            r,
        ) && f32_narrows_to(with_sign(atan_table32(au as nat), u != au), r)),
        f32_at_most(t, 0x3e80_0000) && atan_table32(au as nat) == 0 ==> p == (AtanReduced::Evaluate {
            segment: 0,
        }),
        !f32_at_most(t, 0x3e80_0000) ==> p == (AtanReduced::Evaluate {
            segment: if f32_at_most(t, 0x3f00_0000) {
                1
            } else if f32_at_most(t, 0x3f40_0000) {
                2
            } else {
                3
            },
        }),
{
    if at_most(t, 0x3e80_0000) {
        let c: u32 = if au == 0x3e56_a000 {
            0x3e53_9001
        } else if au == 0x4115_c000 {
            0x3fbb_6fff
        } else if au == 0x42c3_2000 {
            0x3fc7_bfff
        } else {
            0
        };
        if c != 0 {
            let signed = if au == u {
                c
            } else {
                c | F32_SIGN
            };
            assert(c < F32_SIGN ==> c | F32_SIGN == c + F32_SIGN) by (bit_vector);
            return AtanReduced::Result(f32_to_f16_bits(signed));
        }
        AtanReduced::Evaluate { segment: 0 }
    } else if at_most(t, 0x3f00_0000) {
        AtanReduced::Evaluate { segment: 1 }
    } else if at_most(t, 0x3f40_0000) {
        AtanReduced::Evaluate { segment: 2 }
    } else {
        AtanReduced::Evaluate { segment: 3 }
    }
}

/// The table of `atan_table` keyed by binary32 magnitudes.
pub open spec fn atan_table32(au: nat) -> u32 {
    if au == 0x3e56_a000 {
        atan_table(0x32b5)
    } else if au == 0x4115_c000 {
        atan_table(0x48ae)
    } else if au == 0x42c3_2000 {
        atan_table(0x5619)
    } else {
        0
    }
}

} // verus!
