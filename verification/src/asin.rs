//! Arc-sine of a binary16 value: the decisions taken on the input's bits
//! and, after argument reduction, on the reduced argument's bits.
use crate::convert::{
    f16_to_f32, f16_to_f32_bits, f32_narrows_to, f32_to_f16_bits, lemma_narrow_opposite,
    rounds_to_nearest_even,
};
use crate::encoding::{
    f16_mag, f16_magnitude, f16_negative, f32_mag, f32_negative, lemma_f16_spacing,
    lemma_f16_successor, with_sign, F32_SIGN,
};
use crate::utils::{quiet_nan16, snanf16, F16_DEFAULT_NAN};
use vstd::arithmetic::power2::{lemma_pow2_pos, lemma_pow2_unfold, pow2};
use vstd::prelude::*;

verus! {

/// `0x1.921fb6p+0`, pi/2 rounded to binary32.
pub const HALF_PI: u32 = 0x3fc9_0fdb;

/// What remains to compute the arc-sine of a binary16 input.
#[derive(PartialEq, Eq, Structural, Debug, Clone, Copy)]
pub enum AsinPlan {
    /// The binary16 result, known without evaluating a polynomial.
    Result(u16),
    /// `0 < |x| <= 0x1.71p-5`: asin(x) rounds to x; the result is
    /// `x + 0x1p-26` (`x - 0x1p-26` when `negative`) rounded to binary16,
    /// which is `x` itself under rounding to nearest.
    Tiny { negative: bool },
    /// `|x| < 0.5`: evaluate the odd polynomial of `segment` (0 for
    /// `|x| < 0.25`, 1 otherwise) at `x` and round it to binary16.
    Evaluate { segment: u8 },
    /// `0.5 <= |x| < 1`: compute `t = sqrt((1 - |x|) / 2)` in binary32 and
    /// continue with `asinf16_reduced(x, t)`.
    Reduce { negative: bool },
}

/// What remains once the argument has been reduced (or was small enough).
#[derive(PartialEq, Eq, Structural, Debug, Clone, Copy)]
pub enum AsinReduced {
    /// The binary16 result, tabulated.
    Result(u16),
    /// Evaluate the odd polynomial of `segment` (0 for `t < 0.25`, 1
    /// otherwise) at the reduced argument `t`; after a reduction the result
    /// is `pi/2 - 2 y`, negated for a negative input, then rounded.
    Evaluate { segment: u8 },
}

/// The binary32 magnitudes of the arguments whose arc-sine is tabulated,
/// with their tabulated binary32 results (0 where nothing is tabulated).
pub open spec fn asin_table(at: nat) -> u32 {
    if at == 0x3dd3_0000 {
        0x3dd3_6005  // asin(0x1.a6p-4) ~ 0x1.a6c00ap-4
    } else if at == 0x3d68_8000 {
        0x3d68_a002  // asin(0x1.d1p-5) ~ 0x1.d14004p-5
    } else if at == 0x3dfa_0000 {
        0x3dfa_a005  // asin(0x1.f4p-4) ~ 0x1.f5400ap-4
    } else if at == 0x3eb2_4000 {
        0x3eb6_1009  // asin(0x1.648p-2) ~ 0x1.6c2012p-2
    } else if at == 0x3ed9_6000 {
        0x3ee0_7ffd  // asin(0x1.b2cp-2) ~ 0x1.c0fffap-2
    } else if at == 0x3ef0_a000 {
        0x3efa_7ff8  // asin(0x1.e14p-2) ~ 0x1.f4fffp-2
    } else {
        0
    }
}

/// The same table on binary16 magnitudes: the inputs below 0.5 whose
/// arc-sine is tabulated.
pub open spec fn asin_table16(ax: nat) -> u32 {
    if ax == 0x2e98 {
        asin_table(0x3dd3_0000)
    } else if ax == 0x2b44 {
        asin_table(0x3d68_8000)
    } else if ax == 0x2fd0 {
        asin_table(0x3dfa_0000)
    } else if ax == 0x3592 {
        asin_table(0x3eb2_4000)
    } else if ax == 0x36cb {
        asin_table(0x3ed9_6000)
    } else if ax == 0x3785 {
        asin_table(0x3ef0_a000)
    } else {
        0
    }
}

/// What the arc-sine plan of the binary16 value `x` is.
///
/// NaNs, infinities and inputs of magnitude above 1 give the invalid
/// result; `asin(±1) = ±pi/2` rounded; zeros are returned unchanged; tiny
/// inputs round to themselves; six magnitudes below 0.5 are tabulated (with
/// the sign of the input); other inputs below 0.5 select a polynomial, and
/// inputs from 0.5 on go through the argument reduction.
pub open spec fn asin_plan_spec(x: u16, p: AsinPlan) -> bool {
    let ax = f16_mag(x);
    let neg = f16_negative(x);
    &&& ax > 0x3c00 ==> p == AsinPlan::Result(F16_DEFAULT_NAN)
    &&& ax == 0x3c00 ==> (p matches AsinPlan::Result(r) && f32_narrows_to(with_sign(HALF_PI, neg), r))
    &&& ax == 0 ==> p == AsinPlan::Result(x)
    &&& 0 < ax <= 0x29c4 ==> p == (AsinPlan::Tiny { negative: neg })
    &&& 0x29c4 < ax < 0x3800 && asin_table16(ax) != 0 ==> (p matches AsinPlan::Result(r)
        && f32_narrows_to(with_sign(asin_table16(ax), neg), r))
    &&& 0x29c4 < ax < 0x3800 && asin_table16(ax) == 0 ==> p == (AsinPlan::Evaluate {
        segment: if ax < 0x3400 {
            0
        } else {
            1
        },
    })
    &&& 0x3800 <= ax < 0x3c00 ==> p == (AsinPlan::Reduce { negative: neg })
}

/// Decides the arc-sine of the binary16 value `x` as far as its bits allow
/// (see `asin_plan_spec`).  A tiny input moved away from zero by 2^-26
/// still rounds to itself.
pub fn asinf16_plan(x: u16) -> (p: AsinPlan)
    ensures
        asin_plan_spec(x, p),
        p matches AsinPlan::Tiny { .. } ==> rounds_to_nearest_even(
            (f16_magnitude(f16_mag(x)) + pow2(123)) as nat,
            f16_mag(x),
        ),
{
    let u = f16_to_f32_bits(x);
    let au = u & 0x7fff_ffff;
    assert(au == f32_mag(u) && (u == au <==> !f32_negative(u)) && (u >> 31 != 0 <==> f32_negative(u))
        && au >> 23 <= 0xff && (!f32_negative(u) || u == au + F32_SIGN)) by (bit_vector)
        requires au == u & 0x7fff_ffff;
    if au >= 0x3f80_0000 {
        // NaN, infinity, or |x| >= 1
        if au == 0x3f80_0000 {
            let c = if u == 0x3f80_0000 {
                HALF_PI
            } else {
                HALF_PI | F32_SIGN
            };
            assert(HALF_PI | F32_SIGN == HALF_PI + F32_SIGN) by (bit_vector);
            return AsinPlan::Result(f32_to_f16_bits(c));
        }
        // the shifted exponent never exceeds 0xff, so NaNs get the invalid result too
        if (au >> 23) == 0x3ff && ((au & 0x7f_ffff) != 0) {
            return AsinPlan::Result(quiet_nan16(x));
        }
        return AsinPlan::Result(snanf16());
    }
    if au >= 0x3f00_0000 {
        // 0.5 <= |x| < 1: asin(x) = pi/2 - 2 asin(sqrt((1 - |x|) / 2))
        return AsinPlan::Reduce { negative: (u >> 31) != 0 };
    }
    if au <= 0x3d38_8000 {
        // asin(x) rounds to x to nearest
        if au == 0 {
            return AsinPlan::Result(x);
        }
        proof {
            lemma_tiny_keeps(f16_mag(x));
        }
        return AsinPlan::Tiny { negative: u != au };
    }
    match select(au, u) {
        AsinReduced::Result(r) => AsinPlan::Result(r),
        AsinReduced::Evaluate { segment } => AsinPlan::Evaluate { segment },
    }
}

/// The plan of `-x` mirrors the plan of `x`: the same polynomial or
/// reduction with the opposite sign, and opposite tabulated results.
pub open spec fn asin_mirror(p: AsinPlan) -> AsinPlan {
    match p {
        AsinPlan::Result(r) => if (r % 0x8000) > 0x7c00 {
            AsinPlan::Result(r)
        } else {
            AsinPlan::Result(r ^ 0x8000)
        },
        AsinPlan::Tiny { negative } => AsinPlan::Tiny { negative: !negative },
        AsinPlan::Evaluate { segment } => AsinPlan::Evaluate { segment },
        AsinPlan::Reduce { negative } => AsinPlan::Reduce { negative: !negative },
    }
}

/// The arc-sine is odd: the plan of `-x` is the mirror of the plan of `x`.
pub proof fn law_asin_odd(x: u16, p: AsinPlan, q: AsinPlan)
    requires
        asin_plan_spec(x, p),
        asin_plan_spec(x ^ 0x8000, q),
    ensures
        q == asin_mirror(p),
{
    assert(f16_mag(x ^ 0x8000) == f16_mag(x) && f16_negative(x ^ 0x8000) != f16_negative(x))
        by (bit_vector);
    let ax = f16_mag(x);
    if ax == 0x3c00 {
        let r1 = p->Result_0;
        let r2 = q->Result_0;
        lemma_narrow_opposite(HALF_PI, f16_negative(x), r1, r2);
    } else if 0x29c4 < ax < 0x3800 && asin_table16(ax) != 0 {
        let r1 = p->Result_0;
        let r2 = q->Result_0;
        lemma_narrow_opposite(asin_table16(ax), f16_negative(x), r1, r2);
    } else if ax == 0 {
        assert(x % 0x8000 == 0 ==> (x ^ 0x8000) % 0x8000 <= 0x7c00) by (bit_vector);
    }
}

/// Moving a magnitude below 0x1.71p-5 away from zero by 2^-26 (2^123
/// units), a quarter of the smallest spacing, leaves its rounding unchanged.
proof fn lemma_tiny_keeps(ax: nat)
    requires
        0 < ax <= 0x29c4,
    ensures
        rounds_to_nearest_even((f16_magnitude(ax) + pow2(123)) as nat, ax),
{
    lemma_f16_spacing(ax);
    lemma_f16_successor((ax - 1) as nat);
    lemma_pow2_unfold(124);
    lemma_pow2_unfold(125);
    lemma_pow2_pos(123);
}

/// Decides the arc-sine once the argument `t` (a binary32 pattern) has
/// been reduced from an input `x` with `0.5 <= |x| < 1`.
///
/// The six tabulated arguments keep the sign that the comparison of `t`
/// with the input gives; since `x` is at least 0.5 in magnitude and the
/// tabulated arguments are below 0.5, that sign is negative.
pub fn asinf16_reduced(x: u16, t: u32) -> (p: AsinReduced)
    ensures
        asin_table(f32_mag(t)) != 0 ==> (p matches AsinReduced::Result(r) && f32_narrows_to(
            with_sign(asin_table(f32_mag(t)), f32_mag(t) != f16_to_f32(x)),
            r,
        )),
        asin_table(f32_mag(t)) != 0 && 0x3800 <= f16_mag(x) ==> (p matches AsinReduced::Result(r)
            && f32_narrows_to(with_sign(asin_table(f32_mag(t)), true), r)),
        asin_table(f32_mag(t)) == 0 ==> p == (AsinReduced::Evaluate {
            segment: if f32_mag(t) < 0x3e80_0000 {
                0
            } else {
                1
            },
        }),
{
    let u = f16_to_f32_bits(x);
    let at = t & 0x7fff_ffff;
    assert(at == f32_mag(t) && (at == u ==> !f32_negative(u))) by (bit_vector)
        requires at == t & 0x7fff_ffff;
    select(at, u)
}

/// The tabulated arguments and the polynomial choice on a magnitude `at`;
/// the sign of a tabulated result is positive exactly when `at` equals the
/// input's binary32 pattern `u`.
fn select(at: u32, u: u32) -> (p: AsinReduced)
    requires
        at < 0x8000_0000,
    ensures
        asin_table(at as nat) != 0 ==> (p matches AsinReduced::Result(r) && f32_narrows_to(
            with_sign(asin_table(at as nat), at != u),
            r,
        )),
        asin_table(at as nat) == 0 ==> p == (AsinReduced::Evaluate {
            segment: if at < 0x3e80_0000 {
                0
            } else {
                1
            },
        }),
{
    let c: u32 = if at == 0x3dd3_0000 {
        0x3dd3_6005
    } else if at == 0x3d68_8000 {
        0x3d68_a002
    } else if at == 0x3dfa_0000 {
        0x3dfa_a005
    } else if at == 0x3eb2_4000 {
        0x3eb6_1009
    } else if at == 0x3ed9_6000 {
        0x3ee0_7ffd
    } else if at == 0x3ef0_a000 {
        0x3efa_7ff8
    } else {
        0
    };
    if c != 0 {
        let signed = if at == u {
            c
        } else {
            c | F32_SIGN
        };
        assert(c < F32_SIGN ==> c | F32_SIGN == c + F32_SIGN) by (bit_vector);
        return AsinReduced::Result(f32_to_f16_bits(signed));
    }
    if at < 0x3e80_0000 {
        AsinReduced::Evaluate { segment: 0 }
    } else {
        AsinReduced::Evaluate { segment: 1 }
    }
}

} // verus!
