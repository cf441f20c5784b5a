//! Arc-cosine of a binary16 value: the decisions taken on the input's bits.
use crate::convert::{
    f16_to_f32_bits, f16_widens_to, f32_narrows_to, f32_to_f16_bits, lemma_widened_compare,
};
use crate::encoding::{f16_mag, f16_magnitude, f16_negative, f32_mag, f32_magnitude, f32_negative};
use crate::utils::{snanf16, F16_DEFAULT_NAN};
use vstd::arithmetic::power2::{lemma2_to64, lemma_pow2_adds, pow2};
use vstd::prelude::*;

verus! {

/// `0x1.921fb6p+1`, pi rounded to binary32: the value of `acos(-1)`.
pub const ACOS_MINUS_ONE: u32 = 0x4049_0fdb;

/// `0x1.922002p+0`: `acos(x)` for x = -0x1.2cp-18, -0x1.3p-18, -0x1.34p-18.
pub const ACOS_EXCEPTION_TINY: u32 = 0x3fc9_1001;

/// `0x1.99e002p+0`: `acos(-0x1.fp-6)`.
pub const ACOS_EXCEPTION_A7C0: u32 = 0x3fcc_f001;

/// `0x1.9a0006p+0`: `acos(-0x1.f8p-6)`.
pub const ACOS_EXCEPTION_A7E0: u32 = 0x3fcd_0003;

/// What remains to compute the arc-cosine of a binary16 input.
#[derive(PartialEq, Eq, Structural, Debug, Clone, Copy)]
pub enum AcosPlan {
    /// The binary16 result, known without evaluating a polynomial.
    Result(u16),
    /// Evaluate the degree-4 polynomial of `segment` at `t = |x|` (segment 0
    /// for `|x| < 0.25`, 1 for `0.25 <= |x| < 0.5`, 2 for `0.5 <= |x| < 1`);
    /// with `sqrt_factor` (segment 2, whose polynomial approximates
    /// `acos(t) / sqrt(1 - t)`) multiply it by `sqrt(1 - t)`; for a negative
    /// input the result is `0x1.921fb4p+1 - y`.  The value is then rounded
    /// to binary16.
    Evaluate { segment: u8, sqrt_factor: bool, negative: bool },
}

/// The inputs whose arc-cosine is tabulated rather than evaluated.
pub open spec fn acos_is_exception(x: u16) -> bool {
    0x804b <= x <= 0x804d || x == 0xa7c0 || x == 0xa7e0
}

/// The polynomial range of an input of magnitude below 1: 0 below 0.25
/// (0x3400), 1 below 0.5 (0x3800), 2 otherwise.
pub open spec fn acos_segment(x: u16) -> u8 {
    if f16_mag(x) < 0x3400 {
        0
    } else if f16_mag(x) < 0x3800 {
        1
    } else {
        2
    }
}

/// Decides the arc-cosine of the binary16 value `x` as far as its bits
/// allow.
///
/// NaNs, infinities and inputs of magnitude above 1 give the invalid
/// result; `acos(1) = +0`; `acos(-1)` is pi rounded to binary16; five
/// negative inputs have tabulated results; every other input selects the
/// polynomial of its range.
pub fn acosf16_plan(x: u16) -> (p: AcosPlan)
    ensures
        f16_mag(x) > 0x3c00 ==> p == AcosPlan::Result(F16_DEFAULT_NAN),
        x == 0x3c00 ==> p == AcosPlan::Result(0),
        x == 0xbc00 ==> (p matches AcosPlan::Result(r) && f32_narrows_to(ACOS_MINUS_ONE, r)),
        0x804b <= x <= 0x804d ==> (p matches AcosPlan::Result(r) && f32_narrows_to(
            ACOS_EXCEPTION_TINY,
            r,
        )),
        x == 0xa7c0 ==> (p matches AcosPlan::Result(r) && f32_narrows_to(ACOS_EXCEPTION_A7C0, r)),
        x == 0xa7e0 ==> (p matches AcosPlan::Result(r) && f32_narrows_to(ACOS_EXCEPTION_A7E0, r)),
        f16_mag(x) < 0x3c00 && !acos_is_exception(x) ==> p == (AcosPlan::Evaluate {
            segment: acos_segment(x),
            sqrt_factor: acos_segment(x) == 2,
            negative: f16_negative(x),
        }),
{
    let u = f16_to_f32_bits(x);
    let au = u & 0x7fff_ffff;
    assert(au == f32_mag(u) && (u == au <==> !f32_negative(u)) && (u >> 31 != 0 <==> f32_negative(u))
        && au >> 23 <= 0xff) by (bit_vector)
        requires au == u & 0x7fff_ffff;
    proof {
        if f16_mag(x) < 0x400 {
            lemma_tiny_thresholds(x, u);
        }
    }
    if au >= 0x3f80_0000 {
        // NaN, infinity, or |x| >= 1
        if au == 0x3f80_0000 {
            if u == 0x3f80_0000 {
                return AcosPlan::Result(0);
            }
            return AcosPlan::Result(f32_to_f16_bits(ACOS_MINUS_ONE));
        }
        // the shifted exponent never exceeds 0xff, so NaNs get the invalid result too
        if (au >> 23) == 0x3ff && ((au & 0x7f_ffff) != 0) {
            return AcosPlan::Result(x);
        }
        return AcosPlan::Result(snanf16());
    }
    let negative = (u >> 31) != 0;
    if au < 0x3e80_0000 {
        // |x| < 0.25
        if negative {
            if 0x3696_0000 <= au && au <= 0x369a_0000 {
                return AcosPlan::Result(f32_to_f16_bits(ACOS_EXCEPTION_TINY));
            }
            if u == 0xbcf8_0000 {
                return AcosPlan::Result(f32_to_f16_bits(ACOS_EXCEPTION_A7C0));
            }
            if u == 0xbcfc_0000 {
                return AcosPlan::Result(f32_to_f16_bits(ACOS_EXCEPTION_A7E0));
            }
        }
        AcosPlan::Evaluate { segment: 0, sqrt_factor: false, negative }
    } else if au < 0x3f00_0000 {
        // 0.25 <= |x| < 0.5
        AcosPlan::Evaluate { segment: 1, sqrt_factor: false, negative }
    } else {
        // 0.5 <= |x| < 1
        AcosPlan::Evaluate { segment: 2, sqrt_factor: true, negative }
    }
}

/// For subnormal inputs, the widened magnitude lies in
/// `[0x3696_0000, 0x369a_0000]` exactly for the patterns 0x4b..=0x4d.
proof fn lemma_tiny_thresholds(x: u16, u: u32)
    requires
        f16_widens_to(x, u),
        f16_mag(x) < 0x400,
    ensures
        (0x3696_0000 <= f32_mag(u) <= 0x369a_0000) <==> (0x4b <= f16_mag(x) <= 0x4d),
{
    lemma2_to64();
    lemma_pow2_adds(17, 108);
    assert(0x3696_0000nat / 0x80_0000 == 109 && 0x3696_0000nat % 0x80_0000 == 0x16_0000);
    assert(0x369a_0000nat / 0x80_0000 == 109 && 0x369a_0000nat % 0x80_0000 == 0x1a_0000);
    assert(f32_magnitude(0x3696_0000) == 0x96_0000 * pow2(108));
    assert(f32_magnitude(0x369a_0000) == 0x9a_0000 * pow2(108));
    assert(0x96_0000 * pow2(108) == 75 * (pow2(17) * pow2(108))) by (nonlinear_arith)
        requires pow2(17) == 0x2_0000;
    assert(0x9a_0000 * pow2(108) == 77 * (pow2(17) * pow2(108))) by (nonlinear_arith)
        requires pow2(17) == 0x2_0000;
    assert(f16_magnitude(0x4b) == 75 * pow2(125));
    assert(f16_magnitude(0x4d) == 77 * pow2(125));
    lemma_widened_compare(x, u, 0x3696_0000, 0x4b);
    lemma_widened_compare(x, u, 0x369a_0000, 0x4d);
}

} // verus!
