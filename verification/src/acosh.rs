//! Inverse hyperbolic cosine of a binary16 value: the decisions taken on
//! the input's bits.
use crate::convert::{f16_to_f32_bits, f32_narrows_to, f32_to_f16_bits};
use crate::encoding::{f16_mag, f16_negative, f32_mag, f32_negative};
use crate::utils::{quiet_nan16, snanf16, F16_DEFAULT_NAN};
use vstd::prelude::*;

verus! {

/// What remains to compute the inverse hyperbolic cosine of a binary16
/// input.
#[derive(PartialEq, Eq, Structural, Debug, Clone, Copy)]
pub enum AcoshPlan {
    /// The binary16 result, known without evaluating a polynomial.
    Result(u16),
    /// `2^binade <= x < 2^(binade + 1)`: evaluate the degree-5 polynomial of
    /// that binade at `x`; with `sqrt_factor` (binades below 5, whose
    /// polynomials approximate `acosh(x) / sqrt(x - 1)`) multiply it by
    /// `sqrt(x - 1)`; then round.
    Evaluate { binade: u8, sqrt_factor: bool },
}

/// The binary16 inputs whose inverse hyperbolic cosine is tabulated, with
/// their tabulated binary32 results (0 where nothing is tabulated).
pub open spec fn acosh_table(x: nat) -> u32 {
    if x == 0x4211 {
        0x3fe3_1ffe  // acosh(0x1.844p+1) ~ 0x1.c63ffcp+0
    } else if x == 0x48e0 {
        0x403d_f003  // acosh(0x1.38p+3) ~ 0x1.7be006p+1
    } else if x == 0x4afb {
        0x4055_0001  // acosh(0x1.becp+3) ~ 0x1.aa0002p+1
    } else if x == 0x4dff {
        0x4077_aff6  // acosh(0x1.7fcp+4) ~ 0x1.ef5fecp+1
    } else if x == 0x4e02 {
        0x4077_cffb  // acosh(0x1.808p+4) ~ 0x1.ef9ff6p+1
    } else if x == 0x4ede {
        0x4080_300b  // acosh(0x1.b78p+4) ~ 0x1.006016p+2
    } else if x == 0x4e9e {
        0x407e_0015  // acosh(0x1.a78p+4) ~ 0x1.fc002ap+1
    } else if x == 0x51ba {
        0x4090_900e  // acosh(0x1.6e8p+5) ~ 0x1.21201cp+2
    } else if x == 0x522e {
        0x4093_0009  // acosh(0x1.8b8p+5) ~ 0x1.260012p+2
    } else if x == 0x5448 {
        0x409d_700c  // acosh(0x1.12p+6) ~ 0x1.3ae018p+2
    } else if x == 0x54eb {
        0x40a1_dffa  // acosh(0x1.3acp+6) ~ 0x1.43bff4p+2
    } else if x == 0x59e9 {
        0x40bd_f003  // acosh(0x1.7a4p+7) ~ 0x1.7be006p+2
    } else if x == 0x5c42 {
        0x40c9_a002  // acosh(0x1.108p+8) ~ 0x1.934004p+2
    } else if x == 0x5fcd {
        0x40dd_0007  // acosh(0x1.f34p+8) ~ 0x1.ba000ep+2
    } else if x == 0x61d8 {
        0x40e9_f006  // acosh(0x1.76p+9) ~ 0x1.d3e00cp+2
    } else if x == 0x6dbc {
        0x4115_f004  // acosh(0x1.6fp+12) ~ 0x1.2be008p+3
    } else if x == 0x739d {
        0x4125_9004  // acosh(0x1.e74p+13) ~ 0x1.4b2008p+3
    } else {
        0
    }
}

/// Decides the inverse hyperbolic cosine of the binary16 value `x` as far
/// as its bits allow.
///
/// `acosh(+inf) = +inf`; a NaN is returned quiet; `acosh(1) = +0`; inputs
/// below 1 (negative zero and negative infinity included) give the invalid
/// result; seventeen inputs have tabulated results; every other input
/// selects the polynomial of its binade.
pub fn acoshf16_plan(x: u16) -> (p: AcoshPlan)
    ensures
        x == 0x7c00 ==> p == AcoshPlan::Result(0x7c00),
        f16_mag(x) > 0x7c00 ==> (p matches AcoshPlan::Result(r) && r % 0x8000 == 0x7e00 + x
            % 0x200 && f16_negative(r) == f16_negative(x)),
        x == 0x3c00 ==> p == AcoshPlan::Result(0),
        (f16_negative(x) && f16_mag(x) <= 0x7c00) || x < 0x3c00 ==> p == AcoshPlan::Result(
            F16_DEFAULT_NAN,
        ),
        0x3c00 < x < 0x7c00 && acosh_table(x as nat) != 0 ==> (p matches AcoshPlan::Result(r)
            && f32_narrows_to(acosh_table(x as nat), r)),
        0x3c00 < x < 0x7c00 && acosh_table(x as nat) == 0 ==> p == (AcoshPlan::Evaluate {
            binade: (x / 0x400 - 15) as u8,
            sqrt_factor: x / 0x400 - 15 < 5,
        }),
{
    let u = f16_to_f32_bits(x);
    let au = u & 0x7fff_ffff;
    assert(au == f32_mag(u) && (u == au <==> !f32_negative(u)) && (u >= 0x8000_0000 <==> f32_negative(u)))
        by (bit_vector)
        requires au == u & 0x7fff_ffff;
    if au >= 0x7f80_0000 {
        // NaN or infinity: acosh(+inf) = +inf, a NaN is returned quiet
        if u == 0x7f80_0000 {
            return AcoshPlan::Result(x);
        }
        if (au & 0x7f_ffff) != 0 {
            assert(au & 0x7f_ffff != 0 ==> au != 0x7f80_0000) by (bit_vector);
            return AcoshPlan::Result(quiet_nan16(x));
        }
        assert(au & 0x7f_ffff == 0 && au >= 0x7f80_0000 && au < 0x8000_0000 ==> au == 0x7f80_0000)
            by (bit_vector);
        return AcoshPlan::Result(snanf16());  // -inf
    }
    if u >= 0x8000_0000 || au <= 0x3f80_0000 {
        // x <= 1
        if u == 0x3f80_0000 {
            return AcoshPlan::Result(0);
        }
        return AcoshPlan::Result(snanf16());
    }
    assert(au >> 23 == au / 0x80_0000) by (bit_vector);
    let i = (au >> 23) - 127;  // 2^i <= x < 2^(i + 1)
    let c = tabulated(u);
    if c != 0 {
        return AcoshPlan::Result(f32_to_f16_bits(c));
    }
    AcoshPlan::Evaluate { binade: i as u8, sqrt_factor: i < 5 }
}

/// The tabulated result for the binary32 pattern `u` of the input.
fn tabulated(u: u32) -> (c: u32)
    ensures
        0x3c00 < u / 0x2000 - 0x1c000 < 0x7c00 && u % 0x2000 == 0 ==> c == acosh_table(
            (u / 0x2000 - 0x1c000) as nat,
        ),
{
    if u == 0x4042_2000 {
        0x3fe3_1ffe
    } else if u == 0x411c_0000 {
        0x403d_f003
    } else if u == 0x415f_6000 {
        0x4055_0001
    } else if u == 0x41bf_e000 {
        0x4077_aff6
    } else if u == 0x41c0_4000 {
        0x4077_cffb
    } else if u == 0x41db_c000 {
        0x4080_300b
    } else if u == 0x41d3_c000 {
        0x407e_0015
    } else if u == 0x4237_4000 {
        0x4090_900e
    } else if u == 0x4245_c000 {
        0x4093_0009
    } else if u == 0x4289_0000 {
        0x409d_700c
    } else if u == 0x429d_6000 {
        0x40a1_dffa
    } else if u == 0x433d_2000 {
        0x40bd_f003
    } else if u == 0x4388_4000 {
        0x40c9_a002
    } else if u == 0x43f9_a000 {
        0x40dd_0007
    } else if u == 0x443b_0000 {
        0x40e9_f006
    } else if u == 0x45b7_8000 {
        0x4115_f004
    } else if u == 0x4673_a000 {
        0x4125_9004
    } else {
        0
    }
}

} // verus!
