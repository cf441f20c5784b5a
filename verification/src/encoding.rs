//! The value model of binary16 and binary32 bit patterns.
//!
//! Every finite binary16 or binary32 value is an integer multiple of 2^-149,
//! the smallest binary32 subnormal.  Magnitudes are therefore measured as
//! natural numbers in units of 2^-149, which keeps all of the arithmetic of
//! the model exact and integral.
use vstd::arithmetic::power2::*;
use vstd::prelude::*;

verus! {

/// The sign bit of a binary32 pattern.
pub const F32_SIGN: u32 = 0x8000_0000;

/// A binary32 pattern with the sign given by `negative`.
pub open spec fn with_sign(c: u32, negative: bool) -> u32 {
    if negative {
        (c + F32_SIGN) as u32
    } else {
        c
    }
}

/// Magnitude bits of a binary16 pattern (the pattern without its sign bit).
pub open spec fn f16_mag(h: u16) -> nat {
    (h % 0x8000) as nat
}

/// The sign bit of a binary16 pattern is set.
pub open spec fn f16_negative(h: u16) -> bool {
    h >= 0x8000
}

/// The binary16 pattern encodes a NaN (exponent all ones, nonzero fraction).
pub open spec fn f16_is_nan(h: u16) -> bool {
    f16_mag(h) > 0x7c00
}

/// The binary16 pattern encodes an infinity.
pub open spec fn f16_is_inf(h: u16) -> bool {
    f16_mag(h) == 0x7c00
}

/// Magnitude bits of a binary32 pattern.
pub open spec fn f32_mag(b: u32) -> nat {
    (b % 0x8000_0000) as nat
}

/// The sign bit of a binary32 pattern is set.
pub open spec fn f32_negative(b: u32) -> bool {
    b >= 0x8000_0000
}

/// The binary32 pattern encodes a NaN.
pub open spec fn f32_is_nan(b: u32) -> bool {
    f32_mag(b) > 0x7f80_0000
}

/// The magnitude, in units of 2^-149, encoded by the binary16 magnitude bits
/// `k`.  Subnormals (exponent field 0) are `f * 2^-24`, normals are
/// `(1024 + f) * 2^(e - 25)`.  The pattern 0x7c00 (infinity) is given the
/// value 2^16, the next power of two above the largest finite binary16: the
/// rounding threshold towards infinity is halfway to it.
pub open spec fn f16_magnitude(k: nat) -> nat {
    let e = k / 0x400;
    let f = k % 0x400;
    if e == 0 {
        f * pow2(125)
    } else {
        (0x400 + f) * pow2((e + 124) as nat)
    }
}

/// The magnitude, in units of 2^-149, encoded by the finite binary32
/// magnitude bits `k`: `f` for subnormals, `(2^23 + f) * 2^(e - 1)` for
/// normals.
pub open spec fn f32_magnitude(k: nat) -> nat {
    let e = k / 0x80_0000;
    let f = k % 0x80_0000;
    if e == 0 {
        f
    } else {
        (0x80_0000 + f) * pow2((e - 1) as nat)
    }
}

/// Within binade `e >= 1`, the pattern `e * 1024 + j` has magnitude
/// `(1024 + j) * 2^(e + 124)`; this also holds for `j == 1024`, the first
/// pattern of the next binade.
pub proof fn lemma_f16_binade(e: nat, j: nat)
    requires
        1 <= e,
        j <= 1024,
        e * 1024 + j <= 0x7c00,
    ensures
        f16_magnitude(e * 1024 + j) == (1024 + j) * pow2(e + 124),
{
    let k = e * 1024 + j;
    if j < 1024 {
        assert(k / 1024 == e && k % 1024 == j);
    } else {
        assert(k / 1024 == e + 1 && k % 1024 == 0);
        lemma_pow2_unfold(e + 125);
        assert(f16_magnitude(k) == 1024 * pow2(e + 125));
        assert(1024 * (2 * pow2(e + 124)) == 2048 * pow2(e + 124)) by (nonlinear_arith);
    }
}

/// Patterns below 0x800 (subnormals and the lowest normal binade) are evenly
/// spaced: pattern `k` has magnitude `k * 2^125`.
pub proof fn lemma_f16_low(k: nat)
    requires
        k <= 0x7ff,
    ensures
        f16_magnitude(k) == k * pow2(125),
{
    if k >= 1024 {
        assert(k / 1024 == 1 && k % 1024 == k - 1024);
    }
}

/// Binary16 magnitudes strictly increase from one pattern to the next.
pub proof fn lemma_f16_successor(k: nat)
    requires
        k < 0x7c00,
    ensures
        f16_magnitude(k) < f16_magnitude(k + 1),
{
    lemma_pow2_pos(125);
    if k < 0x7ff {
        lemma_f16_low(k);
        lemma_f16_low(k + 1);
        assert(k * pow2(125) < (k + 1) * pow2(125)) by (nonlinear_arith)
            requires pow2(125) > 0;
    } else {
        let e = k / 1024;
        let j = k % 1024;
        assert(k == e * 1024 + j);
        lemma_f16_binade(e, j);
        lemma_f16_binade(e, j + 1);
        lemma_pow2_pos(e + 124);
        assert((1024 + j) * pow2(e + 124) < (1024 + j + 1) * pow2(e + 124)) by (nonlinear_arith)
            requires pow2(e + 124) > 0;
    }
}

/// Binary16 magnitudes strictly increase with their patterns: the order of
/// the bit patterns is the order of the values.
pub proof fn lemma_f16_increasing(a: nat, b: nat)
    requires
        a < b <= 0x7c00,
    ensures
        f16_magnitude(a) < f16_magnitude(b),
    decreases b - a,
{
    lemma_f16_successor(a);
    if a + 1 < b {
        lemma_f16_increasing(a + 1, b);
    }
}

/// Order of patterns and order of values agree, both ways.
pub proof fn lemma_f16_order(a: nat, b: nat)
    requires
        a <= 0x7c00,
        b <= 0x7c00,
    ensures
        a < b <==> f16_magnitude(a) < f16_magnitude(b),
        a == b <==> f16_magnitude(a) == f16_magnitude(b),
{
    if a < b {
        lemma_f16_increasing(a, b);
    } else if b < a {
        lemma_f16_increasing(b, a);
    }
}


/// Binary32 magnitudes strictly increase from one finite pattern to the
/// next.
pub proof fn lemma_f32_successor(k: nat)
    requires
        k < 0x7f80_0000,
    ensures
        f32_magnitude(k) < f32_magnitude(k + 1),
{
    let e = k / 0x80_0000;
    let f = k % 0x80_0000;
    if f + 1 < 0x80_0000 {
        assert((k + 1) / 0x80_0000 == e && (k + 1) % 0x80_0000 == f + 1);
        if e > 0 {
            lemma_pow2_pos((e - 1) as nat);
            assert((0x80_0000 + f) * pow2((e - 1) as nat) < (0x80_0000 + f + 1) * pow2(
                (e - 1) as nat,
            )) by (nonlinear_arith)
                requires pow2((e - 1) as nat) > 0;
        }
        assert(f32_magnitude(k + 1) == if e == 0 { f + 1 } else { (0x80_0000 + f + 1) * pow2((e - 1) as nat) });
    } else {
        assert((k + 1) / 0x80_0000 == e + 1 && (k + 1) % 0x80_0000 == 0);
        if e == 0 {
            vstd::arithmetic::power2::lemma2_to64();
            assert(f32_magnitude(k + 1) == 0x80_0000 * pow2(0));
        } else {
            lemma_pow2_unfold(e);
            lemma_pow2_pos((e - 1) as nat);
            assert((0x80_0000 + f) * pow2((e - 1) as nat) < 0x80_0000 * (2 * pow2((e - 1) as nat)))
                by (nonlinear_arith)
                requires pow2((e - 1) as nat) > 0, f == 0x7f_ffff;
            assert(f32_magnitude(k + 1) == 0x80_0000 * pow2(e));
        }
    }
}

/// Binary32 magnitudes strictly increase with their finite patterns.
pub proof fn lemma_f32_increasing(a: nat, b: nat)
    requires
        a < b <= 0x7f80_0000,
    ensures
        f32_magnitude(a) < f32_magnitude(b),
    decreases b - a,
{
    lemma_f32_successor(a);
    if a + 1 < b {
        lemma_f32_increasing(a + 1, b);
    }
}

/// Order of finite binary32 patterns and order of their values agree.
pub proof fn lemma_f32_order(a: nat, b: nat)
    requires
        a <= 0x7f80_0000,
        b <= 0x7f80_0000,
    ensures
        a < b <==> f32_magnitude(a) < f32_magnitude(b),
        a == b <==> f32_magnitude(a) == f32_magnitude(b),
{
    if a < b {
        lemma_f32_increasing(a, b);
    } else if b < a {
        lemma_f32_increasing(b, a);
    }
}


/// Neighbouring binary16 magnitudes are at least 2^-24 (2^125 units) apart.
pub proof fn lemma_f16_spacing(k: nat)
    requires
        k < 0x7c00,
    ensures
        f16_magnitude(k + 1) >= f16_magnitude(k) + pow2(125),
{
    if k < 0x7ff {
        lemma_f16_low(k);
        lemma_f16_low(k + 1);
        assert((k + 1) * pow2(125) == k * pow2(125) + pow2(125)) by (nonlinear_arith);
    } else {
        let e = k / 1024;
        let j = k % 1024;
        assert(k == e * 1024 + j);
        lemma_f16_binade(e, j);
        lemma_f16_binade(e, j + 1);
        if e + 124 > 125 {
            lemma_pow2_strictly_increases(125, e + 124);
        }
        assert((1024 + j + 1) * pow2(e + 124) == (1024 + j) * pow2(e + 124) + pow2(e + 124))
            by (nonlinear_arith);
    }
}

/// Flipping the sign bit flips the sign and keeps the magnitude, in both
/// formats.
pub proof fn lemma_negate_fields(h: u16, b: u32)
    ensures
        f16_mag(h ^ 0x8000) == f16_mag(h),
        f16_negative(h ^ 0x8000) != f16_negative(h),
        f32_mag(b ^ 0x8000_0000) == f32_mag(b),
        f32_negative(b ^ 0x8000_0000) != f32_negative(b),
{
    assert(f16_mag(h ^ 0x8000) == f16_mag(h) && (f16_negative(h ^ 0x8000) != f16_negative(h))
        && f32_mag(b ^ 0x8000_0000) == f32_mag(b) && (f32_negative(b ^ 0x8000_0000)
        != f32_negative(b))) by (bit_vector);
}

} // verus!
