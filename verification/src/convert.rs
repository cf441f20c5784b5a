//! Exact conversions between binary16 and binary32 bit patterns.
//!
//! Widening a binary16 value to binary32 is exact.  Narrowing a binary32
//! value to binary16 rounds to nearest, ties to even, overflowing to
//! infinity; NaNs keep their sign and the top of their payload and become
//! quiet.
use crate::encoding::{
    f16_is_inf, f16_is_nan, f16_mag, f16_magnitude, f16_negative, f32_is_nan, f32_mag,
    f32_magnitude, f32_negative, lemma_f16_binade, lemma_f16_low, lemma_f16_order,
    lemma_f16_successor, lemma_f32_order, lemma_negate_fields, with_sign,
};
use vstd::arithmetic::power2::*;
use vstd::prelude::*;

verus! {

/// `b` is the binary32 encoding of the binary16 value `h`: same sign, same
/// magnitude; infinities stay infinities, and a NaN becomes a quiet NaN
/// (quiet bit 0x40_0000 set) whose payload is the binary16 payload moved to
/// the top of the binary32 fraction.
pub open spec fn f16_widens_to(h: u16, b: u32) -> bool {
    &&& f32_negative(b) == f16_negative(h)
    &&& if f16_is_nan(h) {
        f32_mag(b) == 0x7fc0_0000 + (f16_mag(h) % 0x200) * 0x2000
    } else if f16_is_inf(h) {
        f32_mag(b) == 0x7f80_0000
    } else {
        &&& f32_mag(b) < 0x7f80_0000
        &&& f32_magnitude(f32_mag(b)) == f16_magnitude(f16_mag(h))
    }
}

/// The binary32 pattern of the binary16 value `h`: the unique pattern `b`
/// with `f16_widens_to(h, b)` (see `law_widening_unique`).
pub open spec fn f16_to_f32(h: u16) -> u32 {
    choose|b: u32| f16_widens_to(h, b)
}

/// A binary16 value has exactly one binary32 encoding.
pub proof fn law_widening_unique(h: u16, b1: u32, b2: u32)
    requires
        f16_widens_to(h, b1),
        f16_widens_to(h, b2),
    ensures
        b1 == b2,
{
    if !f16_is_nan(h) && !f16_is_inf(h) {
        lemma_f32_order(f32_mag(b1), f32_mag(b2));
    }
}

/// The binary32 encoding of the value of binary16 pattern `h`.
///
/// Besides the exact value, the result's magnitude bits are given in closed
/// form for normal inputs, `(mag + 0x1c000) * 0x2000`, and lie below the
/// binary32 encoding of 2^-14 (0x3880_0000) for subnormal inputs and zeros.
pub fn f16_to_f32_bits(h: u16) -> (b: u32)
    ensures
        f16_widens_to(h, b),
        b == f16_to_f32(h),
        0x400 <= f16_mag(h) < 0x7c00 ==> f32_mag(b) == (f16_mag(h) + 0x1c000) * 0x2000,
        f16_mag(h) < 0x400 ==> f32_mag(b) < 0x3880_0000,
        f16_mag(h) == 0 <==> f32_mag(b) == 0,
        0 < f16_mag(h) < 0x7c00 ==> 103 <= f32_mag(b) / 0x80_0000 <= 142,
        f32_mag(b) % 0x2000 == 0,
{
    let b = widen_bits(h);
    proof {
        law_widening_unique(h, b, f16_to_f32(h));
    }
    b
}

/// Builds the binary32 pattern field by field, normalising subnormals.
fn widen_bits(h: u16) -> (b: u32)
    ensures
        f16_widens_to(h, b),
        0x400 <= f16_mag(h) < 0x7c00 ==> f32_mag(b) == (f16_mag(h) + 0x1c000) * 0x2000,
        f16_mag(h) < 0x400 ==> f32_mag(b) < 0x3880_0000,
        f16_mag(h) == 0 <==> f32_mag(b) == 0,
        0 < f16_mag(h) < 0x7c00 ==> 103 <= f32_mag(b) / 0x80_0000 <= 142,
        f32_mag(b) % 0x2000 == 0,
{
    let w: u32 = h as u32;
    let sign: u32 = (w >> 15) << 31;
    let e: u32 = (w >> 10) & 0x1f;
    let f: u32 = w & 0x3ff;
    proof {
        assert(e == (h % 0x8000) / 1024 && f == (h % 0x8000) % 1024
            && (sign == 0 <==> h < 0x8000) && (sign == 0 || sign == 0x8000_0000)) by (bit_vector)
            requires w == h as u32, sign == (w >> 15) << 31, e == (w >> 10) & 0x1f, f == w & 0x3ff;
    }
    if e == 0x1f && f == 0 {
        let b = sign | 0x7f80_0000;
        assert(b % 0x8000_0000 == 0x7f80_0000 && (b >= 0x8000_0000 <==> sign != 0)) by (bit_vector)
            requires b == sign | 0x7f80_0000, sign == 0 || sign == 0x8000_0000;
        b
    } else if e == 0x1f {
        // a NaN, made quiet if it was signalling
        let b = sign | 0x7fc0_0000 | (f << 13);
        assert(b % 0x8000_0000 == 0x7fc0_0000 + (f % 0x200) * 0x2000 && (b >= 0x8000_0000 <==> sign
            != 0)) by (bit_vector)
            requires b == sign | 0x7fc0_0000 | (f << 13), f < 0x400, sign == 0 || sign == 0x8000_0000;
        assert(f % 0x200 == f16_mag(h) % 0x200);
        b
    } else if e != 0 {
        let ex: u32 = e + 112;
        let b = sign | (ex << 23) | (f << 13);
        assert(b % 0x8000_0000 == ex * 0x80_0000 + f * 0x2000 && (b >= 0x8000_0000 <==> sign != 0))
            by (bit_vector)
            requires b == sign | (ex << 23) | (f << 13), f < 0x400, ex < 0x8f,
                sign == 0 || sign == 0x8000_0000;
        proof {
            let k = (ex * 0x80_0000 + f * 0x2000) as nat;
            assert(k / 0x80_0000 == ex && k % 0x80_0000 == f * 0x2000);
            lemma_pow2_adds((ex - 1) as nat, 13);
            lemma2_to64();
            assert(((ex - 1) as nat) + 13 == e + 124);
            let p = pow2((ex - 1) as nat);
            assert((0x80_0000 + f * 0x2000) * p == (0x400 + f) * (p * 8192)) by (nonlinear_arith);
        }
        b
    } else if f == 0 {
        proof {
            assert(sign % 0x8000_0000 == 0) by (bit_vector)
                requires sign == 0 || sign == 0x8000_0000;
        }
        sign
    } else {
        let mut m: u32 = f;
        let mut ex: u32 = 113;
        proof {
            lemma2_to64();
            assert(((113 - ex) as nat) == 0);
            assert(pow2(0) == 1);
            assert(f * pow2(0) == f * 1);
        }
        while m < 0x400
            invariant
                1 <= f < 0x400,
                1 <= m < 0x800,
                103 <= ex <= 113,
                m == f * pow2((113 - ex) as nat),
                m < 0x400 ==> ex >= 104,
                m >= 0x400 ==> ex <= 112,
            decreases ex,
        {
            proof {
                lemma2_to64();
                lemma_pow2_unfold((113 - ex + 1) as nat);
                assert(m * 2 == f * pow2((113 - (ex - 1)) as nat)) by (nonlinear_arith)
                    requires pow2((113 - (ex - 1)) as nat) == 2 * pow2((113 - ex) as nat),
                        m == f * pow2((113 - ex) as nat);
                if ex == 104 && m * 2 < 0x400 {
                    assert(((113 - (ex - 1)) as nat) == 10);
                    assert(f * 1024 >= 1024) by (nonlinear_arith) requires f >= 1;
                }
            }
            m = m * 2;
            ex = ex - 1;
        }
        let mf: u32 = m - 0x400;
        let b = sign | (ex << 23) | (mf << 13);
        assert(b % 0x8000_0000 == ex * 0x80_0000 + mf * 0x2000
            && (b >= 0x8000_0000 <==> sign != 0)) by (bit_vector)
            requires b == sign | (ex << 23) | (mf << 13), mf < 0x400, ex < 0x8f,
                sign == 0 || sign == 0x8000_0000;
        proof {
            let k = (ex * 0x80_0000 + (m - 0x400) * 0x2000) as nat;
            assert(k / 0x80_0000 == ex && k % 0x80_0000 == (m - 0x400) * 0x2000);
            let p = pow2((ex - 1) as nat);
            assert(f32_magnitude(k) == (0x80_0000 + (m - 0x400) * 0x2000) * p);
            lemma_pow2_adds((113 - ex) as nat, (ex - 1) as nat);
            lemma_pow2_adds(112, 13);
            assert(((113 - ex) as nat) + ((ex - 1) as nat) == 112);
            let q = pow2((113 - ex) as nat);
            assert((0x80_0000 + (m - 0x400) * 0x2000) * p == f * (pow2(112) * 8192)) by (nonlinear_arith)
                requires m == f * q, pow2(112) == q * p, m >= 0x400;
            assert(f16_magnitude(f as nat) == f * pow2(125));
        }
        b
    }
}


/// `r` is the binary16 magnitude pattern nearest to the magnitude `a`
/// (units of 2^-149), ties going to the pattern with an even fraction.
/// The midpoint between two neighbouring patterns belongs to the even one;
/// magnitudes at or above halfway between the largest finite binary16 and
/// 2^16 round to infinity (0x7c00).
pub open spec fn rounds_to_nearest_even(a: nat, r: nat) -> bool {
    &&& r <= 0x7c00
    &&& r > 0 ==> {
        ||| 2 * a > f16_magnitude((r - 1) as nat) + f16_magnitude(r)
        ||| 2 * a == f16_magnitude((r - 1) as nat) + f16_magnitude(r) && r % 2 == 0
    }
    &&& r < 0x7c00 ==> {
        ||| 2 * a < f16_magnitude(r) + f16_magnitude(r + 1)
        ||| 2 * a == f16_magnitude(r) + f16_magnitude(r + 1) && r % 2 == 0
    }
}

/// `h` is the binary16 result of converting the binary32 pattern `b`: the
/// sign is kept; a finite magnitude is rounded to nearest, ties to even; an
/// infinity stays infinite; a NaN becomes a quiet NaN carrying the top nine
/// bits of its payload.
pub open spec fn f32_narrows_to(b: u32, h: u16) -> bool {
    &&& f16_negative(h) == f32_negative(b)
    &&& if f32_is_nan(b) {
        f16_mag(h) == 0x7e00 + (f32_mag(b) % 0x80_0000) / 0x2000 % 0x200
    } else if f32_mag(b) == 0x7f80_0000 {
        f16_mag(h) == 0x7c00
    } else {
        rounds_to_nearest_even(f32_magnitude(f32_mag(b)), f16_mag(h))
    }
}

/// Finite binary32 magnitudes of exponent field 143 or more (at least 2^16)
/// overflow to infinity.
proof fn lemma_round_overflow(k: nat)
    requires
        143 <= k / 0x80_0000 <= 254,
    ensures
        rounds_to_nearest_even(f32_magnitude(k), 0x7c00),
{
    let e = k / 0x80_0000;
    let f = k % 0x80_0000;
    let u = pow2((e - 1) as nat);
    if e - 1 > 142 {
        lemma_pow2_strictly_increases(142, (e - 1) as nat);
    }
    assert(f32_magnitude(k) >= 0x80_0000 * pow2(142)) by (nonlinear_arith)
        requires f32_magnitude(k) == (0x80_0000 + f) * u, u >= pow2(142);
    lemma_pow2_adds(142, 23);
    lemma_pow2_adds(11, 154);
    lemma_pow2_pos(154);
    lemma2_to64();
    lemma_f16_binade(30, 1023);
    lemma_f16_binade(30, 1024);
    assert(30 * 1024 + 1024 == 0x7c00);
    assert(30 * 1024 + 1023 == 0x7bff);
    assert(f16_magnitude(0x7bff) + f16_magnitude(0x7c00) < 2 * (0x80_0000 * pow2(142)))
        by (nonlinear_arith)
        requires f16_magnitude(0x7bff) == 2047 * pow2(154),
            f16_magnitude(0x7c00) == 2048 * pow2(154),
            pow2(165) == 0x80_0000 * pow2(142), pow2(165) == 2048 * pow2(154),
            pow2(154) > 0;
}

/// Exponent fields 113..=142 land in the binary16 normal range: keep the top
/// ten fraction bits and round on the thirteen bits below.
proof fn lemma_round_normal(k: nat, keep: nat, rem: nat, up: nat)
    requires
        113 <= k / 0x80_0000 <= 142,
        keep == (k % 0x80_0000) / 0x2000,
        rem == (k % 0x80_0000) % 0x2000,
        up == (if rem > 0x1000 || (rem == 0x1000 && keep % 2 == 1) { 1nat } else { 0nat }),
    ensures
        rounds_to_nearest_even(
            f32_magnitude(k),
            ((k / 0x80_0000 - 112) * 1024 + keep + up) as nat,
        ),
{
    let e = k / 0x80_0000;
    let m = k % 0x80_0000;
    let e16 = (e - 112) as nat;
    let u = pow2((e - 1) as nat);
    let c = 8192 * u;
    let a = f32_magnitude(k);
    let r = (e16 * 1024 + keep + up) as nat;
    lemma_pow2_pos((e - 1) as nat);
    lemma_pow2_adds((e - 1) as nat, 13);
    lemma2_to64();
    assert(((e - 1) as nat) + 13 == e16 + 124);
    assert(pow2(e16 + 124) == c);
    assert(m == keep * 8192 + rem);
    assert(a == (1024 + keep) * c + rem * u) by (nonlinear_arith)
        requires a == (0x80_0000 + m) * u, m == keep * 8192 + rem, c == 8192 * u;
    lemma_f16_binade(e16, keep + up);
    let mr = f16_magnitude(r);
    assert(mr == (1024 + keep + up) * c);
    // lower side
    if up == 0 {
        if r > 0 {
            lemma_f16_successor((r - 1) as nat);
            assert(a >= mr) by (nonlinear_arith)
                requires a == (1024 + keep) * c + rem * u, mr == (1024 + keep) * c, u > 0;
        }
    } else {
        lemma_f16_binade(e16, keep);
        assert(e16 * 1024 + keep == r - 1);
        let ml = f16_magnitude((r - 1) as nat);
        assert(ml == (1024 + keep) * c);
        assert(2 * a - (ml + mr) == (2 * rem - 8192) * u) by (nonlinear_arith)
            requires a == (1024 + keep) * c + rem * u, ml == (1024 + keep) * c,
                mr == (1025 + keep) * c, c == 8192 * u;
        assert((2 * rem - 8192) * u >= 0) by (nonlinear_arith) requires rem >= 0x1000, u > 0;
        if rem > 0x1000 {
            assert((2 * rem - 8192) * u > 0) by (nonlinear_arith) requires rem > 0x1000, u > 0;
        }
    }
    // upper side
    if r < 0x7c00 {
        let mh = f16_magnitude(r + 1);
        if up == 0 {
            lemma_f16_binade(e16, keep + 1);
            assert(mh == (1025 + keep) * c);
            assert(2 * a - (mr + mh) == (2 * rem - 8192) * u) by (nonlinear_arith)
                requires a == (1024 + keep) * c + rem * u, mr == (1024 + keep) * c,
                    mh == (1025 + keep) * c, c == 8192 * u;
            assert((2 * rem - 8192) * u <= 0) by (nonlinear_arith) requires rem <= 0x1000, u > 0;
            if rem < 0x1000 {
                assert((2 * rem - 8192) * u < 0) by (nonlinear_arith) requires rem < 0x1000, u > 0;
            }
        } else {
            if keep + 2 <= 1024 {
                lemma_f16_binade(e16, keep + 2);
                assert(mh == (1026 + keep) * c);
            } else {
                assert(keep == 1023);
                assert(r + 1 == (e16 + 1) * 1024 + 1);
                lemma_f16_binade(e16 + 1, 1);
                lemma_pow2_unfold(e16 + 125);
                assert(mh == 2050 * c) by (nonlinear_arith)
                    requires mh == 1025 * pow2(e16 + 125), pow2(e16 + 125) == 2 * pow2(e16 + 124),
                        pow2(e16 + 124) == c;
            }
            assert(mh >= (1026 + keep) * c) by (nonlinear_arith)
                requires mh >= (1026 + keep) * c || (keep == 1023 && mh == 2050 * c), c >= 0;
            assert(2 * a < mr + mh) by (nonlinear_arith)
                requires a == (1024 + keep) * c + rem * u, mr == (1025 + keep) * c,
                    mh >= (1026 + keep) * c, c == 8192 * u, rem < 8192, u > 0;
        }
    }
}


/// Exponent fields 101..=112 give a binary16 subnormal (or the smallest
/// normal, when rounding carries): the full significand is divided by
/// `2^(126 - e)` and rounded on the remainder.
proof fn lemma_round_subnormal(k: nat, sh: nat, q: nat, rem: nat, up: nat)
    requires
        101 <= k / 0x80_0000 <= 112,
        sh == 126 - k / 0x80_0000,
        q == (0x80_0000 + k % 0x80_0000) / pow2(sh),
        rem == (0x80_0000 + k % 0x80_0000) % pow2(sh),
        up == (if rem > pow2(sh) / 2 || (rem == pow2(sh) / 2 && q % 2 == 1) { 1nat } else { 0nat }),
    ensures
        q + up <= 1024,
        rounds_to_nearest_even(f32_magnitude(k), q + up),
{
    let e = k / 0x80_0000;
    let m = k % 0x80_0000;
    let sig = 0x80_0000 + m;
    let p = pow2(sh);
    let u = pow2((e - 1) as nat);
    let big = pow2(125);
    let a = f32_magnitude(k);
    let r = q + up;
    lemma_pow2_pos(sh);
    lemma_pow2_pos((e - 1) as nat);
    lemma_pow2_adds(sh, (e - 1) as nat);
    assert(sh + ((e - 1) as nat) == 125);
    assert(big == p * u);
    lemma_pow2_unfold(sh);
    lemma2_to64();
    if sh > 14 {
        lemma_pow2_strictly_increases(14, sh);
    }
    assert(p >= 16384);
    assert(sig == q * p + rem && rem < p) by (nonlinear_arith)
        requires q == sig / p, rem == sig % p, p > 0;
    assert(q < 1024) by (nonlinear_arith)
        requires sig == q * p + rem, rem >= 0, p >= 16384, sig < 0x100_0000;
    assert(p % 2 == 0 && p / 2 * 2 == p);
    assert(a == q * big + rem * u) by (nonlinear_arith)
        requires a == sig * u, sig == q * p + rem, big == p * u;
    lemma_f16_low(r);
    lemma_f16_low(r + 1);
    if r > 0 {
        lemma_f16_low((r - 1) as nat);
    }
    let mr = f16_magnitude(r);
    let mh = f16_magnitude(r + 1);
    assert(mr + mh == (2 * r + 1) * big) by (nonlinear_arith)
        requires mr == r * big, mh == (r + 1) * big;
    if up == 0 {
        if r > 0 {
            assert(2 * a - (f16_magnitude((r - 1) as nat) + mr) == big + 2 * rem * u)
                by (nonlinear_arith)
                requires a == q * big + rem * u, f16_magnitude((r - 1) as nat) == (r - 1) * big,
                    mr == r * big, r == q;
            assert(big > 0) by (nonlinear_arith) requires big == p * u, p > 0, u > 0;
            assert(rem * u >= 0) by (nonlinear_arith) requires rem >= 0, u > 0;
        }
        assert(2 * a - (mr + mh) == (2 * rem - p) * u) by (nonlinear_arith)
            requires a == q * big + rem * u, mr + mh == (2 * r + 1) * big, r == q, big == p * u;
        assert((2 * rem - p) * u <= 0) by (nonlinear_arith)
            requires 2 * rem <= p, u > 0;
        if 2 * rem < p {
            assert((2 * rem - p) * u < 0) by (nonlinear_arith) requires 2 * rem < p, u > 0;
        }
    } else {
        let ml = f16_magnitude((r - 1) as nat);
        assert(2 * a - (ml + mr) == (2 * rem - p) * u) by (nonlinear_arith)
            requires a == q * big + rem * u, ml == q * big, mr == (q + 1) * big, big == p * u;
        assert((2 * rem - p) * u >= 0) by (nonlinear_arith) requires 2 * rem >= p, u > 0;
        if 2 * rem > p {
            assert((2 * rem - p) * u > 0) by (nonlinear_arith) requires 2 * rem > p, u > 0;
        }
        assert(2 * a < mr + mh) by (nonlinear_arith)
            requires a == q * big + rem * u, mr + mh == (2 * r + 1) * big, r == q + 1,
                big == p * u, rem < p, u > 0;
    }
}

/// Exponent fields 0..=100 (magnitudes below 2^-25) round to zero.
proof fn lemma_round_zero(k: nat)
    requires
        k / 0x80_0000 <= 100,
    ensures
        rounds_to_nearest_even(f32_magnitude(k), 0),
{
    let e = k / 0x80_0000;
    let m = k % 0x80_0000;
    lemma2_to64();
    lemma_pow2_adds(24, 99);
    lemma_pow2_adds(123, 2);
    lemma_pow2_pos(99);
    lemma_f16_low(1);
    lemma_f16_low(0);
    if e == 0 {
        lemma_pow2_strictly_increases(24, 123);
    } else {
        if e - 1 < 99 {
            lemma_pow2_strictly_increases((e - 1) as nat, 99);
        }
        assert(f32_magnitude(k) < pow2(24) * pow2(99)) by (nonlinear_arith)
            requires f32_magnitude(k) == (0x80_0000 + m) * pow2((e - 1) as nat),
                pow2((e - 1) as nat) <= pow2(99), m < 0x80_0000, pow2(24) == 0x100_0000,
                pow2(99) > 0;
    }
    assert(f16_magnitude(1) == pow2(125));
}

/// Rounds a finite binary32 magnitude to the nearest binary16 magnitude,
/// ties to even (0x7c00 on overflow).
fn round_magnitude(k: u32) -> (r: u16)
    requires
        k < 0x7f80_0000,
    ensures
        rounds_to_nearest_even(f32_magnitude(k as nat), r as nat),
{
    let e: u32 = k >> 23;
    let m: u32 = k & 0x7f_ffff;
    assert(e == k / 0x80_0000 && m == k % 0x80_0000) by (bit_vector)
        requires e == k >> 23, m == k & 0x7f_ffff;
    if e >= 143 {
        proof {
            lemma_round_overflow(k as nat);
        }
        0x7c00
    } else if e >= 113 {
        let keep: u32 = m >> 13;
        let rem: u32 = m & 0x1fff;
        assert(keep == m / 0x2000 && rem == m % 0x2000 && keep < 0x400) by (bit_vector)
            requires keep == m >> 13, rem == m & 0x1fff, m < 0x80_0000;
        let up: u32 = if rem > 0x1000 || (rem == 0x1000 && keep % 2 == 1) { 1 } else { 0 };
        proof {
            lemma_round_normal(k as nat, keep as nat, rem as nat, up as nat);
        }
        (((e - 112) * 1024 + keep + up) as u16)
    } else if e >= 101 {
        let sig: u32 = 0x80_0000 | m;
        assert(sig == 0x80_0000 + m) by (bit_vector) requires sig == 0x80_0000 | m, m < 0x80_0000;
        let sh: u32 = 126 - e;
        proof {
            vstd::bits::lemma_u32_pow2_no_overflow(sh as nat);
            vstd::bits::lemma_u32_shl_is_mul(1, sh);
        }
        let p: u32 = 1u32 << sh;
        let q: u32 = sig / p;
        let rem: u32 = sig % p;
        let half: u32 = p / 2;
        let up: u32 = if rem > half || (rem == half && q % 2 == 1) { 1 } else { 0 };
        proof {
            lemma_round_subnormal(k as nat, sh as nat, q as nat, rem as nat, up as nat);
        }
        (q + up) as u16
    } else {
        proof {
            lemma_round_zero(k as nat);
        }
        0
    }
}

/// Converts a binary32 pattern to the binary16 pattern of the same value,
/// rounded to nearest with ties to even (the `as` conversion of `f32` to
/// `f16`).
pub fn f32_to_f16_bits(b: u32) -> (h: u16)
    ensures
        f32_narrows_to(b, h),
{
    let sign: u16 = ((b >> 16) & 0x8000) as u16;
    let k: u32 = b & 0x7fff_ffff;
    assert(k == b % 0x8000_0000 && (sign == 0 || sign == 0x8000) && (sign == 0 <==> b < 0x8000_0000))
        by (bit_vector)
        requires sign == ((b >> 16) & 0x8000) as u16, k == b & 0x7fff_ffff;
    if k > 0x7f80_0000 {
        let payload: u16 = ((k >> 13) & 0x1ff) as u16;
        let h = sign | 0x7e00 | payload;
        assert(payload == (k % 0x80_0000) / 0x2000 % 0x200) by (bit_vector)
            requires payload == ((k >> 13) & 0x1ff) as u16;
        assert(h % 0x8000 == 0x7e00 + payload && (h >= 0x8000 <==> sign != 0)) by (bit_vector)
            requires h == sign | 0x7e00 | payload, payload < 0x200, sign == 0 || sign == 0x8000;
        h
    } else if k == 0x7f80_0000 {
        let h = sign | 0x7c00;
        assert(h % 0x8000 == 0x7c00 && (h >= 0x8000 <==> sign != 0)) by (bit_vector)
            requires h == sign | 0x7c00, sign == 0 || sign == 0x8000;
        h
    } else {
        let r = round_magnitude(k);
        let h = sign | r;
        assert(h % 0x8000 == r && (h >= 0x8000 <==> sign != 0)) by (bit_vector)
            requires h == sign | r, r <= 0x7c00, sign == 0 || sign == 0x8000;
        h
    }
}


/// A larger pattern cannot be the rounding of a magnitude that is not larger.
proof fn lemma_no_crossing(alo: nat, ahi: nat, lo: nat, hi: nat)
    requires
        rounds_to_nearest_even(alo, lo),
        rounds_to_nearest_even(ahi, hi),
        ahi <= alo,
    ensures
        hi <= lo,
{
    if lo < hi {
        lemma_f16_order(lo, (hi - 1) as nat);
        lemma_f16_order(lo + 1, hi);
        let s_lo = f16_magnitude(lo) + f16_magnitude(lo + 1);
        let s_hi = f16_magnitude((hi - 1) as nat) + f16_magnitude(hi);
        assert(s_lo <= s_hi);
        assert(2 * alo <= s_lo);
        assert(2 * ahi >= s_hi);
        assert(lo + 1 == hi);
    }
}

/// Rounding is a function: a magnitude has exactly one nearest-even
/// binary16 pattern.
pub proof fn law_rounding_unique(a: nat, r1: nat, r2: nat)
    requires
        rounds_to_nearest_even(a, r1),
        rounds_to_nearest_even(a, r2),
    ensures
        r1 == r2,
{
    if r1 < r2 {
        lemma_no_crossing(a, a, r1, r2);
    } else if r2 < r1 {
        lemma_no_crossing(a, a, r2, r1);
    }
}

/// Narrowing is a function: a binary32 pattern has exactly one binary16
/// result.
pub proof fn law_narrowing_unique(b: u32, h1: u16, h2: u16)
    requires
        f32_narrows_to(b, h1),
        f32_narrows_to(b, h2),
    ensures
        h1 == h2,
{
    if !f32_is_nan(b) && f32_mag(b) != 0x7f80_0000 {
        law_rounding_unique(f32_magnitude(f32_mag(b)), f16_mag(h1), f16_mag(h2));
    }
}

/// Rounding is monotone: a larger magnitude never rounds to a smaller
/// binary16 value.
pub proof fn law_rounding_monotone(a1: nat, a2: nat, r1: nat, r2: nat)
    requires
        a1 <= a2,
        rounds_to_nearest_even(a1, r1),
        rounds_to_nearest_even(a2, r2),
    ensures
        r1 <= r2,
{
    if r2 < r1 {
        lemma_no_crossing(a2, a1, r2, r1);
    }
}

/// Every finite binary16 value is its own rounding.
pub proof fn law_rounding_exact(r: nat)
    requires
        r < 0x7c00,
    ensures
        rounds_to_nearest_even(f16_magnitude(r), r),
{
    lemma_f16_successor(r);
    if r > 0 {
        lemma_f16_successor((r - 1) as nat);
    }
}

/// Narrowing undoes widening: converting a binary16 value to binary32 and
/// back gives the same pattern, except that a signalling NaN comes back
/// quiet (its payload otherwise unchanged).
pub proof fn law_narrow_after_widen(h: u16, b: u32, r: u16)
    requires
        f16_widens_to(h, b),
        f32_narrows_to(b, r),
    ensures
        !f16_is_nan(h) ==> r == h,
        f16_is_nan(h) ==> f16_negative(r) == f16_negative(h) && f16_mag(r) == 0x7e00 + f16_mag(h)
            % 0x200,
{
    if f16_is_nan(h) {
        let f = f16_mag(h) % 0x200;
        assert((0x7fc0_0000 + f * 0x2000) % 0x80_0000 / 0x2000 % 0x200 == f);
    } else if f16_is_inf(h) {
        assert(r % 0x8000 == h % 0x8000);
    } else {
        law_rounding_exact(f16_mag(h));
        law_rounding_unique(f16_magnitude(f16_mag(h)), f16_mag(h), f16_mag(r));
        assert(r % 0x8000 == h % 0x8000);
    }
}

/// Narrowing commutes with negation: flipping the sign of the binary32
/// input flips the sign of the binary16 result and nothing else.
pub proof fn law_narrow_negate(b: u32, h: u16)
    ensures
        f32_narrows_to(b, h) <==> f32_narrows_to(b ^ 0x8000_0000, h ^ 0x8000),
{
    lemma_negate_fields(h, b);
}


/// Comparing a widened binary16 value with a binary32 threshold is
/// comparing the binary16 value with the binary16 pattern of equal value.
pub proof fn lemma_widened_compare(h: u16, b: u32, c32: nat, c16: nat)
    requires
        f16_widens_to(h, b),
        f16_mag(h) < 0x7c00,
        c32 <= 0x7f80_0000,
        c16 <= 0x7c00,
        f32_magnitude(c32) == f16_magnitude(c16),
    ensures
        f32_mag(b) < c32 <==> f16_mag(h) < c16,
        f32_mag(b) == c32 <==> f16_mag(h) == c16,
{
    lemma_f32_order(f32_mag(b), c32);
    lemma_f16_order(f16_mag(h), c16);
}


/// A finite binary32 magnitude given opposite signs narrows to opposite
/// binary16 results, neither of them a NaN.
pub proof fn lemma_narrow_opposite(c: u32, negative: bool, r1: u16, r2: u16)
    requires
        c < 0x7f80_0000,
        f32_narrows_to(with_sign(c, negative), r1),
        f32_narrows_to(with_sign(c, !negative), r2),
    ensures
        r2 == r1 ^ 0x8000,
        !f16_is_nan(r1),
{
    let b = with_sign(c, negative);
    if negative {
        assert(b == c + 0x8000_0000);
        assert((c + 0x8000_0000) as u32 ^ 0x8000_0000 == c && ((c + 0x8000_0000) as u32) % 0x8000_0000 == c)
            by (bit_vector)
            requires c < 0x7f80_0000;
    } else {
        assert(c ^ 0x8000_0000 == (c + 0x8000_0000) as u32 && c % 0x8000_0000 == c) by (bit_vector)
            requires c < 0x7f80_0000;
    }
    law_narrow_negate(b, r1);
    law_narrowing_unique(with_sign(c, !negative), r2, r1 ^ 0x8000);
}


/// A subnormal binary16 fraction `m` is normalised by `s <= 10` doublings.
proof fn lemma_normalize(m: nat) -> (s: nat)
    requires
        1 <= m < 2048,
    ensures
        s <= 10,
        1024 <= m * pow2(s) < 2048,
    decreases 2048 - m,
{
    lemma2_to64();
    if m >= 1024 {
        assert(m * pow2(0) == m);
        0
    } else {
        let s1 = lemma_normalize(2 * m);
        lemma_pow2_unfold(s1 + 1);
        assert(m * pow2(s1 + 1) == 2 * m * pow2(s1)) by (nonlinear_arith)
            requires pow2(s1 + 1) == 2 * pow2(s1);
        if s1 == 10 {
            assert(2 * m * 1024 >= 2048) by (nonlinear_arith) requires m >= 1;
        }
        s1 + 1
    }
}

/// Every binary16 value has a binary32 encoding, so `f16_to_f32` names it.
///
/// Its fields also follow the binary16 ones: the low thirteen fraction bits
/// are clear, and a finite nonzero value has exponent field 103..=142.
pub proof fn lemma_widening_exists(h: u16)
    ensures
        f16_widens_to(h, f16_to_f32(h)),
        f32_mag(f16_to_f32(h)) % 0x2000 == 0,
        0 < f16_mag(h) < 0x7c00 ==> 103 <= f32_mag(f16_to_f32(h)) / 0x80_0000 <= 142,
        f16_mag(h) == 0 ==> f32_mag(f16_to_f32(h)) == 0,
        f16_mag(h) == 0x7c00 ==> f32_mag(f16_to_f32(h)) == 0x7f80_0000,
{
    let ax = f16_mag(h);
    let sign: nat = if f16_negative(h) { 0x8000_0000 } else { 0 };
    let m: nat;
    if ax > 0x7c00 {
        m = 0x7fc0_0000 + (ax % 0x200) * 0x2000;
    } else if ax == 0x7c00 {
        m = 0x7f80_0000;
    } else if ax >= 0x400 {
        m = (ax + 0x1c000) * 0x2000;
        let e = ax / 0x400;
        let f = ax % 0x400;
        assert(m / 0x80_0000 == e + 112 && m % 0x80_0000 == f * 0x2000);
        lemma_pow2_adds((e + 111) as nat, 13);
        lemma2_to64();
        let p = pow2((e + 111) as nat);
        assert((0x80_0000 + f * 0x2000) * p == (0x400 + f) * (p * 8192)) by (nonlinear_arith);
    } else if ax == 0 {
        m = 0;
    } else {
        let s = lemma_normalize(ax);
        let q = ax * pow2(s);
        lemma2_to64();
        if s == 0 {
            assert(pow2(0) == 1);
            assert(ax * pow2(0) == ax * 1);
        }
        m = ((113 - s) * 0x80_0000 + (q - 1024) * 0x2000) as nat;
        assert(m / 0x80_0000 == 113 - s && m % 0x80_0000 == (q - 1024) * 0x2000);
        lemma_pow2_adds(s, (112 - s) as nat);
        lemma_pow2_adds(112, 13);
        lemma2_to64();
        let big = pow2((112 - s) as nat);
        assert((0x80_0000 + (q - 1024) * 0x2000) * big == ax * (pow2(112) * 8192))
            by (nonlinear_arith)
            requires q == ax * pow2(s), pow2(112) == pow2(s) * big, q >= 1024;
        assert(f16_magnitude(ax) == ax * pow2(125));
    }
    assert(m < 0x8000_0000);
    let b = (sign + m) as u32;
    assert(f32_mag(b) == m);
    assert(f32_negative(b) == f16_negative(h));
    assert(f16_widens_to(h, b));
    law_widening_unique(h, b, f16_to_f32(h));
}

/// Widening commutes with negation.
pub proof fn law_widen_negate(h: u16)
    ensures
        f16_to_f32(h ^ 0x8000) == f16_to_f32(h) ^ 0x8000_0000,
{
    let b = f16_to_f32(h);
    lemma_widening_exists(h);
    lemma_widening_exists(h ^ 0x8000);
    lemma_negate_fields(h, b);
    law_widening_unique(h ^ 0x8000, b ^ 0x8000_0000, f16_to_f32(h ^ 0x8000));
}

} // verus!
