use core_math_rs::convert::{f16_to_f32_bits, f32_to_f16_bits};

/// The value of a binary16 pattern, decoded by hand in binary64.
fn f16_value(h: u16) -> f64 {
    let sign = if h & 0x8000 != 0 { -1.0 } else { 1.0 };
    let e = ((h >> 10) & 0x1f) as i32;
    let f = (h & 0x3ff) as f64;
    if e == 0 {
        sign * f * 2f64.powi(-24)
    } else if e == 31 {
        if f == 0.0 {
            sign * f64::INFINITY
        } else {
            f64::NAN
        }
    } else {
        sign * (1024.0 + f) * 2f64.powi(e - 25)
    }
}

/// Round-to-nearest-even of a binary32 value to binary16, computed in
/// binary64 by scaling to the target ulp.
fn reference_narrow(b: u32) -> u16 {
    let v = f32::from_bits(b) as f64;
    let sign: u16 = if b & 0x8000_0000 != 0 { 0x8000 } else { 0 };
    let a = v.abs();
    if a.is_nan() {
        return sign | 0x7e00 | (((b & 0x7f_ffff) >> 13) as u16 & 0x1ff);
    }
    if a >= 65520.0 {
        return sign | 0x7c00;
    }
    let mut e = a.log2().floor() as i32;
    if a == 0.0 || e < -14 {
        e = -14;
    }
    if a > 0.0 && 2f64.powi(e) > a {
        e -= 1;
    }
    if e < -14 {
        e = -14;
    }
    let ulp = 2f64.powi(e - 10);
    let q = (a / ulp).round_ties_even() as i32;
    // subnormals (e = -14, q < 1024) and normals share one encoding formula
    sign | ((e + 14) * 1024 + q) as u16
}

#[test]
fn widening_is_exact_for_every_pattern() {
    for h in 0..=u16::MAX {
        let b = f16_to_f32_bits(h);
        let y = f32::from_bits(b);
        let v = f16_value(h);
        if v.is_nan() {
            assert!(y.is_nan());
            assert_eq!(b & 0x8000_0000 != 0, h & 0x8000 != 0);
            // quiet bit set, payload kept
            assert_eq!((b & 0x7f_ffff) >> 13, (h & 0x3ff | 0x200) as u32);
            assert_eq!(b & 0x1fff, 0);
        } else {
            assert_eq!(y as f64, v, "pattern {h:#06x}");
            assert_eq!(y.is_sign_negative(), h & 0x8000 != 0);
        }
    }
}

#[test]
fn narrowing_undoes_widening() {
    for h in 0..=u16::MAX {
        let r = f32_to_f16_bits(f16_to_f32_bits(h));
        if (h & 0x7fff) > 0x7c00 {
            assert_eq!(r, h | 0x0200, "pattern {h:#06x}");
        } else {
            assert_eq!(r, h, "pattern {h:#06x}");
        }
    }
}

#[test]
fn narrowing_matches_reference_rounding() {
    let mut b: u32 = 0;
    loop {
        assert_eq!(f32_to_f16_bits(b), reference_narrow(b), "pattern {b:#010x}");
        match b.checked_add(0x1357) {
            Some(n) => b = n,
            None => break,
        }
    }
}

#[test]
fn narrowing_ties_go_to_even() {
    // 1 + 2^-11 lies halfway between 1 and 1 + 2^-10: rounds down to 1
    assert_eq!(f32_to_f16_bits(0x3f80_1000), 0x3c00);
    // 1 + 3 * 2^-11 lies halfway between 1 + 2^-10 and 1 + 2^-9: rounds up
    assert_eq!(f32_to_f16_bits(0x3f80_3000), 0x3c02);
    // just above the first midpoint rounds up
    assert_eq!(f32_to_f16_bits(0x3f80_1001), 0x3c01);
}

#[test]
fn narrowing_overflows_to_infinity() {
    // 65504 is the largest binary16 value
    assert_eq!(f32_to_f16_bits(65504f32.to_bits()), 0x7bff);
    // 65519.99 still rounds down, 65520 (the midpoint to 2^16) overflows
    assert_eq!(f32_to_f16_bits(65519.996f32.to_bits()), 0x7bff);
    assert_eq!(f32_to_f16_bits(65520f32.to_bits()), 0x7c00);
    assert_eq!(f32_to_f16_bits((-1.0e10f32).to_bits()), 0xfc00);
    assert_eq!(f32_to_f16_bits(f32::INFINITY.to_bits()), 0x7c00);
}

#[test]
fn narrowing_subnormals_and_underflow() {
    // 2^-24 is the smallest binary16 subnormal
    assert_eq!(f32_to_f16_bits(2f32.powi(-24).to_bits()), 0x0001);
    // 2^-25 is halfway between 0 and 2^-24: ties to even, zero
    assert_eq!(f32_to_f16_bits(2f32.powi(-25).to_bits()), 0x0000);
    // slightly above 2^-25 rounds up
    assert_eq!(f32_to_f16_bits(0x3300_0001), 0x0001);
    assert_eq!(f32_to_f16_bits(1.0e-30f32.to_bits()), 0x0000);
    assert_eq!(f32_to_f16_bits((-1.0e-30f32).to_bits()), 0x8000);
    // just below 2^-14 rounds up to the smallest normal
    assert_eq!(f32_to_f16_bits(0x387f_ffff), 0x0400);
}

#[test]
fn narrowing_nan_keeps_payload_and_quiets() {
    assert_eq!(f32_to_f16_bits(0x7f80_2000), 0x7e01);
    assert_eq!(f32_to_f16_bits(0xffc0_0000), 0xfe00);
    assert_eq!(f32_to_f16_bits(0x7f80_0001), 0x7e00);
}

#[test]
fn widening_subnormal_values() {
    assert_eq!(f16_to_f32_bits(0x0001), 0x3380_0000);
    assert_eq!(f16_to_f32_bits(0x03ff), 0x387f_c000);
    assert_eq!(f16_to_f32_bits(0x8000), 0x8000_0000);
    assert_eq!(f16_to_f32_bits(0x3c00), 0x3f80_0000);
    assert_eq!(f16_to_f32_bits(0x7bff), 0x477f_e000);
}
