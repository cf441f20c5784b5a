//! The plans take the same decisions as the branches of the binary32
//! algorithms they come from, input by input.  Each helper below follows
//! those branches on the binary32 pattern of the input and reports the
//! decision it reaches.
use core_math_rs::acos::{acosf16_plan, AcosPlan};
use core_math_rs::acosh::{acoshf16_plan, AcoshPlan};
use core_math_rs::asin::{asinf16_plan, asinf16_reduced, AsinPlan, AsinReduced};
use core_math_rs::atan::{atanf16_plan, atanf16_reduced, AtanPlan, AtanReduced};
use core_math_rs::cbrt::{cbrtf16_plan, CbrtPlan};
use core_math_rs::convert::{f16_to_f32_bits, f32_to_f16_bits};

fn narrow(b: u32) -> u16 {
    f32_to_f16_bits(b)
}

fn acos_branches(x: u16) -> AcosPlan {
    let u = f16_to_f32_bits(x);
    let au = u & 0x7fffffff;
    if au >= 0x3f800000 {
        if au == 0x3f800000 {
            if u == 0x3f800000 {
                return AcosPlan::Result(0);
            }
            return AcosPlan::Result(narrow(0x40490fdb));
        }
        return AcosPlan::Result(0xfe00);
    }
    let negative = (u >> 31) != 0;
    if au < 0x3e800000 {
        if negative {
            if (0x36960000..=0x369a0000).contains(&au) {
                return AcosPlan::Result(narrow(0x3fc91001));
            }
            if u == 0xbcf80000 {
                return AcosPlan::Result(narrow(0x3fccf001));
            }
            if u == 0xbcfc0000 {
                return AcosPlan::Result(narrow(0x3fcd0003));
            }
        }
        AcosPlan::Evaluate { segment: 0, sqrt_factor: false, negative }
    } else if au < 0x3f000000 {
        AcosPlan::Evaluate { segment: 1, sqrt_factor: false, negative }
    } else {
        AcosPlan::Evaluate { segment: 2, sqrt_factor: true, negative }
    }
}

fn asin_table(au: u32, u: u32) -> Option<u16> {
    let c: u32 = match au {
        0x3dd30000 => 0x3dd36005,
        0x3d688000 => 0x3d68a002,
        0x3dfa0000 => 0x3dfaa005,
        0x3eb24000 => 0x3eb61009,
        0x3ed96000 => 0x3ee07ffd,
        0x3ef0a000 => 0x3efa7ff8,
        _ => return None,
    };
    Some(narrow(if au == u { c } else { c | 0x80000000 }))
}

fn asin_branches(x: u16) -> AsinPlan {
    let u = f16_to_f32_bits(x);
    let au = u & 0x7fffffff;
    if au >= 0x3f800000 {
        if au == 0x3f800000 {
            return AsinPlan::Result(narrow(if u == 0x3f800000 { 0x3fc90fdb } else { 0xbfc90fdb }));
        }
        return AsinPlan::Result(0xfe00);
    }
    if au >= 0x3f000000 {
        return AsinPlan::Reduce { negative: (u >> 31) != 0 };
    }
    if au <= 0x3d388000 {
        if au == 0 {
            return AsinPlan::Result(x);
        }
        return AsinPlan::Tiny { negative: au != u };
    }
    if let Some(r) = asin_table(au, u) {
        return AsinPlan::Result(r);
    }
    AsinPlan::Evaluate { segment: if au < 0x3e800000 { 0 } else { 1 } }
}

fn atan_table(au: u32, u: u32) -> Option<u16> {
    let c: u32 = match au {
        0x3e56a000 => 0x3e539001,
        0x4115c000 => 0x3fbb6fff,
        0x42c32000 => 0x3fc7bfff,
        _ => return None,
    };
    Some(narrow(if au == u { c } else { c | 0x80000000 }))
}

fn atan_branches(x: u16) -> AtanPlan {
    let u = f16_to_f32_bits(x);
    let au = u & 0x7fffffff;
    if au >= 0x7f800000 {
        if au == 0x7f800000 {
            return AtanPlan::Result(narrow(if u == 0x7f800000 { 0x3fc90fdb } else { 0xbfc90fdb }));
        }
        return AtanPlan::Result(x | 0x0200);
    }
    let negative = (u >> 31) != 0;
    if au > 0x3f800000 {
        return AtanPlan::Reduce { negative };
    }
    let t = f32::from_bits(au);
    if t <= 0.25 {
        if t <= f32::from_bits(0x3ce8a000) {
            if au == 0 {
                return AtanPlan::Result(x);
            }
            return AtanPlan::Tiny;
        }
        if let Some(r) = atan_table(au, u) {
            return AtanPlan::Result(r);
        }
        return AtanPlan::Evaluate { segment: 0, negative };
    }
    let segment = if t <= 0.5 {
        1
    } else if t <= 0.75 {
        2
    } else {
        3
    };
    AtanPlan::Evaluate { segment, negative }
}

fn acosh_branches(x: u16) -> AcoshPlan {
    let u = f16_to_f32_bits(x);
    let au = u & 0x7fffffff;
    if au >= 0x7f800000 {
        if u == 0x7f800000 {
            return AcoshPlan::Result(x);
        }
        if (au & 0x7fffff) != 0 {
            return AcoshPlan::Result(x | 0x0200);
        }
        return AcoshPlan::Result(0xfe00);
    }
    if u >= 0x80000000 || au <= 0x3f800000 {
        if u == 0x3f800000 {
            return AcoshPlan::Result(0);
        }
        return AcoshPlan::Result(0xfe00);
    }
    let i = (au >> 23) - 127;
    let c: u32 = match (i, u) {
        (1, 0x40422000) => 0x3fe31ffe,
        (3, 0x411c0000) => 0x403df003,
        (3, 0x415f6000) => 0x40550001,
        (4, 0x41bfe000) => 0x4077aff6,
        (4, 0x41c04000) => 0x4077cffb,
        (4, 0x41dbc000) => 0x4080300b,
        (4, 0x41d3c000) => 0x407e0015,
        (5, 0x42374000) => 0x4090900e,
        (5, 0x4245c000) => 0x40930009,
        (6, 0x42890000) => 0x409d700c,
        (6, 0x429d6000) => 0x40a1dffa,
        (7, 0x433d2000) => 0x40bdf003,
        (8, 0x43884000) => 0x40c9a002,
        (8, 0x43f9a000) => 0x40dd0007,
        (9, 0x443b0000) => 0x40e9f006,
        (12, 0x45b78000) => 0x4115f004,
        (13, 0x4673a000) => 0x41259004,
        _ => return AcoshPlan::Evaluate { binade: i as u8, sqrt_factor: i < 5 },
    };
    AcoshPlan::Result(narrow(c))
}

#[test]
fn acos_plan_follows_the_branches() {
    for x in 0..=u16::MAX {
        assert_eq!(acosf16_plan(x), acos_branches(x), "x = {x:#06x}");
    }
}

#[test]
fn asin_plan_follows_the_branches() {
    for x in 0..=u16::MAX {
        let p = asinf16_plan(x);
        assert_eq!(p, asin_branches(x), "x = {x:#06x}");
        if let AsinPlan::Reduce { negative } = p {
            let v = f32::from_bits(f16_to_f32_bits(x));
            let t = ((1.0 - if negative { -v } else { v }) * 0.5).sqrt();
            let u = f16_to_f32_bits(x);
            let at = t.to_bits() & 0x7fffffff;
            let expected = match asin_table(at, u) {
                Some(r) => AsinReduced::Result(r),
                None => AsinReduced::Evaluate { segment: if at < 0x3e800000 { 0 } else { 1 } },
            };
            assert_eq!(asinf16_reduced(x, t.to_bits()), expected, "x = {x:#06x}");
        }
    }
}

#[test]
fn atan_plan_follows_the_branches() {
    for x in 0..=u16::MAX {
        let p = atanf16_plan(x);
        assert_eq!(p, atan_branches(x), "x = {x:#06x}");
        if let AtanPlan::Reduce { negative } = p {
            let v = f32::from_bits(f16_to_f32_bits(x));
            let t = 1.0 / if negative { -v } else { v };
            let u = f16_to_f32_bits(x);
            let au = u & 0x7fffffff;
            let expected = if t <= 0.25 {
                match atan_table(au, u) {
                    Some(r) => AtanReduced::Result(r),
                    None => AtanReduced::Evaluate { segment: 0 },
                }
            } else if t <= 0.5 {
                AtanReduced::Evaluate { segment: 1 }
            } else if t <= 0.75 {
                AtanReduced::Evaluate { segment: 2 }
            } else {
                AtanReduced::Evaluate { segment: 3 }
            };
            assert_eq!(atanf16_reduced(x, t.to_bits()), expected, "x = {x:#06x}");
        }
    }
}

#[test]
fn acosh_plan_follows_the_branches() {
    for x in 0..=u16::MAX {
        assert_eq!(acoshf16_plan(x), acosh_branches(x), "x = {x:#06x}");
    }
}

#[test]
fn atan_reduced_compares_like_binary32() {
    // negative zero and negative values are at most 0.25; NaNs are not
    assert_eq!(atanf16_reduced(0x4400, 0x8000_0000), AtanReduced::Evaluate { segment: 0 });
    assert_eq!(atanf16_reduced(0x4400, 0xbf80_0000), AtanReduced::Evaluate { segment: 0 });
    assert_eq!(atanf16_reduced(0x4400, 0x7fc0_0000), AtanReduced::Evaluate { segment: 3 });
    assert_eq!(atanf16_reduced(0x4400, 0x3f40_0000), AtanReduced::Evaluate { segment: 2 });
    assert_eq!(atanf16_reduced(0x4400, 0x3f40_0001), AtanReduced::Evaluate { segment: 3 });
}

fn cbrt_branches(x: u16) -> CbrtPlan {
    const TM: [u16; 16] = [
        0x00, 0xff, 0xff, 0xff, 0x33, 0x1c, 0x32, 0xff, 0xff, 0xff, 0xff, 0x00, 0xff, 0xff, 0xff,
        0x10,
    ];
    const TE: [u16; 16] = [0, 0, 0, 0, 1, 2, 0, 0, 0, 0, 0, 1, 0, 0, 0, 0];
    const TF: [u16; 16] = [
        0x3c00, 0, 0, 0, 0x3d80, 0x3f00, 0x3c80, 0, 0, 0, 0, 0x3e00, 0, 0, 0, 0x3d00,
    ];
    let tu = x;
    let xu = f16_to_f32_bits(x);
    if u32::from(TM[((xu >> 19) % 16) as usize]) == ((xu >> 13) % 64) {
        let expo = ((xu & 0x7fffffff) >> 23) as i32;
        if i32::from(TE[((xu >> 19) % 16) as usize]) == ((expo + 2) % 3) {
            let r = u32::from(tu & 0x8000)
                .wrapping_add(
                    (((expo - 127 - i32::from(TE[((xu >> 19) % 16) as usize])) / 3) as u32) << 10,
                )
                .wrapping_add(u32::from(TF[((xu >> 19) % 16) as usize])) as u16;
            return CbrtPlan::Result(r);
        }
    }
    if (tu & 0x03ff) == 0x0151 {
        let expo = i32::from((tu & 0x7fff) >> 10);
        if ((expo % 3) == 1) && (expo < 31) {
            let base = ((((expo - 16) / 3 + 15) << 10) + 0x018b + i32::from((tu >> 15) << 15)) as u16;
            return CbrtPlan::Nudge { base };
        }
    }
    CbrtPlan::Evaluate
}

#[test]
fn cbrt_plan_follows_the_branches() {
    for x in 0..=u16::MAX {
        assert_eq!(cbrtf16_plan(x), cbrt_branches(x), "x = {x:#06x}");
    }
}
