//! The laws of the library, on concrete values.
use core_math_rs::asin::{asinf16_plan, AsinPlan};
use core_math_rs::atan::{atanf16_plan, atanf16_reduced, AtanPlan, AtanReduced};
use core_math_rs::cbrt::{cbrtf16_plan, CbrtPlan};
use core_math_rs::convert::{f16_to_f32_bits, f32_to_f16_bits};

fn f16_value(h: u16) -> f64 {
    f32::from_bits(f16_to_f32_bits(h)) as f64
}

#[test]
fn narrowing_is_monotone() {
    // positive binary32 patterns in increasing order give non-decreasing results
    let mut prev = 0u16;
    let mut b: u32 = 0;
    while b <= 0x7f80_0000 {
        let r = f32_to_f16_bits(b);
        assert!(r >= prev, "pattern {b:#010x}");
        prev = r;
        b += 0x777;
    }
}

#[test]
fn narrowing_commutes_with_negation() {
    let mut b: u32 = 0;
    while b < 0x8000_0000 {
        assert_eq!(f32_to_f16_bits(b | 0x8000_0000), f32_to_f16_bits(b) ^ 0x8000);
        b += 0x1235;
    }
}

#[test]
fn widening_commutes_with_negation() {
    for h in 0..=u16::MAX {
        assert_eq!(f16_to_f32_bits(h ^ 0x8000), f16_to_f32_bits(h) ^ 0x8000_0000);
    }
}

#[test]
fn exact_values_round_to_themselves() {
    for h in 0..0x7c00u16 {
        assert_eq!(f32_to_f16_bits(f16_to_f32_bits(h)), h);
    }
}

#[test]
fn asin_is_odd() {
    for x in 0..=u16::MAX {
        let p = asinf16_plan(x);
        let mirrored = match p {
            AsinPlan::Result(r) if (r & 0x7fff) > 0x7c00 => AsinPlan::Result(r),
            AsinPlan::Result(r) => AsinPlan::Result(r ^ 0x8000),
            AsinPlan::Tiny { negative } => AsinPlan::Tiny { negative: !negative },
            AsinPlan::Evaluate { segment } => AsinPlan::Evaluate { segment },
            AsinPlan::Reduce { negative } => AsinPlan::Reduce { negative: !negative },
        };
        assert_eq!(asinf16_plan(x ^ 0x8000), mirrored, "x = {x:#06x}");
    }
}

#[test]
fn atan_is_odd() {
    for x in 0..=u16::MAX {
        let p = atanf16_plan(x);
        let mirrored = match p {
            AtanPlan::Result(r) => AtanPlan::Result(r ^ 0x8000),
            AtanPlan::Tiny => AtanPlan::Tiny,
            AtanPlan::Evaluate { segment, negative } => AtanPlan::Evaluate { segment, negative: !negative },
            AtanPlan::Reduce { negative } => AtanPlan::Reduce { negative: !negative },
        };
        assert_eq!(atanf16_plan(x ^ 0x8000), mirrored, "x = {x:#06x}");
        if let AtanPlan::Reduce { .. } = p {
            let t = (1.0 / f32::from_bits(f16_to_f32_bits(x & 0x7fff))).to_bits();
            let q = match atanf16_reduced(x, t) {
                AtanReduced::Result(r) => AtanReduced::Result(r ^ 0x8000),
                e => e,
            };
            assert_eq!(atanf16_reduced(x ^ 0x8000, t), q, "x = {x:#06x}");
        }
    }
}

#[test]
fn cbrt_is_odd() {
    for x in 0..=u16::MAX {
        let mirrored = match cbrtf16_plan(x) {
            CbrtPlan::Result(r) => CbrtPlan::Result(r ^ 0x8000),
            CbrtPlan::Nudge { base } => CbrtPlan::Nudge { base: base ^ 0x8000 },
            CbrtPlan::Evaluate => CbrtPlan::Evaluate,
        };
        assert_eq!(cbrtf16_plan(x ^ 0x8000), mirrored, "x = {x:#06x}");
    }
}

#[test]
fn cbrt_exact_results_cube_to_the_input() {
    let mut exact = 0;
    for x in 0..=u16::MAX {
        if (x & 0x7fff) > 0x7c00 {
            continue;
        }
        if let CbrtPlan::Result(r) = cbrtf16_plan(x) {
            let c = f16_value(r);
            assert_eq!(c * c * c, f16_value(x), "x = {x:#06x}");
            exact += 1;
        }
    }
    // the six tabulated significands over every exponent that allows them
    assert_eq!(exact, 140);
}

#[test]
fn cbrt_nudge_keeps_the_base() {
    for x in 0..=u16::MAX {
        if let CbrtPlan::Nudge { base } = cbrtf16_plan(x) {
            let sign = f32::from(base >> 15);
            let y = f32::from_bits(f16_to_f32_bits(base)) + 2f32.powi(-16) * (sign - 0.5);
            assert_eq!(f32_to_f16_bits(y.to_bits()), base, "x = {x:#06x}");
        }
    }
}

#[test]
fn asin_tiny_inputs_round_to_themselves() {
    for x in 0..=u16::MAX {
        if let AsinPlan::Tiny { negative } = asinf16_plan(x) {
            let v = f32::from_bits(f16_to_f32_bits(x));
            let y = if negative { v - 2f32.powi(-26) } else { v + 2f32.powi(-26) };
            assert_eq!(f32_to_f16_bits(y.to_bits()), x, "x = {x:#06x}");
        }
    }
}

#[test]
fn atan_tiny_inputs_round_to_themselves() {
    for x in 0..=u16::MAX {
        if let AtanPlan::Tiny = atanf16_plan(x) {
            let v = f32::from_bits(f16_to_f32_bits(x));
            let y = f32::mul_add(v, -(2f32.powi(-23)), v);
            assert_eq!(f32_to_f16_bits(y.to_bits()), x, "x = {x:#06x}");
        }
    }
}

#[test]
fn every_exact_cube_is_recognised() {
    // for every finite binary16 y whose cube is itself a binary16 value x,
    // the plan of x is the exact result y
    let mut by_value = std::collections::HashMap::new();
    for x in 0..0x7c00u16 {
        by_value.insert(f16_value(x).to_bits(), x);
        by_value.insert((-f16_value(x)).to_bits(), x | 0x8000);
    }
    let mut found = 0;
    for y in 0..=u16::MAX {
        if (y & 0x7fff) >= 0x7c00 || (y & 0x7fff) == 0 {
            continue;
        }
        let v = f16_value(y);
        let c = v * v * v;
        if let Some(&x) = by_value.get(&c.to_bits()) {
            assert_eq!(cbrtf16_plan(x), CbrtPlan::Result(y), "y = {y:#06x}");
            found += 1;
        }
    }
    assert_eq!(found, 140);
}

#[test]
fn cbrt_nudged_base_is_the_nearest_root() {
    let mut seen = 0;
    for x in 0..=u16::MAX {
        if let CbrtPlan::Nudge { base } = cbrtf16_plan(x) {
            let m = f16_value(base & 0x7fff);
            let lo = f16_value((base & 0x7fff) - 1);
            let hi = f16_value((base & 0x7fff) + 1);
            let (a, b) = ((lo + m) / 2.0, (m + hi) / 2.0);
            let v = f16_value(x & 0x7fff);
            assert!(a * a * a < v && v < b * b * b, "x = {x:#06x}");
            assert_eq!(base >> 15, x >> 15);
            seen += 1;
        }
    }
    assert_eq!(seen, 20);
}
