use core_math_rs::acos::{acosf16_plan, AcosPlan};
use core_math_rs::acosh::{acoshf16_plan, AcoshPlan};
use core_math_rs::asin::{asinf16_plan, asinf16_reduced, AsinPlan, AsinReduced};
use core_math_rs::atan::{atanf16_plan, atanf16_reduced, AtanPlan, AtanReduced};
use core_math_rs::cbrt::{cbrtf16_plan, CbrtPlan};
use core_math_rs::utils::{quiet_nan16, snanf16};

#[test]
fn snan_is_the_default_quiet_nan() {
    let r = snanf16();
    assert_eq!(r, 0xfe00);
    assert_eq!(r & 0x7c00, 0x7c00);
    assert_ne!(r & 0x03ff, 0);
}

#[test]
fn quiet_nan_sets_the_quiet_bit() {
    assert_eq!(quiet_nan16(0x7c01), 0x7e01);
    assert_eq!(quiet_nan16(0xfd5c), 0xff5c);
    assert_eq!(quiet_nan16(0x7e00), 0x7e00);
}

#[test]
fn acos_special_values() {
    assert_eq!(acosf16_plan(0x3c00), AcosPlan::Result(0x0000)); // acos(1) = +0
    assert_eq!(acosf16_plan(0xbc00), AcosPlan::Result(0x4248)); // acos(-1) = pi
    assert_eq!(acosf16_plan(0x7c00), AcosPlan::Result(0xfe00)); // +inf
    assert_eq!(acosf16_plan(0xfc00), AcosPlan::Result(0xfe00)); // -inf
    assert_eq!(acosf16_plan(0x7e00), AcosPlan::Result(0xfe00)); // NaN
    assert_eq!(acosf16_plan(0x3c01), AcosPlan::Result(0xfe00)); // just above 1
    assert_eq!(acosf16_plan(0x4000), AcosPlan::Result(0xfe00)); // 2
}

#[test]
fn acos_tabulated_inputs() {
    assert_eq!(acosf16_plan(0x804b), AcosPlan::Result(0x3e49));
    assert_eq!(acosf16_plan(0x804c), AcosPlan::Result(0x3e49));
    assert_eq!(acosf16_plan(0x804d), AcosPlan::Result(0x3e49));
    assert_eq!(acosf16_plan(0xa7c0), AcosPlan::Result(0x3e68));
    assert_eq!(acosf16_plan(0xa7e0), AcosPlan::Result(0x3e68));
    // the positive counterparts are evaluated
    assert_eq!(acosf16_plan(0x004c), AcosPlan::Evaluate { segment: 0, sqrt_factor: false, negative: false });
    assert_eq!(acosf16_plan(0x27c0), AcosPlan::Evaluate { segment: 0, sqrt_factor: false, negative: false });
    assert_eq!(acosf16_plan(0x804a), AcosPlan::Evaluate { segment: 0, sqrt_factor: false, negative: true });
}

#[test]
fn acos_segments() {
    assert_eq!(acosf16_plan(0x0000), AcosPlan::Evaluate { segment: 0, sqrt_factor: false, negative: false });
    assert_eq!(acosf16_plan(0x8000), AcosPlan::Evaluate { segment: 0, sqrt_factor: false, negative: true });
    assert_eq!(acosf16_plan(0x33ff), AcosPlan::Evaluate { segment: 0, sqrt_factor: false, negative: false });
    assert_eq!(acosf16_plan(0x3400), AcosPlan::Evaluate { segment: 1, sqrt_factor: false, negative: false });
    assert_eq!(acosf16_plan(0xb7ff), AcosPlan::Evaluate { segment: 1, sqrt_factor: false, negative: true });
    assert_eq!(acosf16_plan(0x3800), AcosPlan::Evaluate { segment: 2, sqrt_factor: true, negative: false });
    assert_eq!(acosf16_plan(0xbbff), AcosPlan::Evaluate { segment: 2, sqrt_factor: true, negative: true });
}

#[test]
fn asin_special_values() {
    assert_eq!(asinf16_plan(0x3c00), AsinPlan::Result(0x3e48)); // asin(1) = pi/2
    assert_eq!(asinf16_plan(0xbc00), AsinPlan::Result(0xbe48)); // asin(-1) = -pi/2
    assert_eq!(asinf16_plan(0x0000), AsinPlan::Result(0x0000));
    assert_eq!(asinf16_plan(0x8000), AsinPlan::Result(0x8000));
    assert_eq!(asinf16_plan(0x7c00), AsinPlan::Result(0xfe00));
    assert_eq!(asinf16_plan(0x7c01), AsinPlan::Result(0xfe00));
    assert_eq!(asinf16_plan(0xc000), AsinPlan::Result(0xfe00));
}

#[test]
fn asin_tiny_and_tabulated() {
    assert_eq!(asinf16_plan(0x0001), AsinPlan::Tiny { negative: false });
    assert_eq!(asinf16_plan(0xa9c4), AsinPlan::Tiny { negative: true });
    assert_eq!(asinf16_plan(0x29c5), AsinPlan::Evaluate { segment: 0 });
    assert_eq!(asinf16_plan(0x2e98), AsinPlan::Result(0x2e9b));
    assert_eq!(asinf16_plan(0xae98), AsinPlan::Result(0xae9b));
    assert_eq!(asinf16_plan(0x2b44), AsinPlan::Result(0x2b45));
    assert_eq!(asinf16_plan(0x2fd0), AsinPlan::Result(0x2fd5));
    assert_eq!(asinf16_plan(0x3592), AsinPlan::Result(0x35b1));
    assert_eq!(asinf16_plan(0x36cb), AsinPlan::Result(0x3704));
    assert_eq!(asinf16_plan(0xb785), AsinPlan::Result(0xb7d4));
    assert_eq!(asinf16_plan(0x3400), AsinPlan::Evaluate { segment: 1 });
    assert_eq!(asinf16_plan(0x3800), AsinPlan::Reduce { negative: false });
    assert_eq!(asinf16_plan(0xbbff), AsinPlan::Reduce { negative: true });
}

#[test]
fn asin_after_reduction() {
    // t = 0.25 selects the second polynomial, just below it the first
    assert_eq!(asinf16_reduced(0x3800, 0x3e80_0000), AsinReduced::Evaluate { segment: 1 });
    assert_eq!(asinf16_reduced(0x3800, 0x3e7f_ffff), AsinReduced::Evaluate { segment: 0 });
    // a tabulated reduced argument takes the negative tabulated value
    assert_eq!(asinf16_reduced(0x3a00, 0x3dd3_0000), AsinReduced::Result(0xae9b));
}

#[test]
fn atan_special_values() {
    assert_eq!(atanf16_plan(0x7c00), AtanPlan::Result(0x3e48)); // atan(+inf) = pi/2
    assert_eq!(atanf16_plan(0xfc00), AtanPlan::Result(0xbe48));
    assert_eq!(atanf16_plan(0x7c01), AtanPlan::Result(0x7e01)); // NaN made quiet
    assert_eq!(atanf16_plan(0xfe10), AtanPlan::Result(0xfe10));
    assert_eq!(atanf16_plan(0x0000), AtanPlan::Result(0x0000));
    assert_eq!(atanf16_plan(0x8000), AtanPlan::Result(0x8000));
}

#[test]
fn atan_ranges() {
    assert_eq!(atanf16_plan(0x2745), AtanPlan::Tiny);
    assert_eq!(atanf16_plan(0x8001), AtanPlan::Tiny);
    assert_eq!(atanf16_plan(0x2746), AtanPlan::Evaluate { segment: 0, negative: false });
    assert_eq!(atanf16_plan(0x32b5), AtanPlan::Result(0x329d));
    assert_eq!(atanf16_plan(0xb2b5), AtanPlan::Result(0xb29d));
    assert_eq!(atanf16_plan(0x3400), AtanPlan::Evaluate { segment: 0, negative: false });
    assert_eq!(atanf16_plan(0x3401), AtanPlan::Evaluate { segment: 1, negative: false });
    assert_eq!(atanf16_plan(0xb800), AtanPlan::Evaluate { segment: 1, negative: true });
    assert_eq!(atanf16_plan(0x3a00), AtanPlan::Evaluate { segment: 2, negative: false });
    assert_eq!(atanf16_plan(0x3c00), AtanPlan::Evaluate { segment: 3, negative: false });
    assert_eq!(atanf16_plan(0x3c01), AtanPlan::Reduce { negative: false });
    assert_eq!(atanf16_plan(0xfbff), AtanPlan::Reduce { negative: true });
}

#[test]
fn atan_after_reduction() {
    let t = |v: f32| v.to_bits();
    assert_eq!(atanf16_reduced(0x48ae, t(1.0 / 9.359375)), AtanReduced::Result(0x3ddb));
    assert_eq!(atanf16_reduced(0xc8ae, t(1.0 / 9.359375)), AtanReduced::Result(0xbddb));
    assert_eq!(atanf16_reduced(0x5619, t(1.0 / 97.5625)), AtanReduced::Result(0x3e3e));
    assert_eq!(atanf16_reduced(0x4400, t(0.25)), AtanReduced::Evaluate { segment: 0 });
    assert_eq!(atanf16_reduced(0x4000, t(0.5)), AtanReduced::Evaluate { segment: 1 });
    assert_eq!(atanf16_reduced(0x3e00, t(1.0 / 1.5)), AtanReduced::Evaluate { segment: 2 });
    assert_eq!(atanf16_reduced(0x3c01, t(0.999)), AtanReduced::Evaluate { segment: 3 });
}

#[test]
fn acosh_special_values() {
    assert_eq!(acoshf16_plan(0x7c00), AcoshPlan::Result(0x7c00)); // acosh(+inf) = +inf
    assert_eq!(acoshf16_plan(0xfc00), AcoshPlan::Result(0xfe00)); // -inf
    assert_eq!(acoshf16_plan(0x7c01), AcoshPlan::Result(0x7e01)); // NaN made quiet
    assert_eq!(acoshf16_plan(0x3c00), AcoshPlan::Result(0x0000)); // acosh(1) = +0
    assert_eq!(acoshf16_plan(0x3bff), AcoshPlan::Result(0xfe00)); // below 1
    assert_eq!(acoshf16_plan(0x0000), AcoshPlan::Result(0xfe00));
    assert_eq!(acoshf16_plan(0x8000), AcoshPlan::Result(0xfe00));
    assert_eq!(acoshf16_plan(0xc000), AcoshPlan::Result(0xfe00));
}

#[test]
fn acosh_binades_and_table() {
    assert_eq!(acoshf16_plan(0x3c01), AcoshPlan::Evaluate { binade: 0, sqrt_factor: true });
    assert_eq!(acoshf16_plan(0x4000), AcoshPlan::Evaluate { binade: 1, sqrt_factor: true });
    assert_eq!(acoshf16_plan(0x7bff), AcoshPlan::Evaluate { binade: 15, sqrt_factor: false });
    assert_eq!(acoshf16_plan(0x4211), AcoshPlan::Result(0x3f19));
    assert_eq!(acoshf16_plan(0x48e0), AcoshPlan::Result(0x41f0));
    assert_eq!(acoshf16_plan(0x4e9e), AcoshPlan::Result(0x43f0));
    assert_eq!(acoshf16_plan(0x6dbc), AcoshPlan::Result(0x48b0));
    assert_eq!(acoshf16_plan(0x739d), AcoshPlan::Result(0x492d));
}

#[test]
fn cbrt_exact_cubes() {
    assert_eq!(cbrtf16_plan(0x3c00), CbrtPlan::Result(0x3c00)); // 1
    assert_eq!(cbrtf16_plan(0x4800), CbrtPlan::Result(0x4000)); // 8 -> 2
    assert_eq!(cbrtf16_plan(0x4ec0), CbrtPlan::Result(0x4200)); // 27 -> 3
    assert_eq!(cbrtf16_plan(0xb000), CbrtPlan::Result(0xb800)); // -0.125 -> -0.5
    assert_eq!(cbrtf16_plan(0x57d0), CbrtPlan::Result(0x4500)); // 125 -> 5
    assert_eq!(cbrtf16_plan(0x0001), CbrtPlan::Result(0x1c00)); // 2^-24 -> 2^-8
    assert_eq!(cbrtf16_plan(0x455c), CbrtPlan::Result(0x3f00)); // 5.359375 -> 1.75
    assert_eq!(cbrtf16_plan(0x3d5c), CbrtPlan::Evaluate);
    assert_eq!(cbrtf16_plan(0x0000), CbrtPlan::Evaluate);
    assert_eq!(cbrtf16_plan(0x7c00), CbrtPlan::Evaluate);
    assert_eq!(cbrtf16_plan(0x4000), CbrtPlan::Evaluate);
}

#[test]
fn cbrt_nans_go_to_the_binary32_cube_root() {
    // signalling NaNs whose payload looks like an exact-cube significand
    assert_eq!(cbrtf16_plan(0x7d5c), CbrtPlan::Evaluate);
    assert_eq!(cbrtf16_plan(0xfd5c), CbrtPlan::Evaluate);
    assert_eq!(cbrtf16_plan(0x7f5c), CbrtPlan::Evaluate);
    for x in 0x7c01..=0x7fffu16 {
        assert_eq!(cbrtf16_plan(x), CbrtPlan::Evaluate);
        assert_eq!(cbrtf16_plan(x | 0x8000), CbrtPlan::Evaluate);
    }
}

#[test]
fn widened_nans_are_quiet() {
    assert_eq!(core_math_rs::convert::f16_to_f32_bits(0x7d5c), 0x7feb_8000);
    assert_eq!(core_math_rs::convert::f16_to_f32_bits(0xfc01), 0xffc0_2000);
}

#[test]
fn cbrt_nudged_family() {
    assert_eq!(cbrtf16_plan(0x4151), CbrtPlan::Nudge { base: 0x3d8b });
    assert_eq!(cbrtf16_plan(0xc151), CbrtPlan::Nudge { base: 0xbd8b });
    assert_eq!(cbrtf16_plan(0x0551), CbrtPlan::Nudge { base: 0x298b });
    assert_eq!(cbrtf16_plan(0x7151), CbrtPlan::Nudge { base: 0x4d8b });
    assert_eq!(cbrtf16_plan(0x3d51), CbrtPlan::Evaluate);
}
