//! Exact-value tests of the fixed-point scalar layer.

use rtweekend::fixed;
use rtweekend::fixed::SCALE;

#[test]
fn fmul_rounds_toward_negative_infinity() {
    assert_eq!(fixed::fmul(SCALE, SCALE), SCALE);
    assert_eq!(fixed::fmul(32768, 32768), 16384);
    assert_eq!(fixed::fmul(3, 3), 0);
    assert_eq!(fixed::fmul(-3, 3), -1);
    assert_eq!(fixed::fmul(-SCALE, SCALE), -SCALE);
}

#[test]
fn fdiv_matches_floor_semantics() {
    assert_eq!(fixed::fdiv(SCALE, SCALE), SCALE);
    assert_eq!(fixed::fdiv(SCALE, 131072), 32768);
    assert_eq!(fixed::fdiv(-SCALE, 131072), -32768);
    assert_eq!(fixed::fdiv(1, 3), 21845);
    assert_eq!(fixed::fdiv(65536, 98304), 43690);
}

#[test]
fn fx_sqrt_exact_squares() {
    assert_eq!(fixed::fx_sqrt(SCALE), SCALE);
    assert_eq!(fixed::fx_sqrt(4 * SCALE), 2 * SCALE);
    assert_eq!(fixed::fx_sqrt(0), 0);
    assert_eq!(fixed::fx_sqrt(131072), 92681);
}

#[test]
fn clamp_matches_original_order() {
    assert_eq!(fixed::clamp(5, 0, 10), 5);
    assert_eq!(fixed::clamp(-5, 0, 10), 0);
    assert_eq!(fixed::clamp(15, 0, 10), 10);
    // the lower bound wins first on an empty interval
    assert_eq!(fixed::clamp(5, 10, 0), 10);
}

#[test]
fn degrees_to_radians_quarter_turn() {
    assert_eq!(fixed::degrees_to_radians(90 * SCALE), 102943);
    assert_eq!(fixed::degrees_to_radians(0), 0);
    assert_eq!(fixed::degrees_to_radians(180 * SCALE), 205887);
}

#[test]
fn taylor_trig_at_half_quarter_turn() {
    let ht = fixed::idiv(fixed::degrees_to_radians(90 * SCALE), 2);
    assert_eq!(ht, 51471);
    assert_eq!(fixed::sin_fx(ht), 46341);
    assert_eq!(fixed::cos_fx(ht), 46341);
    assert_eq!(fixed::fdiv(fixed::sin_fx(ht), fixed::cos_fx(ht)), SCALE);
}

#[test]
fn trig_small_angles() {
    assert_eq!(fixed::sin_fx(0), 0);
    assert_eq!(fixed::cos_fx(0), SCALE);
    // sin x is close to x for small x
    let s = fixed::sin_fx(6554);
    assert!((6500..=6554).contains(&s), "sin(0.1) fx was {s}");
}
