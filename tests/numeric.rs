use bugs_life::brain::{activation, Activation};
use bugs_life::creature::metabolize;
use bugs_life::fixed::{cos_fx, exp_fx, isqrt, sigmoid_fx, sin_fx, sinc_fx, tanh_fx, HALF_PI_FX, PI_FX, SCALE};
use bugs_life::terrain::{feed_amount, growth_amount, growth_band, smoothed_type};

#[test]
fn isqrt_exact_values() {
    assert_eq!(isqrt(0), 0);
    assert_eq!(isqrt(1), 1);
    assert_eq!(isqrt(15), 3);
    assert_eq!(isqrt(16), 4);
    assert_eq!(isqrt(100_000_000_000_000), 10_000_000);
    assert_eq!(isqrt(u64::MAX), 4_294_967_295);
}

#[test]
fn sine_and_cosine_at_key_angles() {
    assert_eq!(sin_fx(0), 0);
    assert_eq!(sin_fx(HALF_PI_FX), SCALE);
    assert_eq!(sin_fx(-HALF_PI_FX), -SCALE);
    assert_eq!(sin_fx(PI_FX), 0);
    assert_eq!(cos_fx(0), SCALE);
    assert_eq!(cos_fx(PI_FX), -SCALE);
    let s = sin_fx(523_599);
    assert!((s - 500_000).abs() < 2_000, "sin(pi/6) = {}", s);
}

#[test]
fn exponential_and_logistic() {
    assert_eq!(exp_fx(0), SCALE);
    let e = exp_fx(SCALE);
    assert!((e - 2_718_282).abs() < 100, "e = {}", e);
    assert_eq!(sigmoid_fx(0), 500_000);
    let s = sigmoid_fx(2 * SCALE);
    assert!((s - 880_797).abs() < 100, "sigmoid(2) = {}", s);
    assert!((sigmoid_fx(-2 * SCALE) + s - SCALE).abs() <= 1);
    assert_eq!(tanh_fx(0), 0);
    let t = tanh_fx(SCALE);
    assert!((t - 761_594).abs() < 200, "tanh(1) = {}", t);
    assert!(sigmoid_fx(100 * SCALE) >= SCALE - 1);
    assert!(sigmoid_fx(-100 * SCALE) <= 1);
}

#[test]
fn activations_by_kind() {
    assert_eq!(activation(Activation::ReLU, -5), 0);
    assert_eq!(activation(Activation::ReLU, 7 * SCALE), 7 * SCALE);
    assert_eq!(activation(Activation::Sigmoid, 0), 500_000);
    assert_eq!(activation(Activation::Tanh, 0), 0);
    assert_eq!(activation(Activation::Sin, HALF_PI_FX), SCALE);
    assert_eq!(activation(Activation::SinC, 0), SCALE);
    assert_eq!(sinc_fx(0), SCALE);
    assert_eq!(sinc_fx(PI_FX), 0);
    assert_eq!(activation(Activation::SinC, 100_000), SCALE);
    assert_eq!(sinc_fx(-100_000), SCALE);
    for x in [1i64, 1_000, 50_000, 700_000, -300_000] {
        let v = sinc_fx(x);
        assert!(v >= -SCALE && v <= SCALE);
    }
    let v = sinc_fx(HALF_PI_FX);
    assert!((v - 636_620).abs() < 10, "sinc(pi/2) = {}", v);
}

#[test]
fn feeding_takes_a_square_root_ration() {
    assert_eq!(feed_amount(100 * SCALE, 100_000), SCALE);
    assert_eq!(feed_amount(0, 100_000), 0);
    assert_eq!(feed_amount(1, 100_000), 1);
    assert_eq!(feed_amount(25 * SCALE, 80_000), 400_000);
}

#[test]
fn growth_weighs_band_and_type() {
    assert_eq!(growth_amount(100_000, SCALE, 5), 2_500_000);
    assert_eq!(growth_amount(100_000, SCALE, 0), 0);
    assert_eq!(growth_amount(100_000, 500_000, 2), 200_000);
    assert_eq!(growth_amount(0, SCALE, 5), 0);
}

#[test]
fn growth_band_is_cut_at_zero() {
    assert_eq!(growth_band(0, 100, 0), SCALE);
    assert_eq!(growth_band(50, 100, 0), 0);
    assert_eq!(growth_band(25, 100, 0), 0);
    for row in 0..100 {
        let b = growth_band(row, 100, 300_000);
        assert!(b >= 0 && b <= SCALE);
    }
}

#[test]
fn smoothing_of_tile_types() {
    assert_eq!(smoothed_type(2, 4, 50), 3);
    assert_eq!(smoothed_type(2, 4, 10), 2);
    assert_eq!(smoothed_type(2, 4, 80), 4);
    assert_eq!(smoothed_type(0, 0, 0), 1);
    assert_eq!(smoothed_type(5, 5, 99), 5);
}

#[test]
fn metabolism_without_and_with_food() {
    assert_eq!(metabolize(SCALE, 0), 990_000);
    assert_eq!(metabolize(SCALE, SCALE), 1_000_100);
    assert_eq!(metabolize(250_000, 0), 243_750);
}
