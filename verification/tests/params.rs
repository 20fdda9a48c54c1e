//! Tests for the parameter mapping family.

use audio_params::FloatParam;
use audio_params::IntParam;
use audio_params::LogDBParam;
use audio_params::Normal;
use audio_params::OctaveParam;
use audio_params::Param;
use audio_params::UNIT;

#[test]
fn normal_clamps_on_construction() {
    assert_eq!(Normal::new(-5).value(), 0);
    assert_eq!(Normal::new(0).value(), 0);
    assert_eq!(Normal::new(123).value(), 123);
    assert_eq!(Normal::new(1_000_000).value(), 1_000_000);
    assert_eq!(Normal::new(2_000_000).value(), 1_000_000);
}

#[test]
fn float_param_affine_mapping() {
    let p = FloatParam::new(0u32, 0, 10_000_000, 2_500_000, 5_000_000);
    assert_eq!(p.value(), 2_500_000);
    assert_eq!(p.default_value(), 5_000_000);
    assert_eq!(p.normal().value(), 250_000);
    assert_eq!(p.default_normal().value(), 500_000);
    assert_eq!(p.value_to_normal(7_500_000).value(), 750_000);
    assert_eq!(p.normal_to_value(Normal::new(750_000)), 7_500_000);
}

#[test]
fn float_param_snaps_near_default() {
    let p = FloatParam::new(0u32, 0, 10_000_000, 0, 5_000_000);
    // A raw result within a thousandth of the default lands exactly on it.
    assert_eq!(p.normal_to_value(Normal::new(500_050)), 5_000_000);
    // Outside the snap window the affine result is kept.
    assert_eq!(p.normal_to_value(Normal::new(500_200)), 5_002_000);
}

#[test]
fn float_param_round_trip() {
    let p = FloatParam::new(0u32, -2_000_000, 2_000_000, 0, 2_000_000);
    for v in [-2_000_000i64, -1_234_567, 0, 999_999, 2_000_000] {
        let n = p.value_to_normal(v);
        let rt = p.normal_to_value(n);
        // One fixed-point step of the four-unit range is four millionths.
        assert!((rt - v).abs() <= 5, "{v} -> {rt}");
    }
}

#[test]
fn float_param_clamps_out_of_range_values() {
    let mut p = FloatParam::new(0u32, -1_000_000, 1_000_000, 0, 0);
    p.set_from_value(50_000_000);
    assert_eq!(p.value(), 1_000_000);
    assert_eq!(p.normal().value(), 1_000_000);
    p.set_from_value(i64::MIN);
    assert_eq!(p.value(), -1_000_000);
    assert_eq!(p.normal().value(), 0);
}

#[test]
fn normal_stays_in_range_for_all_update_sequences() {
    let mut f = FloatParam::new(0u32, -3_000_000, 9_000_000, 1, 2);
    let mut i = IntParam::new(1u32, -3, 9, 1, 2);
    let mut d = LogDBParam::new(2u32, -12_000_000, 12_000_000, 0, 0, Normal::new(500_000));
    let mut o = OctaveParam::new(3u32, 1, i64::MAX, 440_000_000, 440_000_000);
    let values = [i64::MIN, -1, 0, 7, 123_456_789, i64::MAX];
    let normals = [0i64, 1, 499_999, 1_000_000];
    for k in 0..values.len() {
        f.set_from_value(values[k]);
        i.set_from_value(values[k] as i32);
        d.set_from_value(values[k]);
        o.set_from_value(values[k]);
        assert!((0..=UNIT).contains(&f.normal().value()));
        assert!((0..=UNIT).contains(&i.normal().value()));
        assert!((0..=UNIT).contains(&d.normal().value()));
        assert!((0..=UNIT).contains(&o.normal().value()));
        let n = Normal::new(normals[k % normals.len()]);
        f.set_from_normal(n);
        i.set_from_normal(n);
        d.set_from_normal(n);
        o.set_from_normal(n);
        assert!((0..=UNIT).contains(&f.normal().value()));
        assert!((0..=UNIT).contains(&i.normal().value()));
        assert!((0..=UNIT).contains(&d.normal().value()));
        assert!((0..=UNIT).contains(&o.normal().value()));
    }
}

#[test]
fn set_from_normal_is_idempotent() {
    let mut p = FloatParam::new(0u32, 0, 10_000_000, 0, 0);
    p.set_from_normal(Normal::new(333_333));
    let value_once = p.value();
    let normal_once = p.normal().value();
    p.set_from_normal(Normal::new(333_333));
    assert_eq!(p.value(), value_once);
    assert_eq!(p.normal().value(), normal_once);

    let mut q = IntParam::new(0u32, 0, 10, 0, 0);
    q.set_from_normal(Normal::new(725_000));
    let step_once = q.value();
    let step_normal_once = q.normal().value();
    q.set_from_normal(Normal::new(725_000));
    assert_eq!(q.value(), step_once);
    assert_eq!(q.normal().value(), step_normal_once);
}

#[test]
fn log_db_and_octave_setters_are_idempotent() {
    let mut d = LogDBParam::new(0u32, -12_000_000, 12_000_000, 0, 0, Normal::new(500_000));
    d.set_from_normal(Normal::new(654_321));
    let dv = d.value();
    d.set_from_normal(Normal::new(654_321));
    assert_eq!(d.value(), dv);

    let mut o = OctaveParam::new(0u32, 20_000_000, 20_480_000_000, 440_000_000, 440_000_000);
    o.set_from_normal(Normal::new(654_321));
    let ov = o.value();
    o.set_from_normal(Normal::new(654_321));
    assert_eq!(o.value(), ov);
}

#[test]
fn octave_param_window_narrower_than_spectrum_resolution() {
    // Both requested bounds clamp to the top of the spectrum: the
    // window collapses and every position reads the lower bound.
    let mut p = OctaveParam::new(0u32, 25_000_000_000, 30_000_000_000, 1, 1);
    assert_eq!(p.value(), 20_480_000_000);
    assert_eq!(p.normal().value(), 0);
    p.set_from_normal(Normal::new(750_000));
    assert_eq!(p.value(), 20_480_000_000);
}

#[test]
fn int_param_quantizes_to_canonical_normal() {
    let mut param = IntParam::new(0, 0, 2, 1, 1);
    param.set_from_normal(Normal::new(800_000));
    assert_eq!(param.value(), 2);
    assert_eq!(param.normal().value(), 1_000_000);
}

#[test]
fn int_param_rounds_halves_up() {
    let p = IntParam::new(0, 0, 2, 0, 0);
    // Half a step up rounds to the next step.
    assert_eq!(p.normal_to_value(Normal::new(250_000)), 1);
    assert_eq!(p.normal_to_value(Normal::new(249_999)), 0);
    assert_eq!(p.normal_to_value(Normal::new(750_000)), 2);
    assert_eq!(p.normal_to_value(Normal::new(749_999)), 1);
}

#[test]
fn int_param_round_trip_is_exact() {
    let p = IntParam::new(0, -5, 5, 0, 0);
    for v in -5..=5 {
        let n = p.value_to_normal(v);
        assert_eq!(p.normal_to_value(n), v, "step {v}");
    }
}

#[test]
fn log_db_param_zero_point() {
    let p = LogDBParam::new(0u32, -12_000_000, 12_000_000, 0, 0, Normal::new(500_000));
    assert_eq!(p.value_to_normal(0).value(), 500_000);
    assert_eq!(p.value_to_normal(12_000_000).value(), 1_000_000);
    assert_eq!(p.value_to_normal(-12_000_000).value(), 0);
}

#[test]
fn log_db_param_square_law() {
    let p = LogDBParam::new(0u32, -12_000_000, 12_000_000, 0, 0, Normal::new(500_000));
    // A quarter of the negative range sits at half of the lower half:
    // sqrt(1/4) = 1/2, so -3 dB of a -12 dB minimum maps to 0.25.
    assert_eq!(p.value_to_normal(-3_000_000).value(), 250_000);
    assert_eq!(p.normal_to_value(Normal::new(250_000)), -3_000_000);
    // Symmetrically on the positive side.
    assert_eq!(p.value_to_normal(3_000_000).value(), 750_000);
    assert_eq!(p.normal_to_value(Normal::new(750_000)), 3_000_000);
}

#[test]
fn log_db_param_one_sided_ranges() {
    // Zero decibels pinned to the very top: only negative values remain.
    let neg = LogDBParam::new(0u32, -60_000_000, 0, -60_000_000, 0, Normal::new(1_000_000));
    assert_eq!(neg.value_to_normal(0).value(), 1_000_000);
    assert_eq!(neg.value_to_normal(-60_000_000).value(), 0);
    assert_eq!(neg.normal_to_value(Normal::new(1_000_000)), 0);
    // Zero decibels pinned to the very bottom: only positive values remain.
    let pos = LogDBParam::new(0u32, 0, 6_000_000, 0, 0, Normal::new(0));
    assert_eq!(pos.value_to_normal(0).value(), 0);
    assert_eq!(pos.value_to_normal(6_000_000).value(), 1_000_000);
    assert_eq!(pos.normal_to_value(Normal::new(0)), 0);
}

#[test]
fn octave_param_clamps_bounds_to_spectrum() {
    let p = OctaveParam::new(0u32, 5_000_000, 30_000_000_000, 1_000_000_000, 1_000_000_000);
    // Requested 5 Hz .. 30000 Hz, narrowed to 20 Hz .. 20480 Hz.
    assert_eq!(p.value_to_normal(20_000_000).value(), 0);
    assert_eq!(p.value_to_normal(20_480_000_000).value(), 1_000_000);
}

#[test]
fn octave_param_even_octaves() {
    let p = OctaveParam::new(0u32, 20_000_000, 20_480_000_000, 640_000_000, 640_000_000);
    // 640 Hz is four octaves above 40 Hz: half of the ten-octave span
    // that starts one octave below the anchor.
    assert_eq!(p.value_to_normal(640_000_000).value(), 500_000);
    assert_eq!(p.normal_to_value(Normal::new(500_000)), 640_000_000);
    // One octave up doubles the frequency and adds a tenth.
    assert_eq!(p.value_to_normal(1_280_000_000).value(), 600_000);
    assert_eq!(p.normal_to_value(Normal::new(0)), 20_000_000);
    assert_eq!(p.normal_to_value(Normal::new(1_000_000)), 20_480_000_000);
}

#[test]
fn octave_param_round_trip() {
    let mut p = OctaveParam::new(0u32, 20_000_000, 20_480_000_000, 440_000_000, 440_000_000);
    for n in [1i64, 123_456, 500_000, 765_432, 999_999] {
        p.set_from_normal(Normal::new(n));
        let v = p.value();
        let back = p.value_to_normal(v).value();
        assert!((back - n).abs() <= 2, "normal {n} -> {v} -> {back}");
    }
}

#[test]
fn param_trait_exposes_identity_and_normals() {
    let p = FloatParam::new(42u32, 0, 1_000_000, 250_000, 750_000);
    assert_eq!(p.id(), 42);
    assert_eq!(p.normal().value(), 250_000);
    assert_eq!(p.default_normal().value(), 750_000);
}
