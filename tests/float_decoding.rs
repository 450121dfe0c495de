use bit_viewer::ieee754::{decode_float, FloatClass, FloatValue, IEEEDecoder, IEEEFormat};
use bit_viewer::plot::{plot_placement, PlotPlacement};
use bit_viewer::special::{special_values, SpecialValue};
use std::num::FpCategory;

fn as_f64(v: FloatValue) -> f64 {
    match v {
        FloatValue::Finite { negative, significand, power } => {
            let mut x = significand as f64;
            let mut p = power;
            while p < -500 {
                x *= 2f64.powi(-500);
                p += 500;
            }
            x *= 2f64.powi(p);
            if negative {
                -x
            } else {
                x
            }
        }
        FloatValue::Infinite { negative } => {
            if negative {
                f64::NEG_INFINITY
            } else {
                f64::INFINITY
            }
        }
        FloatValue::NotANumber => f64::NAN,
    }
}

fn class_of(c: FpCategory) -> FloatClass {
    match c {
        FpCategory::Zero => FloatClass::Zero,
        FpCategory::Subnormal => FloatClass::Denormalized,
        FpCategory::Normal => FloatClass::Normalized,
        FpCategory::Infinite => FloatClass::Inf,
        FpCategory::Nan => FloatClass::NaN,
    }
}

#[test]
fn double_positive_infinity_example() {
    let d = decode_float(0x7FF0_0000_0000_0000, 64);
    assert_eq!(d.class, FloatClass::Inf);
    assert_eq!(d.sign, 0);
    assert_eq!(d.value, FloatValue::Infinite { negative: false });
    assert_eq!(d.special(), "+Inf");
    assert_eq!(as_f64(d.value), f64::INFINITY);
    assert_eq!(plot_placement(0x7FF0_0000_0000_0000, 64), PlotPlacement::Fixed { percent: 100 });
}

#[test]
fn half_one_example() {
    let d = decode_float(0x3C00, 16);
    assert_eq!(d.class, FloatClass::Normalized);
    assert_eq!(d.format, IEEEFormat::Half);
    assert_eq!(as_f64(d.value), 1.0);
    assert_eq!(as_f64(d.value), half::f16::from_bits(0x3C00).to_f64());
}

#[test]
fn half_fields() {
    let d = decode_float(0xC248, 16);
    assert_eq!(d.sign, 1);
    assert_eq!(d.exponent_bits, 16);
    assert_eq!(d.exponent, 1);
    assert_eq!(d.mantissa, 0x248);
    assert_eq!(d.exponent_bits_count(), 5);
    assert_eq!(d.mantissa_bits(), 10);
    assert_eq!(as_f64(d.value), half::f16::from_bits(0xC248).to_f64());
}

#[test]
fn half_subnormal_value() {
    let d = decode_float(0x0001, 16);
    assert_eq!(d.class, FloatClass::Denormalized);
    assert_eq!(d.special(), "Denormalized");
    assert_eq!(as_f64(d.value), 2f64.powi(-24));
    assert_eq!(as_f64(d.value), half::f16::from_bits(0x0001).to_f64());
}

#[test]
fn single_and_double_normals_match_the_platform() {
    for &bits in &[0x3F80_0000u32, 0xC0490FDB, 0x7F7F_FFFF, 0x0080_0000, 0x4B00_0001] {
        let d = decode_float(bits as u64, 32);
        assert_eq!(d.class, FloatClass::Normalized);
        assert_eq!(d.format, IEEEFormat::Single);
        assert_eq!(as_f64(d.value), f32::from_bits(bits) as f64);
    }
    for &bits in &[0x3FF0_0000_0000_0000u64, 0xC009_21FB_5444_2D18, 0x7FEF_FFFF_FFFF_FFFF, 0x0010_0000_0000_0000] {
        let d = decode_float(bits, 64);
        assert_eq!(d.class, FloatClass::Normalized);
        assert_eq!(as_f64(d.value), f64::from_bits(bits));
    }
}

#[test]
fn single_and_double_subnormals_scale_the_raw_mantissa() {
    let d = decode_float(0x0000_0003, 32);
    assert_eq!(d.class, FloatClass::Denormalized);
    assert_eq!(as_f64(d.value), 3.0 * 2f64.powi(-126));
    let d = decode_float(0x8000_0000_0000_0005, 64);
    assert_eq!(d.class, FloatClass::Denormalized);
    assert_eq!(d.sign, 1);
    assert_eq!(as_f64(d.value), -5.0 * 2f64.powi(-1022));
}

#[test]
fn classification_matches_the_platform() {
    let singles = [0u32, 0x8000_0000, 1, 0x807F_FFFF, 0x3F80_0000, 0x7F80_0000, 0xFF80_0000, 0x7FC0_0000, 0x7F80_0001, 0xFFFF_FFFF];
    for &bits in &singles {
        assert_eq!(decode_float(bits as u64, 32).class, class_of(f32::from_bits(bits).classify()));
    }
    let doubles = [0u64, 0x8000_0000_0000_0000, 1, 0x000F_FFFF_FFFF_FFFF, 0x3FF0_0000_0000_0000, 0x7FF0_0000_0000_0000, 0xFFF0_0000_0000_0000, 0x7FF8_0000_0000_0000, 0x7FF0_0000_0000_0001, u64::MAX];
    for &bits in &doubles {
        assert_eq!(decode_float(bits, 64).class, class_of(f64::from_bits(bits).classify()));
    }
    for bits in (0u32..=0xFFFF).step_by(7) {
        let h = half::f16::from_bits(bits as u16);
        assert_eq!(decode_float(bits as u64, 16).class, class_of(h.classify()));
    }
}

#[test]
fn zero_keeps_its_sign_in_the_fields_only() {
    let d = decode_float(0x8000, 16);
    assert_eq!(d.class, FloatClass::Zero);
    assert_eq!(d.special(), "Zero");
    assert_eq!(d.sign, 1);
    assert_eq!(decode_float(0xFC00, 16).special(), "-Inf");
    assert_eq!(decode_float(0x3C00, 16).special(), "Normalized");
    assert_eq!(d.value, FloatValue::Finite { negative: false, significand: 0, power: 0 });
}

#[test]
fn nan_keeps_its_fields() {
    let d = decode_float(0xFFC0_0001, 32);
    assert_eq!(d.class, FloatClass::NaN);
    assert_eq!(d.sign, 1);
    assert_eq!(d.exponent_bits, 0xFF);
    assert_eq!(d.mantissa, 0x40_0001);
    assert_eq!(d.value, FloatValue::NotANumber);
    assert_eq!(d.special(), "NaN");
}

#[test]
fn other_widths_decode_as_double() {
    let d: IEEEDecoder = decode_float(0x41, 8);
    assert_eq!(d.format, IEEEFormat::Double);
    assert_eq!(d.exponent_bits_count(), 11);
    assert_eq!(d.mantissa_bits(), 52);
    assert_eq!(d.class, FloatClass::Denormalized);
}

#[test]
fn fixed_plot_points() {
    assert_eq!(plot_placement(0xFC00, 16), PlotPlacement::Fixed { percent: 0 });
    assert_eq!(plot_placement(0x7C00, 16), PlotPlacement::Fixed { percent: 100 });
    assert_eq!(plot_placement(0x0000, 16), PlotPlacement::Fixed { percent: 50 });
    assert_eq!(plot_placement(0x8000, 16), PlotPlacement::Fixed { percent: 50 });
    assert_eq!(plot_placement(0x7E00, 16), PlotPlacement::Fixed { percent: 50 });
}

#[test]
fn plot_zones_carry_their_bounds() {
    assert_eq!(
        plot_placement(0x8001, 16),
        PlotPlacement::Subnormal { negative: true, significand: 1, power: -24, min_normal_power: -14 }
    );
    assert_eq!(
        plot_placement(0x3F80_0000, 32),
        PlotPlacement::Normal { negative: false, significand: 0x80_0000, power: -23, min_exponent: -126, max_exponent: 127 }
    );
    assert_eq!(
        plot_placement(0xBFF0_0000_0000_0000, 64),
        PlotPlacement::Normal { negative: true, significand: 1 << 52, power: -52, min_exponent: -1022, max_exponent: 1023 }
    );
}

#[test]
fn special_values_in_order() {
    let labels: Vec<&str> = special_values().into_iter().map(|s| s.label()).collect();
    assert_eq!(
        labels,
        vec!["NaN (Quiet)", "NaN (Signaling)", "+Inf", "-Inf", "+0", "-0", "Min Pos", "Max Pos"]
    );
}

#[test]
fn special_value_patterns() {
    assert_eq!(SpecialValue::QuietNaN.bits(16), 0x7E00);
    assert_eq!(SpecialValue::SignalingNaN.bits(32), 0x7F80_0001);
    assert_eq!(SpecialValue::NegInf.bits(64), 0xFFF0_0000_0000_0000);
    assert_eq!(SpecialValue::MaxPos.bits(16), 0x7BFF);
    assert_eq!(SpecialValue::NegZero.bits(8), 0);
}

#[test]
fn special_values_decode_to_their_classes() {
    for &width in &[16u64, 32, 64] {
        let class = |s: SpecialValue| decode_float(s.bits(width), width).class;
        assert_eq!(class(SpecialValue::QuietNaN), FloatClass::NaN);
        assert_eq!(class(SpecialValue::SignalingNaN), FloatClass::NaN);
        assert_eq!(class(SpecialValue::PosInf), FloatClass::Inf);
        assert_eq!(class(SpecialValue::NegInf), FloatClass::Inf);
        assert_eq!(class(SpecialValue::PosZero), FloatClass::Zero);
        assert_eq!(class(SpecialValue::NegZero), FloatClass::Zero);
        assert_eq!(class(SpecialValue::MinPos), FloatClass::Denormalized);
        assert_eq!(class(SpecialValue::MaxPos), FloatClass::Normalized);
        assert_eq!(decode_float(SpecialValue::NegInf.bits(width), width).sign, 1);
    }
}
