use number_viewer::ieee::{Category, Fields, ValueForm};
use number_viewer::notation::{
    fraction_hex, push_fixed_12, push_superscript, raw_hex, sign_symbol, superscript,
    value_form_text,
};
use number_viewer::value::Binary64;
use std::num::FpCategory;

fn of(value: f64) -> Binary64 {
    Binary64 { bits: value.to_bits() }
}

fn samples() -> Vec<f64> {
    let mut all = vec![
        0.0,
        -0.0,
        1.0,
        -1.0,
        1.5,
        3.14,
        -2e5,
        0.1,
        1e-310,
        -1e-310,
        5e-324,
        f64::MIN_POSITIVE,
        f64::MAX,
        f64::MIN,
        f64::EPSILON,
        f64::INFINITY,
        f64::NEG_INFINITY,
        f64::NAN,
        -f64::NAN,
        6.02214076e23,
        1e300,
        1e-300,
    ];
    let mut state: u64 = 0x2545_f491_4f6c_dd1d;
    for _ in 0..2000 {
        state ^= state << 13;
        state ^= state >> 7;
        state ^= state << 17;
        all.push(f64::from_bits(state));
    }
    all
}

fn power_of_two(exponent: i32) -> f64 {
    f64::from_bits(((exponent + 1023) as u64) << 52)
}

#[test]
fn fields_are_the_three_bit_ranges() {
    let one = of(1.0).decompose();
    assert_eq!(one, Fields { sign: 0, biased_exponent: 1023, fraction: 0 });
    let value = of(-1.5).decompose();
    assert_eq!(value, Fields { sign: 1, biased_exponent: 1023, fraction: 1 << 51 });
    let all = Binary64 { bits: u64::MAX }.decompose();
    assert_eq!(all, Fields { sign: 1, biased_exponent: 2047, fraction: (1 << 52) - 1 });
    for value in samples() {
        let bits = value.to_bits();
        let fields = of(value).decompose();
        assert_eq!(fields.sign as u64, bits >> 63);
        assert_eq!(fields.biased_exponent as u64, (bits >> 52) & 0x7ff);
        assert_eq!(fields.fraction, bits & ((1 << 52) - 1));
        assert_eq!(fields.sign == 1, value.is_sign_negative());
    }
}

#[test]
fn composing_the_fields_gives_the_value_back() {
    for value in samples() {
        let fields = of(value).decompose();
        assert_eq!(fields.compose(), of(value));
    }
    let fields = Fields { sign: 1, biased_exponent: 1, fraction: 5 };
    assert_eq!(fields.compose().bits, (1 << 63) | (1 << 52) | 5);
    assert_eq!(fields.compose().decompose(), fields);
}

#[test]
fn category_is_the_standard_one() {
    for value in samples() {
        let expected = match value.classify() {
            FpCategory::Zero => Category::Zero,
            FpCategory::Subnormal => Category::Subnormal,
            FpCategory::Normal => Category::Normal,
            FpCategory::Infinite => Category::Infinity,
            FpCategory::Nan => Category::NaN,
        };
        assert_eq!(of(value).category(), expected, "value {:?}", value);
        assert_eq!(of(value).decompose().category(), expected);
    }
    assert_eq!(Binary64 { bits: 0 }.category(), Category::Zero);
    assert_eq!(Binary64 { bits: 1 << 63 }.category(), Category::Zero);
    assert_eq!(Binary64 { bits: 1 }.category(), Category::Subnormal);
    assert_eq!(Binary64 { bits: (1 << 52) - 1 }.category(), Category::Subnormal);
    assert_eq!(Binary64 { bits: 1 << 52 }.category(), Category::Normal);
    assert_eq!(Binary64 { bits: (0x7fe << 52) | 1 }.category(), Category::Normal);
    assert_eq!(Binary64 { bits: 0x7ff << 52 }.category(), Category::Infinity);
    assert_eq!(Binary64 { bits: 0xfff << 52 }.category(), Category::Infinity);
    assert_eq!(Binary64 { bits: (0x7ff << 52) | 1 }.category(), Category::NaN);
}

#[test]
fn exponent_and_significand_by_category() {
    let normal = of(1.5).decompose();
    assert_eq!(normal.unbiased_exponent(), Some(0));
    assert_eq!(normal.significand(), Some((1 << 52) + (1 << 51)));
    let largest = of(f64::MAX).decompose();
    assert_eq!(largest.unbiased_exponent(), Some(1023));
    let smallest_normal = of(f64::MIN_POSITIVE).decompose();
    assert_eq!(smallest_normal.unbiased_exponent(), Some(-1022));
    let subnormal = of(5e-324).decompose();
    assert_eq!(subnormal.unbiased_exponent(), Some(-1022));
    assert_eq!(subnormal.significand(), Some(1));
    let zero = of(-0.0).decompose();
    assert_eq!(zero.unbiased_exponent(), None);
    assert_eq!(zero.significand(), Some(0));
    let infinity = of(f64::INFINITY).decompose();
    assert_eq!(infinity.unbiased_exponent(), None);
    assert_eq!(infinity.significand(), None);
    let nan = of(f64::NAN).decompose();
    assert_eq!(nan.unbiased_exponent(), None);
    assert_eq!(nan.significand(), None);
}

#[test]
fn value_form_by_category() {
    assert_eq!(
        of(-1.5).decompose().value_form(),
        ValueForm::Normal { sign: 1, fraction: 1 << 51, exponent: 0 }
    );
    assert_eq!(
        of(5e-324).decompose().value_form(),
        ValueForm::Subnormal { sign: 0, fraction: 1 }
    );
    assert_eq!(of(0.0).decompose().value_form(), ValueForm::Zero { sign: 0 });
    assert_eq!(of(-0.0).decompose().value_form(), ValueForm::Zero { sign: 1 });
    assert_eq!(of(f64::NEG_INFINITY).decompose().value_form(), ValueForm::Infinity { sign: 1 });
    assert_eq!(of(f64::NAN).decompose().value_form(), ValueForm::NaN);
}

#[test]
fn value_form_of_a_finite_value_evaluates_to_it() {
    for value in samples() {
        let fields = of(value).decompose();
        let sign = if fields.sign == 1 { -1.0 } else { 1.0 };
        match fields.value_form() {
            ValueForm::Normal { fraction, exponent, .. } => {
                let frac_value = fraction as f64 / 4503599627370496.0;
                let rebuilt = sign * (1.0 + frac_value) * power_of_two(exponent);
                assert_eq!(rebuilt.to_bits(), value.to_bits());
            }
            ValueForm::Subnormal { fraction, .. } => {
                let mantissa = fraction as f64 / 4503599627370496.0;
                let rebuilt = sign * mantissa * power_of_two(-1022);
                assert_eq!(rebuilt.to_bits(), value.to_bits());
            }
            ValueForm::Zero { .. } => assert_eq!((sign * 0.0).to_bits(), value.to_bits()),
            ValueForm::Infinity { .. } => {
                assert_eq!((sign * f64::INFINITY).to_bits(), value.to_bits())
            }
            ValueForm::NaN => assert!(value.is_nan()),
        }
    }
}

#[test]
fn hexadecimal_forms_are_padded() {
    assert_eq!(raw_hex(of(1.0)), "3ff0000000000000");
    assert_eq!(raw_hex(of(0.0)), "0000000000000000");
    assert_eq!(fraction_hex(of(1.5).decompose()), "8000000000000");
    assert_eq!(fraction_hex(of(5e-324).decompose()), "0000000000001");
    for value in samples() {
        assert_eq!(raw_hex(of(value)), format!("{:016x}", value.to_bits()));
        let fields = of(value).decompose();
        assert_eq!(fraction_hex(fields), format!("{:013x}", fields.fraction));
    }
}

#[test]
fn sign_symbols() {
    assert_eq!(sign_symbol(of(2.0).decompose()), '+');
    assert_eq!(sign_symbol(of(-2.0).decompose()), '-');
    assert_eq!(sign_symbol(of(-0.0).decompose()), '-');
}

#[test]
fn superscripts() {
    let plain = "-0123456789x";
    let raised: String = plain.chars().map(superscript).collect();
    assert_eq!(raised, "⁻⁰¹²³⁴⁵⁶⁷⁸⁹x");
    let mut out = String::from("2");
    push_superscript(&mut out, -1022);
    assert_eq!(out, "2⁻¹⁰²²");
    let mut other = String::new();
    push_superscript(&mut other, 1023);
    assert_eq!(other, "¹⁰²³");
    let mut zero = String::new();
    push_superscript(&mut zero, 0);
    assert_eq!(zero, "⁰");
}

fn fixed_12(units: u64) -> String {
    let mut out = String::new();
    push_fixed_12(&mut out, units);
    out
}

#[test]
fn twelve_decimal_places() {
    assert_eq!(fixed_12(0), "0.000000000000");
    assert_eq!(fixed_12(1 << 52), "1.000000000000");
    assert_eq!(fixed_12(1 << 51), "0.500000000000");
    assert_eq!(fixed_12((1 << 52) + (1 << 51)), "1.500000000000");
    assert_eq!(fixed_12(1), "0.000000000000");
    assert_eq!(fixed_12((1 << 53) - 1), "2.000000000000");
    // 2^-13 = 0.0001220703125 lies halfway; the even neighbour is taken
    assert_eq!(fixed_12(1 << 39), "0.000122070312");
    // 3 * 2^-13 = 0.0003662109375 lies halfway too
    assert_eq!(fixed_12(3 << 39), "0.000366210938");
    assert_eq!(fixed_12(u64::MAX), "4096.000000000000");
}

#[test]
fn twelve_decimal_places_agree_with_the_standard_formatting() {
    let mut state: u64 = 0x1234_5678_9abc_def1;
    for _ in 0..5000 {
        state ^= state << 13;
        state ^= state >> 7;
        state ^= state << 17;
        let units = state >> 11;
        let value = units as f64 / 4503599627370496.0;
        assert_eq!(fixed_12(units), format!("{:.12}", value), "units {}", units);
    }
    for k in 0..4000u64 {
        let units = k << 39;
        let value = units as f64 / 4503599627370496.0;
        assert_eq!(fixed_12(units), format!("{:.12}", value), "units {}", units);
    }
}

#[test]
fn value_form_texts() {
    assert_eq!(
        value_form_text(of(1.5).decompose().value_form()),
        "(-1)⁰ × (1 + 0.500000000000) × 2⁰"
    );
    assert_eq!(
        value_form_text(of(-2048.0).decompose().value_form()),
        "(-1)¹ × (1 + 0.000000000000) × 2¹¹"
    );
    assert_eq!(
        value_form_text(of(0.375).decompose().value_form()),
        "(-1)⁰ × (1 + 0.500000000000) × 2⁻²"
    );
    assert_eq!(
        value_form_text(Binary64 { bits: 1 << 51 }.decompose().value_form()),
        "(-1)⁰ × (0 + 0.500000000000) × 2⁻¹⁰²²"
    );
    assert_eq!(value_form_text(of(-0.0).decompose().value_form()), "(-1)¹ × 0");
    assert_eq!(value_form_text(of(f64::INFINITY).decompose().value_form()), "(-1)⁰ × Infinity");
    assert_eq!(value_form_text(of(f64::NAN).decompose().value_form()), "NaN");
}
