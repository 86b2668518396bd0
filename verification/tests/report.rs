use number_viewer::bits::{float_bits, integer_bits};
use number_viewer::ieee::{Category, ValueForm};
use number_viewer::meter::MeterCell;
use number_viewer::report::{inspect, log_operand, LogOperand, Report};
use number_viewer::value::{Binary64, DomainValue};

#[test]
fn integer_report_holds_every_view() {
    match inspect(DomainValue::Integer(-10)) {
        Report::Integer(report) => {
            assert_eq!(report.value, -10);
            assert_eq!(report.decimal, "-10");
            assert_eq!(report.hex, "fffffffffffffff6");
            assert_eq!(report.octal, "1777777777777777777766");
            assert_eq!(
                report.binary,
                "1111111111111111111111111111111111111111111111111111111111110110"
            );
            assert_eq!(report.log_operand, Some(LogOperand { negative: true, magnitude: 10 }));
            assert_eq!(report.banner.split('\n').count(), 5);
            assert_eq!(report.bits, integer_bits(-10));
            assert_eq!(report.meter_cell, 24);
            assert_eq!(report.meter[25], MeterCell::Pointer);
        }
        Report::Float(_) => panic!("an integer was given"),
    }
}

#[test]
fn float_report_holds_every_view() {
    let value = Binary64 { bits: (-1.5f64).to_bits() };
    match inspect(DomainValue::Float(value)) {
        Report::Float(report) => {
            assert_eq!(report.value, value);
            assert_eq!(report.raw_hex, "bff8000000000000");
            assert_eq!(report.bits, float_bits(value));
            assert_eq!(report.fields.biased_exponent, 1023);
            assert_eq!(report.sign_symbol, '-');
            assert_eq!(report.category, Category::Normal);
            assert_eq!(report.fraction_hex, "8000000000000");
            assert_eq!(report.exponent, Some(0));
            assert_eq!(report.significand, Some(3 << 51));
            assert_eq!(report.significand_text, Some("1.500000000000".to_string()));
            assert_eq!(report.form, ValueForm::Normal { sign: 1, fraction: 1 << 51, exponent: 0 });
            assert_eq!(report.form_text, "(-1)¹ × (1 + 0.500000000000) × 2⁰");
        }
        Report::Integer(_) => panic!("a float was given"),
    }
}

#[test]
fn zero_has_no_logarithm() {
    assert_eq!(log_operand(0), None);
    assert_eq!(log_operand(7), Some(LogOperand { negative: false, magnitude: 7 }));
    assert_eq!(
        log_operand(i64::MIN),
        Some(LogOperand { negative: true, magnitude: 1 << 63 })
    );
}
