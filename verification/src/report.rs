//! Everything that is shown of one value, as plain data.

use vstd::prelude::*;
use crate::banner::{ascii_digits, banner_of};
use crate::bits::{float_bits, float_cells, integer_bits, integer_cells, BitCell};
use crate::ieee::{Category, Fields, ValueForm};
use crate::meter::{meter_index, meter_position, meter_track, track_of, MeterCell};
use crate::notation::{
    fixed_12, fixed_12_of, fraction_hex, raw_hex, sign_symbol, value_form_text,
    value_form_text_of,
};
use crate::text::{
    binary_text, decimal_of, decimal_text, digits_of, hex_text, magnitude, octal_text,
    padded_digits, twos_complement,
};
use crate::value::{Binary64, DomainValue};

verus! {

/// What a natural logarithm is taken of, for an integer other than zero: its
/// magnitude, the sign kept apart.
#[derive(Clone, Copy, Debug, PartialEq, Eq, Structural)]
pub struct LogOperand {
    pub negative: bool,
    pub magnitude: u64,
}

/// What is shown of an integer.
#[derive(Debug)]
pub struct IntegerReport {
    pub value: i64,
    pub decimal: String,
    pub hex: String,
    pub octal: String,
    pub binary: String,
    /// `None` for zero, which has no logarithm.
    pub log_operand: Option<LogOperand>,
    pub banner: String,
    pub bits: Vec<BitCell>,
    pub meter_cell: usize,
    pub meter: Vec<MeterCell>,
}

/// What is shown of a binary64 value.
#[derive(Debug)]
pub struct FloatReport {
    pub value: Binary64,
    pub raw_hex: String,
    pub bits: Vec<BitCell>,
    pub fields: Fields,
    pub sign_symbol: char,
    pub category: Category,
    pub fraction_hex: String,
    /// `None` for zeros, infinities and NaNs.
    pub exponent: Option<i32>,
    /// In units of `2^-52`; `None` for infinities and NaNs.
    pub significand: Option<u64>,
    /// The significand with twelve decimal places, where there is one.
    pub significand_text: Option<String>,
    pub form: ValueForm,
    pub form_text: String,
}

/// What is shown of a value, by its domain.
#[derive(Debug)]
pub enum Report {
    Integer(IntegerReport),
    Float(FloatReport),
}

/// The operand of the logarithm of `n`.
pub open spec fn log_operand_of(n: i64) -> Option<LogOperand> {
    if n == 0 {
        None
    } else {
        Some(
            LogOperand {
                negative: n < 0,
                magnitude: (if n < 0 {
                    -n
                } else {
                    n as int
                }) as u64,
            },
        )
    }
}

impl IntegerReport {
    /// Whether this is the report on `n`.
    pub open spec fn shows(self, n: i64) -> bool {
        &&& self.value == n
        &&& self.decimal@ == decimal_of(n as int)
        &&& self.hex@ == digits_of(twos_complement(n), 16)
        &&& self.octal@ == digits_of(twos_complement(n), 8)
        &&& self.binary@ == digits_of(twos_complement(n), 2)
        &&& self.log_operand == log_operand_of(n)
        &&& self.banner@ == banner_of(decimal_of(n as int))
        &&& self.bits@ == integer_cells(n)
        &&& self.meter_cell == meter_position(n)
        &&& self.meter@ == track_of(meter_position(n) as int)
    }
}

impl FloatReport {
    /// Whether this is the report on `value`.
    pub open spec fn shows(self, value: Binary64) -> bool {
        let fields = value.fields_of();
        &&& self.value == value
        &&& self.raw_hex@ == padded_digits(value.bits as nat, 16, 16)
        &&& self.bits@ == float_cells(value)
        &&& self.fields == fields
        &&& self.sign_symbol == if fields.sign == 0 {
            '+'
        } else {
            '-'
        }
        &&& self.category == fields.category_of()
        &&& self.fraction_hex@ == padded_digits(fields.fraction as nat, 16, 13)
        &&& self.exponent == fields.exponent_of()
        &&& self.significand == fields.significand_of()
        &&& match fields.significand_of() {
            Some(units) => self.significand_text matches Some(text) && text@ == fixed_12_of(
                units as nat,
            ),
            None => self.significand_text is None,
        }
        &&& self.form == fields.value_form_of()
        &&& self.form_text@ == value_form_text_of(fields.value_form_of())
    }
}

impl Report {
    /// Whether this is the report on `value`: of its domain, and showing it.
    pub open spec fn shows(self, value: DomainValue) -> bool {
        match value {
            DomainValue::Integer(n) => self matches Report::Integer(report) && report.shows(n),
            DomainValue::Float(f) => self matches Report::Float(report) && report.shows(f),
        }
    }
}

/// The operand of the logarithm of `n`: none for zero.
pub fn log_operand(n: i64) -> (operand: Option<LogOperand>)
    ensures
        operand == log_operand_of(n),
{
    if n == 0 {
        None
    } else {
        Some(LogOperand { negative: n < 0, magnitude: magnitude(n) })
    }
}

/// Everything shown of the integer `n`.
pub fn integer_report(n: i64) -> (report: IntegerReport)
    ensures
        report.shows(n),
{
    let cell = meter_index(n);
    IntegerReport {
        value: n,
        decimal: decimal_text(n),
        hex: hex_text(n),
        octal: octal_text(n),
        binary: binary_text(n),
        log_operand: log_operand(n),
        banner: ascii_digits(n),
        bits: integer_bits(n),
        meter_cell: cell,
        meter: meter_track(cell),
    }
}

/// Everything shown of the binary64 value `value`.
pub fn float_report(value: Binary64) -> (report: FloatReport)
    ensures
        report.shows(value),
{
    let fields = value.decompose();
    let form = fields.value_form();
    let significand = fields.significand();
    let significand_text = match significand {
        Some(units) => Some(fixed_12(units)),
        None => None,
    };
    FloatReport {
        value,
        raw_hex: raw_hex(value),
        bits: float_bits(value),
        fields,
        sign_symbol: sign_symbol(fields),
        category: fields.category(),
        fraction_hex: fraction_hex(fields),
        exponent: fields.unbiased_exponent(),
        significand,
        significand_text,
        form,
        form_text: value_form_text(form),
    }
}

/// Everything shown of `value`, by its domain.
pub fn inspect(value: DomainValue) -> (report: Report)
    ensures
        report.shows(value),
{
    match value {
        DomainValue::Integer(n) => Report::Integer(integer_report(n)),
        DomainValue::Float(f) => Report::Float(float_report(f)),
    }
}

} // verus!
