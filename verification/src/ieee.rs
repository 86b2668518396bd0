//! The fields of a binary64 value and what they denote.

use vstd::prelude::*;
use crate::value::Binary64;

verus! {

/// The exponent bias of binary64.
pub const BIAS: i32 = 1023;

/// The exponent of the subnormal values, which is also the smallest
/// exponent of a normal one.
pub const MIN_EXPONENT: i32 = -1022;

/// The number of values of the fraction field: `2^52`.
pub const FRACTION_SPAN: u64 = 0x10_0000_0000_0000;

/// The largest value of the exponent field, which marks infinities and NaNs.
pub const EXPONENT_ONES: u16 = 2047;

/// The five kinds of binary64 values.
#[derive(Clone, Copy, Debug, PartialEq, Eq, Structural)]
pub enum Category {
    Zero,
    Subnormal,
    Normal,
    Infinity,
    NaN,
}

/// The three fields of a binary64 value.
#[derive(Clone, Copy, Debug, PartialEq, Eq, Structural)]
pub struct Fields {
    /// Bit 63: 1 for a negative value.
    pub sign: u8,
    /// Bits 62 to 52, as stored.
    pub biased_exponent: u16,
    /// Bits 51 to 0.
    pub fraction: u64,
}

/// What a binary64 value denotes, by its fields.
#[derive(Clone, Copy, Debug, PartialEq, Eq, Structural)]
pub enum ValueForm {
    /// `(-1)^sign * (1 + fraction / 2^52) * 2^exponent`.
    Normal { sign: u8, fraction: u64, exponent: i32 },
    /// `(-1)^sign * (0 + fraction / 2^52) * 2^-1022`.
    Subnormal { sign: u8, fraction: u64 },
    /// `(-1)^sign * 0`.
    Zero { sign: u8 },
    /// `(-1)^sign * Infinity`.
    Infinity { sign: u8 },
    /// Not a number; its payload is not decoded.
    NaN,
}

impl Fields {
    /// Each field within its width.
    pub open spec fn wf(self) -> bool {
        self.sign <= 1 && self.biased_exponent <= EXPONENT_ONES && self.fraction < FRACTION_SPAN
    }

    /// An all-zero exponent field with a zero fraction.
    pub open spec fn is_zero(self) -> bool {
        self.biased_exponent == 0 && self.fraction == 0
    }

    /// An all-zero exponent field with a nonzero fraction.
    pub open spec fn is_subnormal(self) -> bool {
        self.biased_exponent == 0 && self.fraction != 0
    }

    /// An exponent field neither all zeros nor all ones.
    pub open spec fn is_normal(self) -> bool {
        0 < self.biased_exponent < EXPONENT_ONES
    }

    /// An all-ones exponent field with a zero fraction.
    pub open spec fn is_infinity(self) -> bool {
        self.biased_exponent == EXPONENT_ONES && self.fraction == 0
    }

    /// An all-ones exponent field with a nonzero fraction.
    pub open spec fn is_nan(self) -> bool {
        self.biased_exponent == EXPONENT_ONES && self.fraction != 0
    }

    /// The kind of value that the fields make.
    pub open spec fn category_of(self) -> Category {
        if self.biased_exponent == 0 {
            if self.fraction == 0 {
                Category::Zero
            } else {
                Category::Subnormal
            }
        } else if self.biased_exponent == EXPONENT_ONES {
            if self.fraction == 0 {
                Category::Infinity
            } else {
                Category::NaN
            }
        } else {
            Category::Normal
        }
    }

    /// The exponent of two in the value: the stored one less the bias for a
    /// normal value, the fixed smallest one for a subnormal value, none for
    /// the rest.
    pub open spec fn exponent_of(self) -> Option<i32> {
        match self.category_of() {
            Category::Normal => Some((self.biased_exponent - BIAS) as i32),
            Category::Subnormal => Some(MIN_EXPONENT),
            _ => None,
        }
    }

    /// The significand in units of `2^-52`: the fraction, and for a normal
    /// value the implicit leading one before it; none for infinities and
    /// NaNs.
    pub open spec fn significand_of(self) -> Option<u64> {
        match self.category_of() {
            Category::Normal => Some((FRACTION_SPAN + self.fraction) as u64),
            Category::Subnormal => Some(self.fraction),
            Category::Zero => Some(0u64),
            _ => None,
        }
    }

    /// What the fields denote.
    pub open spec fn value_form_of(self) -> ValueForm {
        match self.category_of() {
            Category::Normal => ValueForm::Normal {
                sign: self.sign,
                fraction: self.fraction,
                exponent: (self.biased_exponent - BIAS) as i32,
            },
            Category::Subnormal => ValueForm::Subnormal { sign: self.sign, fraction: self.fraction },
            Category::Zero => ValueForm::Zero { sign: self.sign },
            Category::Infinity => ValueForm::Infinity { sign: self.sign },
            Category::NaN => ValueForm::NaN,
        }
    }

    /// The bits that hold the fields.
    pub open spec fn bits_of(self) -> int {
        self.sign * 0x8000_0000_0000_0000 + self.biased_exponent * FRACTION_SPAN + self.fraction
    }

    /// The kind of value that the fields make.
    pub fn category(&self) -> (kind: Category)
        ensures
            kind == self.category_of(),
    {
        if self.biased_exponent == 0 {
            if self.fraction == 0 {
                Category::Zero
            } else {
                Category::Subnormal
            }
        } else if self.biased_exponent == EXPONENT_ONES {
            if self.fraction == 0 {
                Category::Infinity
            } else {
                Category::NaN
            }
        } else {
            Category::Normal
        }
    }

    /// The exponent of two in the value, where it has one.
    pub fn unbiased_exponent(&self) -> (exponent: Option<i32>)
        requires
            self.wf(),
        ensures
            exponent == self.exponent_of(),
            exponent matches Some(e) ==> MIN_EXPONENT <= e <= BIAS,
    {
        match self.category() {
            Category::Normal => Some(self.biased_exponent as i32 - BIAS),
            Category::Subnormal => Some(MIN_EXPONENT),
            _ => None,
        }
    }

    /// The significand in units of `2^-52`, where the value has one.
    pub fn significand(&self) -> (units: Option<u64>)
        requires
            self.wf(),
        ensures
            units == self.significand_of(),
            units matches Some(m) ==> m < 2 * FRACTION_SPAN,
    {
        match self.category() {
            Category::Normal => Some(FRACTION_SPAN + self.fraction),
            Category::Subnormal => Some(self.fraction),
            Category::Zero => Some(0),
            _ => None,
        }
    }

    /// What the fields denote.
    pub fn value_form(&self) -> (form: ValueForm)
        requires
            self.wf(),
        ensures
            form == self.value_form_of(),
    {
        match self.category() {
            Category::Normal => ValueForm::Normal {
                sign: self.sign,
                fraction: self.fraction,
                exponent: self.biased_exponent as i32 - BIAS,
            },
            Category::Subnormal => ValueForm::Subnormal { sign: self.sign, fraction: self.fraction },
            Category::Zero => ValueForm::Zero { sign: self.sign },
            Category::Infinity => ValueForm::Infinity { sign: self.sign },
            Category::NaN => ValueForm::NaN,
        }
    }

    /// Puts the fields together into a value.
    pub fn compose(&self) -> (value: Binary64)
        requires
            self.wf(),
        ensures
            value.bits == self.bits_of(),
            value.fields_of() == *self,
    {
        let sign: u64 = self.sign as u64;
        let exponent: u64 = self.biased_exponent as u64;
        let fraction: u64 = self.fraction;
        let bits: u64 = (sign << 63) | (exponent << 52) | fraction;
        assert(bits == sign * 0x8000_0000_0000_0000 + exponent * 0x10_0000_0000_0000 + fraction)
            by (bit_vector)
            requires
                sign <= 1,
                exponent <= 2047,
                fraction < 0x10_0000_0000_0000,
                bits == (sign << 63) | (exponent << 52) | fraction,
        ;
        Binary64 { bits }
    }
}

impl Binary64 {
    /// The fields of the value: bit 63, bits 62 to 52, bits 51 to 0.
    pub open spec fn fields_of(self) -> Fields {
        Fields {
            sign: (self.bits / 0x8000_0000_0000_0000) as u8,
            biased_exponent: ((self.bits / FRACTION_SPAN) % 2048) as u16,
            fraction: self.bits % FRACTION_SPAN,
        }
    }

    /// Takes the value apart into its fields.
    pub fn decompose(&self) -> (fields: Fields)
        ensures
            fields == self.fields_of(),
            fields.wf(),
            fields.bits_of() == self.bits,
    {
        let bits: u64 = self.bits;
        let sign: u64 = bits >> 63;
        let exponent: u64 = (bits >> 52) & 0x7ff;
        let fraction: u64 = bits & 0xf_ffff_ffff_ffff;
        assert(sign == bits / 0x8000_0000_0000_0000 && sign <= 1) by (bit_vector)
            requires
                sign == bits >> 63,
        ;
        assert(exponent == (bits / 0x10_0000_0000_0000) % 2048 && exponent <= 2047)
            by (bit_vector)
            requires
                exponent == (bits >> 52) & 0x7ff,
        ;
        assert(fraction == bits % 0x10_0000_0000_0000) by (bit_vector)
            requires
                fraction == bits & 0xf_ffff_ffff_ffff,
        ;
        Fields { sign: sign as u8, biased_exponent: exponent as u16, fraction }
    }

    /// The kind of the value.
    pub fn category(&self) -> (kind: Category)
        ensures
            kind == self.fields_of().category_of(),
    {
        self.decompose().category()
    }
}

/// Every binary64 value is of exactly one kind: of the five conditions on
/// its fields one holds and no other, and it is the one that the category
/// names.
pub proof fn lemma_category_exactly_one(value: Binary64)
    ensures
        ({
            let f = value.fields_of();
            let count = (if f.is_zero() {
                1int
            } else {
                0int
            }) + (if f.is_subnormal() {
                1int
            } else {
                0int
            }) + (if f.is_normal() {
                1int
            } else {
                0int
            }) + (if f.is_infinity() {
                1int
            } else {
                0int
            }) + (if f.is_nan() {
                1int
            } else {
                0int
            });
            &&& count == 1
            &&& f.is_zero() <==> f.category_of() == Category::Zero
            &&& f.is_subnormal() <==> f.category_of() == Category::Subnormal
            &&& f.is_normal() <==> f.category_of() == Category::Normal
            &&& f.is_infinity() <==> f.category_of() == Category::Infinity
            &&& f.is_nan() <==> f.category_of() == Category::NaN
        }),
{
}

/// The fields of a value hold all of it: put together again they give its
/// bits, whatever its kind. For a normal value these are the sign, the
/// fraction and the exponent of its value form, the exponent within the
/// normal range.
pub proof fn lemma_fields_recompose(value: Binary64)
    ensures
        value.fields_of().wf(),
        value.fields_of().bits_of() == value.bits,
        value.fields_of().category_of() == Category::Normal ==> ({
            let f = value.fields_of();
            &&& f.value_form_of() matches ValueForm::Normal { sign, fraction, exponent }
            &&& MIN_EXPONENT <= exponent <= BIAS
            &&& value.bits == sign * 0x8000_0000_0000_0000 + (exponent + BIAS) * FRACTION_SPAN
                + fraction
        }),
{
}

/// Values with the same fields are the same value.
pub proof fn lemma_fields_decide_value(a: Binary64, b: Binary64)
    requires
        a.fields_of() == b.fields_of(),
    ensures
        a == b,
{
    lemma_fields_recompose(a);
    lemma_fields_recompose(b);
}

} // verus!
