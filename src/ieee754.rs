//! IEEE 754 decoding of a raw bit pattern as a half, single or double.

use vstd::prelude::*;

verus! {

/// The three IEEE 754 binary formats.
#[derive(Debug, Clone, Copy, PartialEq, Eq, Structural)]
pub enum IEEEFormat {
    Half,
    Single,
    Double,
}

/// The classification of a bit pattern.
#[derive(Debug, Clone, Copy, PartialEq, Eq, Structural)]
pub enum FloatClass {
    Zero,
    Denormalized,
    Normalized,
    Inf,
    NaN,
}

/// The value that a bit pattern stands for, held exactly.
#[derive(Debug, Clone, Copy, PartialEq, Eq, Structural)]
pub enum FloatValue {
    /// `(-1)^negative * significand * 2^power`.
    Finite { negative: bool, significand: u64, power: i32 },
    /// Positive or negative infinity.
    Infinite { negative: bool },
    /// Not a number.
    NotANumber,
}

/// Where the fields of a format lie and how they are scaled.
#[derive(Debug, Clone, Copy, PartialEq, Eq, Structural)]
pub struct FormatLayout {
    /// Position of the sign bit.
    pub sign_shift: u64,
    /// Width of the mantissa field, which is also the exponent field's position.
    pub mantissa_bits: u64,
    /// Width of the exponent field.
    pub exponent_bits: u64,
    /// The exponent field with every bit set.
    pub exponent_mask: u64,
    /// The mantissa field with every bit set.
    pub mantissa_mask: u64,
    /// The exponent bias.
    pub bias: i32,
    /// The power of two by which a subnormal's mantissa is scaled.
    pub subnormal_power: i32,
}

/// The format decoded for an active width: 16 is half, 32 single, and every
/// other width double.
pub open spec fn format_for_width(width: u64) -> IEEEFormat {
    if width == 16 {
        IEEEFormat::Half
    } else if width == 32 {
        IEEEFormat::Single
    } else {
        IEEEFormat::Double
    }
}

/// The field layout of each format. A half's subnormal mantissa is a
/// fraction of 2^-14; the single and double subnormal mantissas are scaled
/// as whole numbers by 2^-126 and 2^-1022.
pub open spec fn layout_spec(f: IEEEFormat) -> FormatLayout {
    match f {
        IEEEFormat::Half => FormatLayout {
            sign_shift: 15,
            mantissa_bits: 10,
            exponent_bits: 5,
            exponent_mask: 0x1F,
            mantissa_mask: 0x3FF,
            bias: 15,
            subnormal_power: -24i32,
        },
        IEEEFormat::Single => FormatLayout {
            sign_shift: 31,
            mantissa_bits: 23,
            exponent_bits: 8,
            exponent_mask: 0xFF,
            mantissa_mask: 0x7F_FFFF,
            bias: 127,
            subnormal_power: -126i32,
        },
        IEEEFormat::Double => FormatLayout {
            sign_shift: 63,
            mantissa_bits: 52,
            exponent_bits: 11,
            exponent_mask: 0x7FF,
            mantissa_mask: 0xF_FFFF_FFFF_FFFF,
            bias: 1023,
            subnormal_power: -1022i32,
        },
    }
}

/// The class of an exponent field and mantissa, as IEEE 754 defines it.
pub open spec fn classify(exponent_bits: u64, mantissa: u64, exponent_mask: u64) -> FloatClass {
    if exponent_bits == exponent_mask {
        if mantissa == 0 {
            FloatClass::Inf
        } else {
            FloatClass::NaN
        }
    } else if exponent_bits == 0 {
        if mantissa == 0 {
            FloatClass::Zero
        } else {
            FloatClass::Denormalized
        }
    } else {
        FloatClass::Normalized
    }
}

/// The value of the fields under `class`: a normal's significand carries the
/// hidden bit and is scaled by `2^(exponent_bits - bias - mantissa_bits)`;
/// zero is an unsigned zero.
pub open spec fn value_spec(
    class: FloatClass,
    sign: u8,
    exponent_bits: u64,
    mantissa: u64,
    l: FormatLayout,
) -> FloatValue {
    match class {
        FloatClass::Inf => FloatValue::Infinite { negative: sign == 1 },
        FloatClass::NaN => FloatValue::NotANumber,
        FloatClass::Zero => FloatValue::Finite { negative: false, significand: 0, power: 0 },
        FloatClass::Denormalized => FloatValue::Finite {
            negative: sign == 1,
            significand: mantissa,
            power: l.subnormal_power,
        },
        FloatClass::Normalized => FloatValue::Finite {
            negative: sign == 1,
            significand: (mantissa + l.mantissa_mask + 1) as u64,
            power: (exponent_bits - l.bias - l.mantissa_bits) as i32,
        },
    }
}

/// The decoded fields of a bit pattern.
#[derive(Debug, Clone, Copy, PartialEq, Eq, Structural)]
pub struct IEEEDecoder {
    /// The sign bit.
    pub sign: u8,
    /// The exponent field with the bias removed.
    pub exponent: i32,
    /// The exponent field as stored.
    pub exponent_bits: i32,
    /// The mantissa field.
    pub mantissa: u64,
    /// The value that the pattern stands for.
    pub value: FloatValue,
    /// The classification of the pattern.
    pub class: FloatClass,
    /// The format that the pattern was decoded in.
    pub format: IEEEFormat,
}

/// The label of a classification; infinities are signed by the sign bit.
pub open spec fn special_label(class: FloatClass, sign: u8) -> Seq<char> {
    match class {
        FloatClass::Inf => if sign == 0 {
            "+Inf"@
        } else {
            "-Inf"@
        },
        FloatClass::NaN => "NaN"@,
        FloatClass::Zero => "Zero"@,
        FloatClass::Denormalized => "Denormalized"@,
        FloatClass::Normalized => "Normalized"@,
    }
}

/// The decoding of `raw` under the active `width`.
pub open spec fn decoded_spec(raw: u64, width: u64) -> IEEEDecoder {
    let f = format_for_width(width);
    let l = layout_spec(f);
    let sign = ((raw >> l.sign_shift) & 1u64) as u8;
    let e = (raw >> l.mantissa_bits) & l.exponent_mask;
    let m = raw & l.mantissa_mask;
    let class = classify(e, m, l.exponent_mask);
    IEEEDecoder {
        sign,
        exponent: (e - l.bias) as i32,
        exponent_bits: e as i32,
        mantissa: m,
        value: value_spec(class, sign, e, m, l),
        class,
        format: f,
    }
}

/// Returns the field layout of `f`.
pub fn layout(f: IEEEFormat) -> (r: FormatLayout)
    ensures
        r == layout_spec(f),
{
    match f {
        IEEEFormat::Half => FormatLayout {
            sign_shift: 15,
            mantissa_bits: 10,
            exponent_bits: 5,
            exponent_mask: 0x1F,
            mantissa_mask: 0x3FF,
            bias: 15,
            subnormal_power: -24,
        },
        IEEEFormat::Single => FormatLayout {
            sign_shift: 31,
            mantissa_bits: 23,
            exponent_bits: 8,
            exponent_mask: 0xFF,
            mantissa_mask: 0x7F_FFFF,
            bias: 127,
            subnormal_power: -126,
        },
        IEEEFormat::Double => FormatLayout {
            sign_shift: 63,
            mantissa_bits: 52,
            exponent_bits: 11,
            exponent_mask: 0x7FF,
            mantissa_mask: 0xF_FFFF_FFFF_FFFF,
            bias: 1023,
            subnormal_power: -1022,
        },
    }
}

impl IEEEDecoder {
    /// Decodes `bits` under the active width `bit_size`: 16 as a half, 32 as
    /// a single, any other width as a double. Every pattern decodes.
    pub fn new(bits: u64, bit_size: u64) -> (r: Self)
        ensures
            r == decoded_spec(bits, bit_size),
    {
        let f = if bit_size == 16 {
            IEEEFormat::Half
        } else if bit_size == 32 {
            IEEEFormat::Single
        } else {
            IEEEFormat::Double
        };
        Self::decode_format(bits, f)
    }

    fn decode_format(bits: u64, f: IEEEFormat) -> (r: Self)
        ensures
            r == decoded_spec(
                bits,
                match f {
                    IEEEFormat::Half => 16u64,
                    IEEEFormat::Single => 32u64,
                    IEEEFormat::Double => 64u64,
                },
            ),
    {
        let l = layout(f);
        let sign = ((bits >> l.sign_shift) & 1) as u8;
        let sh = l.mantissa_bits;
        let em = l.exponent_mask;
        let mm = l.mantissa_mask;
        let e = (bits >> sh) & em;
        let m = bits & mm;
        assert(e <= em) by (bit_vector)
            requires
                e == (bits >> sh) & em,
        ;
        assert(m <= mm) by (bit_vector)
            requires
                m == bits & mm,
        ;
        let class = if e == l.exponent_mask {
            if m == 0 {
                FloatClass::Inf
            } else {
                FloatClass::NaN
            }
        } else if e == 0 {
            if m == 0 {
                FloatClass::Zero
            } else {
                FloatClass::Denormalized
            }
        } else {
            FloatClass::Normalized
        };
        let value = match class {
            FloatClass::Inf => FloatValue::Infinite { negative: sign == 1 },
            FloatClass::NaN => FloatValue::NotANumber,
            FloatClass::Zero => FloatValue::Finite { negative: false, significand: 0, power: 0 },
            FloatClass::Denormalized => FloatValue::Finite {
                negative: sign == 1,
                significand: m,
                power: l.subnormal_power,
            },
            FloatClass::Normalized => FloatValue::Finite {
                negative: sign == 1,
                significand: m + l.mantissa_mask + 1,
                power: e as i32 - l.bias - l.mantissa_bits as i32,
            },
        };
        IEEEDecoder {
            sign,
            exponent: e as i32 - l.bias,
            exponent_bits: e as i32,
            mantissa: m,
            value,
            class,
            format: f,
        }
    }

    /// The label of the classification: `+Inf`, `-Inf`, `NaN`, `Zero`,
    /// `Denormalized` or `Normalized`.
    pub fn special(&self) -> (r: &'static str)
        ensures
            r@ == special_label(self.class, self.sign),
    {
        match self.class {
            FloatClass::Inf => if self.sign == 0 {
                "+Inf"
            } else {
                "-Inf"
            },
            FloatClass::NaN => "NaN",
            FloatClass::Zero => "Zero",
            FloatClass::Denormalized => "Denormalized",
            FloatClass::Normalized => "Normalized",
        }
    }

    /// The width of the format's exponent field: 5, 8 or 11.
    pub fn exponent_bits_count(&self) -> (r: usize)
        ensures
            r == layout_spec(self.format).exponent_bits,
    {
        match self.format {
            IEEEFormat::Half => 5,
            IEEEFormat::Single => 8,
            IEEEFormat::Double => 11,
        }
    }

    /// The width of the format's mantissa field: 10, 23 or 52.
    pub fn mantissa_bits(&self) -> (r: usize)
        ensures
            r == layout_spec(self.format).mantissa_bits,
    {
        match self.format {
            IEEEFormat::Half => 10,
            IEEEFormat::Single => 23,
            IEEEFormat::Double => 52,
        }
    }
}

/// Decodes `raw` under the active `width` as an IEEE 754 value.
pub fn decode_float(raw: u64, width: u64) -> (r: IEEEDecoder)
    ensures
        r == decoded_spec(raw, width),
{
    IEEEDecoder::new(raw, width)
}

} // verus!
