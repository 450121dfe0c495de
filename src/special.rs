//! The special values offered for each float width, in a fixed order.

use vstd::prelude::*;
use crate::bits::{mask_for, mask_spec};

verus! {

/// A special value that can be loaded into the container.
#[derive(Debug, Clone, Copy, PartialEq, Eq, Structural)]
pub enum SpecialValue {
    QuietNaN,
    SignalingNaN,
    PosInf,
    NegInf,
    PosZero,
    NegZero,
    MinPos,
    MaxPos,
}

/// The pattern of `s` as a half (16), single (32) or double (64); any other
/// width has none and gives 0.
pub open spec fn pattern_spec(s: SpecialValue, width: u64) -> u64 {
    let (h, f, d): (u64, u64, u64) = match s {
        SpecialValue::QuietNaN => (0x7E00, 0x7FC0_0000, 0x7FF8_0000_0000_0000),
        SpecialValue::SignalingNaN => (0x7C01, 0x7F80_0001, 0x7FF0_0000_0000_0001),
        SpecialValue::PosInf => (0x7C00, 0x7F80_0000, 0x7FF0_0000_0000_0000),
        SpecialValue::NegInf => (0xFC00, 0xFF80_0000, 0xFFF0_0000_0000_0000),
        SpecialValue::PosZero => (0, 0, 0),
        SpecialValue::NegZero => (0x8000, 0x8000_0000, 0x8000_0000_0000_0000),
        SpecialValue::MinPos => (1, 1, 1),
        SpecialValue::MaxPos => (0x7BFF, 0x7F7F_FFFF, 0x7FEF_FFFF_FFFF_FFFF),
    };
    if width == 16 {
        h
    } else if width == 32 {
        f
    } else if width == 64 {
        d
    } else {
        0
    }
}

/// The special values in the order in which they are offered.
pub open spec fn special_order() -> Seq<SpecialValue> {
    seq![
        SpecialValue::QuietNaN,
        SpecialValue::SignalingNaN,
        SpecialValue::PosInf,
        SpecialValue::NegInf,
        SpecialValue::PosZero,
        SpecialValue::NegZero,
        SpecialValue::MinPos,
        SpecialValue::MaxPos,
    ]
}

impl SpecialValue {
    /// The label under which the value is offered.
    pub fn label(self) -> (r: &'static str)
        ensures
            r@ == (match self {
                SpecialValue::QuietNaN => "NaN (Quiet)"@,
                SpecialValue::SignalingNaN => "NaN (Signaling)"@,
                SpecialValue::PosInf => "+Inf"@,
                SpecialValue::NegInf => "-Inf"@,
                SpecialValue::PosZero => "+0"@,
                SpecialValue::NegZero => "-0"@,
                SpecialValue::MinPos => "Min Pos"@,
                SpecialValue::MaxPos => "Max Pos"@,
            }),
    {
        match self {
            SpecialValue::QuietNaN => "NaN (Quiet)",
            SpecialValue::SignalingNaN => "NaN (Signaling)",
            SpecialValue::PosInf => "+Inf",
            SpecialValue::NegInf => "-Inf",
            SpecialValue::PosZero => "+0",
            SpecialValue::NegZero => "-0",
            SpecialValue::MinPos => "Min Pos",
            SpecialValue::MaxPos => "Max Pos",
        }
    }

    /// The raw value loaded for this special value under the active `width`,
    /// masked to that width.
    pub fn bits(self, width: u64) -> (r: u64)
        ensures
            r == pattern_spec(self, width) & mask_spec(width),
    {
        let (h, f, d): (u64, u64, u64) = match self {
            SpecialValue::QuietNaN => (0x7E00, 0x7FC0_0000, 0x7FF8_0000_0000_0000),
            SpecialValue::SignalingNaN => (0x7C01, 0x7F80_0001, 0x7FF0_0000_0000_0001),
            SpecialValue::PosInf => (0x7C00, 0x7F80_0000, 0x7FF0_0000_0000_0000),
            SpecialValue::NegInf => (0xFC00, 0xFF80_0000, 0xFFF0_0000_0000_0000),
            SpecialValue::PosZero => (0, 0, 0),
            SpecialValue::NegZero => (0x8000, 0x8000_0000, 0x8000_0000_0000_0000),
            SpecialValue::MinPos => (1, 1, 1),
            SpecialValue::MaxPos => (0x7BFF, 0x7F7F_FFFF, 0x7FEF_FFFF_FFFF_FFFF),
        };
        let p = if width == 16 {
            h
        } else if width == 32 {
            f
        } else if width == 64 {
            d
        } else {
            0
        };
        p & mask_for(width)
    }
}

/// Returns every special value, in the order in which they are offered.
pub fn special_values() -> (r: Vec<SpecialValue>)
    ensures
        r@ == special_order(),
{
    let r = vec![
        SpecialValue::QuietNaN,
        SpecialValue::SignalingNaN,
        SpecialValue::PosInf,
        SpecialValue::NegInf,
        SpecialValue::PosZero,
        SpecialValue::NegZero,
        SpecialValue::MinPos,
        SpecialValue::MaxPos,
    ];
    assert(r@ =~= special_order());
    r
}

} // verus!
