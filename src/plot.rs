//! The placement of a decoded value on the distribution axis, which runs
//! from negative infinity (0) through zero (50) to positive infinity (100).

use vstd::prelude::*;
use crate::ieee754::{FloatClass, FloatValue, IEEEDecoder, decode_float, decoded_spec, layout, layout_spec};

verus! {

/// Where a decoded value goes on the axis.
#[derive(Debug, Clone, Copy, PartialEq, Eq, Structural)]
pub enum PlotPlacement {
    /// A fixed point, in percent: 0 for negative infinity, 50 for zero and
    /// NaN alike, 100 for positive infinity.
    Fixed { percent: u8 },
    /// A subnormal `significand * 2^power`, placed by its ratio to the
    /// smallest normal magnitude `2^min_normal_power`: at `30 * ratio` when
    /// negative, at `70 + 30 * ratio` when positive.
    Subnormal { negative: bool, significand: u64, power: i32, min_normal_power: i32 },
    /// A normal `significand * 2^power`, placed by the base-2 logarithm of
    /// its magnitude clamped to `[min_exponent, max_exponent]` and scaled to
    /// `n` in `[20, 80]`: at `40 - n` when negative, at `60 + n` when positive.
    Normal { negative: bool, significand: u64, power: i32, min_exponent: i32, max_exponent: i32 },
}

/// The placement of a decoding: the classification picks the zone, the
/// format gives the zone's bounds.
pub open spec fn placement_spec(d: IEEEDecoder) -> PlotPlacement {
    let bias = layout_spec(d.format).bias;
    match d.class {
        FloatClass::NaN => PlotPlacement::Fixed { percent: 50 },
        FloatClass::Zero => PlotPlacement::Fixed { percent: 50 },
        FloatClass::Inf => PlotPlacement::Fixed { percent: if d.sign == 0 { 100 } else { 0 } },
        FloatClass::Denormalized => match d.value {
            FloatValue::Finite { negative, significand, power } => PlotPlacement::Subnormal {
                negative,
                significand,
                power,
                min_normal_power: (1 - bias) as i32,
            },
            _ => PlotPlacement::Fixed { percent: 50 },
        },
        FloatClass::Normalized => match d.value {
            FloatValue::Finite { negative, significand, power } => PlotPlacement::Normal {
                negative,
                significand,
                power,
                min_exponent: (1 - bias) as i32,
                max_exponent: bias,
            },
            _ => PlotPlacement::Fixed { percent: 50 },
        },
    }
}

/// Places `bits`, decoded under the active width `bit_size`, on the axis.
pub fn plot_placement(bits: u64, bit_size: u64) -> (r: PlotPlacement)
    ensures
        r == placement_spec(decoded_spec(bits, bit_size)),
{
    let d = decode_float(bits, bit_size);
    let bias = layout(d.format).bias;
    match d.class {
        FloatClass::NaN => PlotPlacement::Fixed { percent: 50 },
        FloatClass::Zero => PlotPlacement::Fixed { percent: 50 },
        FloatClass::Inf => PlotPlacement::Fixed { percent: if d.sign == 0 { 100 } else { 0 } },
        FloatClass::Denormalized => match d.value {
            FloatValue::Finite { negative, significand, power } => PlotPlacement::Subnormal {
                negative,
                significand,
                power,
                min_normal_power: 1 - bias,
            },
            _ => PlotPlacement::Fixed { percent: 50 },
        },
        FloatClass::Normalized => match d.value {
            FloatValue::Finite { negative, significand, power } => PlotPlacement::Normal {
                negative,
                significand,
                power,
                min_exponent: 1 - bias,
                max_exponent: bias,
            },
            _ => PlotPlacement::Fixed { percent: 50 },
        },
    }
}

} // verus!
