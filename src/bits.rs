//! The bit container and the width-aware bit operations on a raw value.

use vstd::prelude::*;
use crate::text::push_char;

verus! {

/// The widths, in bits, that the engine treats as an active width.
pub open spec fn is_valid_width(width: u64) -> bool {
    width == 8 || width == 16 || width == 32 || width == 64
}

/// The mask that keeps the low `width` bits: 8, 16 and 32 select their
/// bytes, every other width keeps all 64 bits.
pub open spec fn mask_spec(width: u64) -> u64 {
    if width == 8 {
        0xFFu64
    } else if width == 16 {
        0xFFFFu64
    } else if width == 32 {
        0xFFFF_FFFFu64
    } else {
        0xFFFF_FFFF_FFFF_FFFFu64
    }
}

/// Returns the mask of the low `width` bits.
#[verifier::when_used_as_spec(mask_spec)]
pub fn mask_for(width: u64) -> (r: u64)
    ensures
        r == mask_spec(width),
{
    if width == 8 {
        0xFF
    } else if width == 16 {
        0xFFFF
    } else if width == 32 {
        0xFFFF_FFFF
    } else {
        u64::MAX
    }
}

/// Whether bit `pos` (0 = least significant) of `x` is set.
pub open spec fn bit_at(x: u64, pos: u64) -> bool {
    (x >> pos) & 1u64 == 1u64
}

/// The failure of an engine call whose width is not one of 8, 16, 32, 64.
#[derive(Debug, Clone, Copy, PartialEq, Eq, Structural)]
pub enum EngineError {
    InvalidWidth,
}

/// Returns `Ok(())` exactly when `width` is one of 8, 16, 32 or 64.
pub fn check_width(width: u64) -> (r: Result<(), EngineError>)
    ensures
        r is Ok <==> is_valid_width(width),
        r is Err ==> r == Err::<(), EngineError>(EngineError::InvalidWidth),
{
    if width == 8 || width == 16 || width == 32 || width == 64 {
        Ok(())
    } else {
        Err(EngineError::InvalidWidth)
    }
}

/// A mutation of a raw value under an active width.
#[derive(Debug, Clone, Copy, PartialEq, Eq, Structural)]
pub enum BitOp {
    SetBit(u8),
    ClearBit(u8),
    ToggleBit(u8),
    ShiftLeft,
    ShiftRight,
    RotateLeft,
    RotateRight,
    Not,
    Clear,
    SetAll,
}

impl BitOp {
    /// The bit positions named by the operation lie within the 64-bit container.
    pub open spec fn positions_in_range(self) -> bool {
        match self {
            BitOp::SetBit(p) => p < 64,
            BitOp::ClearBit(p) => p < 64,
            BitOp::ToggleBit(p) => p < 64,
            _ => true,
        }
    }
}

/// What `op` makes of `raw` under `width`: every result is masked to the
/// active width; the rotations move one bit around the active width.
pub open spec fn bit_op_spec(raw: u64, width: u64, op: BitOp) -> u64 {
    let m = mask_spec(width);
    match op {
        BitOp::SetBit(p) => (raw | (1u64 << p)) & m,
        BitOp::ClearBit(p) => (raw & !(1u64 << p)) & m,
        BitOp::ToggleBit(p) => (raw ^ (1u64 << p)) & m,
        BitOp::ShiftLeft => (raw << 1u64) & m,
        BitOp::ShiftRight => (raw >> 1u64) & m,
        BitOp::RotateLeft => ((raw << 1u64) | (raw >> ((width - 1) as u64))) & m,
        BitOp::RotateRight => ((raw >> 1u64) | (raw << ((width - 1) as u64))) & m,
        BitOp::Not => !raw & m,
        BitOp::Clear => 0u64,
        BitOp::SetAll => m,
    }
}

/// Applies `op` to `raw` under the active `width`.
pub fn apply_bit_op(raw: u64, width: u64, op: BitOp) -> (r: Result<u64, EngineError>)
    requires
        op.positions_in_range(),
    ensures
        is_valid_width(width) ==> r == Ok::<u64, EngineError>(bit_op_spec(raw, width, op)),
        !is_valid_width(width) ==> r == Err::<u64, EngineError>(EngineError::InvalidWidth),
{
    if let Err(e) = check_width(width) {
        return Err(e);
    }
    let m = mask_for(width);
    let v = match op {
        BitOp::SetBit(p) => (raw | (1u64 << p)) & m,
        BitOp::ClearBit(p) => (raw & !(1u64 << p)) & m,
        BitOp::ToggleBit(p) => (raw ^ (1u64 << p)) & m,
        BitOp::ShiftLeft => (raw << 1u64) & m,
        BitOp::ShiftRight => (raw >> 1u64) & m,
        BitOp::RotateLeft => ((raw << 1u64) | (raw >> (width - 1))) & m,
        BitOp::RotateRight => ((raw >> 1u64) | (raw << (width - 1))) & m,
        BitOp::Not => !raw & m,
        BitOp::Clear => 0,
        BitOp::SetAll => m,
    };
    Ok(v)
}

/// Toggling the same bit twice leaves the masked value as it was, for every
/// position inside the active width.
pub proof fn lemma_toggle_twice(raw: u64, width: u64, pos: u8)
    requires
        is_valid_width(width),
        pos < width,
    ensures
        bit_op_spec(bit_op_spec(raw, width, BitOp::ToggleBit(pos)), width, BitOp::ToggleBit(pos))
            == raw & mask_spec(width),
{
    let m = mask_spec(width);
    let b = 1u64 << pos;
    assert((((raw ^ b) & m) ^ b) & m == raw & m) by (bit_vector);
}

/// A 64-bit array of bits stored in a `u64`; bit 0 is the least significant.
#[derive(Debug, Clone, Copy, PartialEq, Eq, Structural)]
pub struct BitArray(pub u64);

/// The text of bits `hi - 1` down to 0 of `x`, with a space after each bit
/// whose position is a non-zero multiple of eight.
pub open spec fn grouped_bits(x: u64, hi: nat) -> Seq<char>
    decreases hi,
{
    if hi == 0 {
        Seq::empty()
    } else {
        let i = (hi - 1) as nat;
        let c = if bit_at(x, i as u64) { '1' } else { '0' };
        let sep = if i % 8 == 0 && i != 0 { seq![' '] } else { Seq::<char>::empty() };
        seq![c] + sep + grouped_bits(x, i)
    }
}

impl BitArray {
    /// Creates a `BitArray` with all bits cleared.
    pub fn new() -> (r: Self)
        ensures
            r.0 == 0,
    {
        BitArray(0)
    }

    /// Sets bit `pos` to 1.
    pub fn set_bit(&mut self, pos: u8)
        requires
            pos < 64,
        ensures
            final(self).0 == old(self).0 | (1u64 << pos),
    {
        self.0 = self.0 | (1u64 << pos);
    }

    /// Clears bit `pos` to 0.
    pub fn clear_bit(&mut self, pos: u8)
        requires
            pos < 64,
        ensures
            final(self).0 == old(self).0 & !(1u64 << pos),
    {
        self.0 = self.0 & !(1u64 << pos);
    }

    /// Flips bit `pos`.
    pub fn toggle_bit(&mut self, pos: u8)
        requires
            pos < 64,
        ensures
            final(self).0 == old(self).0 ^ (1u64 << pos),
    {
        self.0 = self.0 ^ (1u64 << pos);
    }

    /// Returns whether bit `pos` is 1.
    pub fn get_bit(&self, pos: u8) -> (r: bool)
        requires
            pos < 64,
        ensures
            r == bit_at(self.0, pos as u64),
    {
        (self.0 >> pos) & 1 == 1
    }

    /// Returns the 64 bits in order, index 0 being the least significant.
    pub fn get_all_bits(&self) -> (r: Vec<bool>)
        ensures
            r@.len() == 64,
            forall|i: int| 0 <= i < 64 ==> #[trigger] r@[i] == bit_at(self.0, i as u64),
    {
        let mut out: Vec<bool> = Vec::new();
        let mut i: u8 = 0;
        while i < 64
            invariant
                i <= 64,
                out@.len() == i,
                forall|j: int| 0 <= j < i ==> #[trigger] out@[j] == bit_at(self.0, j as u64),
            decreases 64 - i,
        {
            out.push(self.get_bit(i));
            i = i + 1;
        }
        out
    }

    /// Returns the raw value.
    pub fn get_raw(&self) -> (r: u64)
        ensures
            r == self.0,
    {
        self.0
    }

    /// Renders the 64 bits most significant first, with a space between bytes.
    pub fn to_string(&self) -> (r: String)
        ensures
            r@ == grouped_bits(self.0, 64),
    {
        let mut out = String::new();
        let mut hi: u8 = 64;
        while hi > 0
            invariant
                hi <= 64,
                out@ + grouped_bits(self.0, hi as nat) == grouped_bits(self.0, 64),
            decreases hi,
        {
            let i: u8 = hi - 1;
            let c = if self.get_bit(i) { '1' } else { '0' };
            let ghost before = out@;
            push_char(&mut out, c);
            if i % 8 == 0 && i != 0 {
                push_char(&mut out, ' ');
            }
            assert(out@ + grouped_bits(self.0, i as nat) =~= before + grouped_bits(self.0, hi as nat));
            hi = i;
        }
        assert(out@ + grouped_bits(self.0, 0) =~= out@);
        out
    }
}

} // verus!
