//! A numeric-interpretation engine for fixed-width bit patterns: bit
//! manipulation under an active-width mask, textual codecs in several bases,
//! IEEE 754 half/single/double decoding and a plot placement derived from it.

pub mod bits;
mod text;
pub mod digits;
pub mod bytes;
pub mod codec;
pub mod ieee754;
pub mod plot;
pub mod special;
pub mod float_input;
