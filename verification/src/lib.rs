//! Correctly rounded elementary functions on IEEE 754 binary16 values.
//!
//! Half-precision and single-precision values are handled as their bit
//! patterns (`u16` and `u32`).  The library decides, from those bits, every
//! special case of each function (NaN, infinities, out-of-domain inputs,
//! values whose result is known exactly, and the tabulated hard cases), and
//! it converts between the two formats with exact, proved rounding.
pub mod acos;
pub mod asin;
pub mod acosh;
pub mod atan;
pub mod cbrt;
pub mod convert;
pub mod encoding;
pub mod utils;
