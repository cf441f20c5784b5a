use vstd::prelude::*;

verus! {

/// The exponent field of a binary16 value: all ones marks infinities and NaNs.
pub const F16_EXP_MASK: u16 = 0x7c00;

/// Bit pattern of the default quiet NaN that `0.0 / 0.0` produces in binary16
/// on x86-64: sign set, exponent all ones, quiet bit set, zero payload.
pub const F16_DEFAULT_NAN: u16 = 0xfe00;

/// Returns the quiet NaN that the invalid operation `0.0 / 0.0` gives in
/// binary16 on x86-64. The pattern is a constant: no floating-point
/// operation is performed, so no exception flag is raised.
pub fn snanf16() -> (r: u16)
    ensures
        r & 0x7c00 == 0x7c00,
        r & 0x03ff != 0,
        r & 0x0200 != 0,
        r & 0x01ff == 0,
        r == F16_DEFAULT_NAN,
{
    let r: u16 = F16_DEFAULT_NAN;
    assert(r & 0x7c00 == 0x7c00 && r & 0x03ff != 0 && r & 0x0200 != 0 && r & 0x01ff == 0) by (bit_vector)
        requires r == 0xfe00u16;
    r
}


/// The quiet NaN that an arithmetic operation on the NaN `x` returns: the
/// same sign and payload, with the quiet bit set (`x + x` in binary16).
pub fn quiet_nan16(x: u16) -> (r: u16)
    requires
        x % 0x8000 > 0x7c00,
    ensures
        r % 0x8000 == 0x7e00 + x % 0x200,
        (r >= 0x8000) == (x >= 0x8000),
{
    let r = x | 0x0200;
    assert(r % 0x8000 == 0x7e00 + x % 0x200 && ((r >= 0x8000) == (x >= 0x8000))) by (bit_vector)
        requires r == x | 0x0200, x % 0x8000 > 0x7c00;
    r
}

} // verus!
