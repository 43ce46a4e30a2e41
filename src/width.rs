//! Supported bit widths and radixes, and the ranges they give.
use vstd::prelude::*;

verus! {

/// The supported bit widths of a signed integer.
pub open spec fn valid_bits(bits: u32) -> bool {
    bits == 8 || bits == 16 || bits == 32 || bits == 64
}

/// The supported radixes.
pub open spec fn valid_radix(radix: u32) -> bool {
    radix == 2 || radix == 8 || radix == 10 || radix == 16
}

/// `2^bits`: how many bit patterns the width has.
pub open spec fn modulus(bits: u32) -> int {
    if bits == 8 {
        256
    } else if bits == 16 {
        65536
    } else if bits == 32 {
        4294967296
    } else {
        18446744073709551616
    }
}

/// `2^(bits - 1)`: the magnitude of the most negative value.
pub open spec fn half(bits: u32) -> int {
    if bits == 8 {
        128
    } else if bits == 16 {
        32768
    } else if bits == 32 {
        2147483648
    } else {
        9223372036854775808
    }
}

/// The smallest signed value of the width.
pub open spec fn min_value(bits: u32) -> int {
    -half(bits)
}

/// The largest signed value of the width.
pub open spec fn max_value(bits: u32) -> int {
    half(bits) - 1
}

/// Whether `v` is representable as a signed two's-complement integer of `bits` bits.
pub open spec fn in_range(v: int, bits: u32) -> bool {
    min_value(bits) <= v <= max_value(bits)
}

/// The two's-complement bit pattern of `v`, read as an unsigned number.
pub open spec fn bit_pattern(v: int, bits: u32) -> int {
    if v < 0 {
        v + modulus(bits)
    } else {
        v
    }
}

/// The signed value whose two's-complement bit pattern is `p`.
pub open spec fn from_pattern(p: int, bits: u32) -> int {
    if p >= half(bits) {
        p - modulus(bits)
    } else {
        p
    }
}

/// `2^(bits - 1)` as a machine integer.
pub fn half_of(bits: u32) -> (r: u64)
    requires
        valid_bits(bits),
    ensures
        r as int == half(bits),
{
    if bits == 8 {
        128
    } else if bits == 16 {
        32768
    } else if bits == 32 {
        2147483648
    } else {
        9223372036854775808
    }
}

/// `2^bits` as a machine integer.
pub fn modulus_of(bits: u32) -> (r: u128)
    requires
        valid_bits(bits),
    ensures
        r as int == modulus(bits),
{
    if bits == 8 {
        256
    } else if bits == 16 {
        65536
    } else if bits == 32 {
        4294967296
    } else {
        18446744073709551616
    }
}

} // verus!
