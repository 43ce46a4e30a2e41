//! Writing a signed fixed-width value in a radix.
use vstd::prelude::*;
use crate::digits::{digits_of, write_digits};
use crate::width::{valid_bits, valid_radix, in_range, bit_pattern, modulus_of};

verus! {

/// The text of `v` in `radix`. Decimal is signed; binary, octal and
/// hexadecimal show the two's-complement bit pattern of the width.
pub open spec fn format_value(v: int, radix: u32, bits: u32) -> Seq<char> {
    if radix == 10 {
        if v < 0 {
            seq!['-'] + digits_of((-v) as nat, 10)
        } else {
            digits_of(v as nat, 10)
        }
    } else {
        digits_of(bit_pattern(v, bits) as nat, radix as nat)
    }
}

/// Writes `v`, a signed value of `bits` bits, in `radix`.
pub fn format_radix(v: i64, radix: u32, bits: u32) -> (r: String)
    requires
        valid_radix(radix),
        valid_bits(bits),
        in_range(v as int, bits),
    ensures
        r@ == format_value(v as int, radix, bits),
{
    let mut out = String::new();
    if radix == 10 {
        if v < 0 {
            out.append("-");
            proof {
                reveal_strlit("-");
            }
            let magnitude = (-(v as i128)) as u64;
            write_digits(magnitude, 10, &mut out);
            assert(out@ =~= seq!['-'] + digits_of((-v) as nat, 10));
        } else {
            write_digits(v as u64, 10, &mut out);
            assert(out@ =~= digits_of(v as nat, 10));
        }
    } else {
        let pattern: u64 = if v < 0 {
            (v as i128 + modulus_of(bits) as i128) as u64
        } else {
            v as u64
        };
        write_digits(pattern, radix as u64, &mut out);
        assert(out@ =~= digits_of(bit_pattern(v as int, bits) as nat, radix as nat));
    }
    out
}

} // verus!
