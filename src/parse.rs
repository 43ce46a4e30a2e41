//! Reading a signed integer literal in a radix, at a bit width.
use vstd::prelude::*;
use crate::digits::{digit_value, digit_value_of};
use crate::width::{
    valid_bits, valid_radix, modulus, half, in_range, from_pattern, half_of, modulus_of,
};

verus! {

/// Why a text is not a number of the requested radix and width.
#[derive(Clone, Copy, Debug, PartialEq, Eq, Structural)]
pub enum ParseError {
    /// There was no text at all.
    Empty,
    /// A character is not a digit of the radix, or a sign stands alone.
    InvalidDigit,
    /// The value is above what the width holds.
    PosOverflow,
    /// The value is below what the width holds.
    NegOverflow,
}

/// The message shown for `e`.
pub open spec fn error_text(e: ParseError) -> Seq<char> {
    match e {
        ParseError::Empty => "cannot parse integer from empty string"@,
        ParseError::InvalidDigit => "invalid digit found in string"@,
        ParseError::PosOverflow => "number too large to fit in target type"@,
        ParseError::NegOverflow => "number too small to fit in target type"@,
    }
}

impl ParseError {
    /// A human-readable description of the error.
    pub fn message(&self) -> (r: String)
        ensures
            r@ == error_text(*self),
    {
        match self {
            ParseError::Empty => String::from_str("cannot parse integer from empty string"),
            ParseError::InvalidDigit => String::from_str("invalid digit found in string"),
            ParseError::PosOverflow => String::from_str("number too large to fit in target type"),
            ParseError::NegOverflow => String::from_str("number too small to fit in target type"),
        }
    }
}

/// The largest magnitude accepted. A negative literal reaches down to the
/// smallest signed value. A positive one reaches the largest signed value in
/// decimal; in the other radixes it may be any bit pattern of the width.
pub open spec fn limit(radix: u32, bits: u32, neg: bool) -> nat {
    if neg {
        half(bits) as nat
    } else if radix == 10 {
        (half(bits) - 1) as nat
    } else {
        (modulus(bits) - 1) as nat
    }
}

/// Reads `d` left to right as digits of `radix`, and stops at the first digit
/// that is not one of the radix or that takes the value above `limit`.
pub open spec fn scan(d: Seq<char>, radix: nat, limit: nat, overflow: ParseError) -> Result<
    nat,
    ParseError,
>
    decreases d.len(),
{
    if d.len() == 0 {
        Ok(0)
    } else {
        match scan(d.drop_last(), radix, limit, overflow) {
            Err(e) => Err(e),
            Ok(m) => {
                let v = digit_value(d.last());
                if v >= radix {
                    Err(ParseError::InvalidDigit)
                } else if m * radix + v > limit {
                    Err(overflow)
                } else {
                    Ok(m * radix + v)
                }
            },
        }
    }
}

/// The number of sign characters in front of the digits (at most one).
pub open spec fn sign_len(s: Seq<char>) -> int {
    if s.len() > 0 && (s[0] == '-' || s[0] == '+') {
        1
    } else {
        0
    }
}

/// The value of the literal `s`: an optional `+` or `-`, then digits of `radix`.
pub open spec fn parse_value(s: Seq<char>, radix: u32, bits: u32) -> Result<int, ParseError> {
    if s.len() == 0 {
        Err(ParseError::Empty)
    } else {
        let neg = s[0] == '-';
        let digits = s.subrange(sign_len(s), s.len() as int);
        let overflow = if neg {
            ParseError::NegOverflow
        } else {
            ParseError::PosOverflow
        };
        if digits.len() == 0 {
            Err(ParseError::InvalidDigit)
        } else {
            match scan(digits, radix as nat, limit(radix, bits, neg), overflow) {
                Err(e) => Err(e),
                Ok(m) => Ok(
                    if neg {
                        -m
                    } else {
                        from_pattern(m as int, bits)
                    },
                ),
            }
        }
    }
}

proof fn lemma_scan_bounded(d: Seq<char>, radix: nat, limit: nat, overflow: ParseError)
    ensures
        scan(d, radix, limit, overflow) matches Ok(m) ==> m <= limit,
    decreases d.len(),
{
    if d.len() > 0 {
        lemma_scan_bounded(d.drop_last(), radix, limit, overflow);
    }
}

/// Once the scan of a prefix fails, the scan of the whole fails the same way.
proof fn lemma_scan_prefix_err(
    d: Seq<char>,
    k: int,
    radix: nat,
    limit: nat,
    overflow: ParseError,
)
    requires
        0 <= k <= d.len(),
        scan(d.subrange(0, k), radix, limit, overflow) is Err,
    ensures
        scan(d, radix, limit, overflow) == scan(d.subrange(0, k), radix, limit, overflow),
    decreases d.len(),
{
    if k == d.len() {
        assert(d.subrange(0, k) =~= d);
    } else {
        assert(d.drop_last().subrange(0, k) =~= d.subrange(0, k));
        lemma_scan_prefix_err(d.drop_last(), k, radix, limit, overflow);
    }
}

/// Every value that `parse_value` gives fits the width.
pub(crate) proof fn lemma_parse_in_range(s: Seq<char>, radix: u32, bits: u32)
    requires
        valid_radix(radix),
        valid_bits(bits),
    ensures
        parse_value(s, radix, bits) matches Ok(v) ==> in_range(v, bits),
{
    if s.len() > 0 {
        let neg = s[0] == '-';
        let digits = s.subrange(sign_len(s), s.len() as int);
        let overflow = if neg {
            ParseError::NegOverflow
        } else {
            ParseError::PosOverflow
        };
        lemma_scan_bounded(digits, radix as nat, limit(radix, bits, neg), overflow);
    }
}

/// Parses `text` (no surrounding whitespace allowed) as a signed integer of
/// `bits` bits written in `radix`.
pub fn parse_signed(text: &str, radix: u32, bits: u32) -> (r: Result<i64, ParseError>)
    requires
        valid_radix(radix),
        valid_bits(bits),
    ensures
        r is Ok <==> parse_value(text@, radix, bits) is Ok,
        r matches Ok(v) ==> parse_value(text@, radix, bits) == Ok::<int, ParseError>(v as int),
        r matches Err(e) ==> parse_value(text@, radix, bits) == Err::<int, ParseError>(e),
        r matches Ok(v) ==> in_range(v as int, bits),
{
    proof {
        lemma_parse_in_range(text@, radix, bits);
    }
    let n = text.unicode_len();
    if n == 0 {
        return Err(ParseError::Empty);
    }
    let first = text.get_char(0);
    let neg = first == '-';
    let start: usize = if first == '-' || first == '+' {
        1
    } else {
        0
    };
    if start == n {
        return Err(ParseError::InvalidDigit);
    }
    let overflow = if neg {
        ParseError::NegOverflow
    } else {
        ParseError::PosOverflow
    };
    let half_value = half_of(bits);
    let lim: u64 = if neg {
        half_value
    } else if radix == 10 {
        half_value - 1
    } else {
        (modulus_of(bits) - 1) as u64
    };
    let ghost digits = text@.subrange(start as int, n as int);
    let ghost lim_spec = limit(radix, bits, neg);
    assert(lim as nat == lim_spec);
    let mut m: u64 = 0;
    let mut i: usize = start;
    assert(text@.subrange(start as int, start as int) =~= Seq::<char>::empty());
    while i < n
        invariant
            n == text@.len(),
            start <= i <= n,
            start == sign_len(text@),
            start < n,
            neg == (text@[0] == '-'),
            overflow == (if neg {
                ParseError::NegOverflow
            } else {
                ParseError::PosOverflow
            }),
            lim_spec == limit(radix, bits, neg),
            valid_bits(bits),
            half_value as int == half(bits),
            digits == text@.subrange(start as int, n as int),
            valid_radix(radix),
            lim as nat == lim_spec,
            m <= lim,
            scan(text@.subrange(start as int, i as int), radix as nat, lim_spec, overflow) == Ok::<
                nat,
                ParseError,
            >(m as nat),
        decreases n - i,
    {
        let c = text.get_char(i);
        let d = digit_value_of(c);
        let ghost pre = text@.subrange(start as int, i as int);
        let ghost cur = text@.subrange(start as int, i + 1);
        assert(cur.drop_last() =~= pre);
        assert(cur.last() == c);
        assert(digits.subrange(0, i + 1 - start) =~= cur);
        assert(scan(pre, radix as nat, lim_spec, overflow) == Ok::<nat, ParseError>(m as nat));
        if d >= radix {
            assert(scan(cur, radix as nat, lim_spec, overflow) == Err::<nat, ParseError>(
                ParseError::InvalidDigit,
            ));
            proof {
                lemma_scan_prefix_err(digits, i + 1 - start, radix as nat, lim_spec, overflow);
            }
            return Err(ParseError::InvalidDigit);
        }
        assert((m as u128) * (radix as u128) <= 18446744073709551615u128 * 16) by (nonlinear_arith)
            requires
                m <= 18446744073709551615u64,
                radix <= 16,
        ;
        let next: u128 = (m as u128) * (radix as u128) + (d as u128);
        assert(next as int == m as int * radix as int + d as int);
        if next > lim as u128 {
            assert(scan(cur, radix as nat, lim_spec, overflow) == Err::<nat, ParseError>(overflow));
            proof {
                lemma_scan_prefix_err(digits, i + 1 - start, radix as nat, lim_spec, overflow);
            }
            return Err(overflow);
        }
        m = next as u64;
        i = i + 1;
    }
    assert(text@.subrange(start as int, n as int) == digits);
    let v: i128 = if neg {
        -(m as i128)
    } else if m >= half_value {
        m as i128 - modulus_of(bits) as i128
    } else {
        m as i128
    };
    Ok(v as i64)
}

} // verus!
