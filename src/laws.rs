//! Properties of the conversion, proved over its specification.
use vstd::prelude::*;
use crate::digits::{digit_char, digit_value, digits_of, lemma_digit_round_trip};
use crate::format::format_value;
use crate::num::{convert_value, display_value};
use crate::parse::{ParseError, limit, parse_value, scan, sign_len, lemma_parse_in_range};
use crate::text::{is_ws, trimmed};
use crate::width::{
    valid_bits, valid_radix, in_range, half, modulus, bit_pattern, from_pattern,
};

verus! {

proof fn lemma_scan_digits(n: nat, radix: nat, lim: nat, overflow: ParseError)
    requires
        2 <= radix <= 16,
        n <= lim,
    ensures
        scan(digits_of(n, radix), radix, lim, overflow) == Ok::<nat, ParseError>(n),
    decreases n,
{
    let d = digits_of(n, radix);
    if n < radix {
        assert(d.drop_last() =~= Seq::<char>::empty());
        assert(d.last() == digit_char(n));
        lemma_digit_round_trip(n);
        assert(0 * radix + n == n);
        assert(scan(d.drop_last(), radix, lim, overflow) == Ok::<nat, ParseError>(0));
        assert(digit_value(d.last()) == n);
    } else {
        let q = n / radix;
        let m = n % radix;
        assert(q < n && q * radix + m == n && m < radix) by (nonlinear_arith)
            requires
                radix >= 2,
                n >= radix,
                q == n / radix,
                m == n % radix,
        ;
        lemma_scan_digits(q, radix, lim, overflow);
        assert(d.drop_last() =~= digits_of(q, radix));
        assert(d.last() == digit_char(m));
        lemma_digit_round_trip(m);
        assert(scan(d.drop_last(), radix, lim, overflow) == Ok::<nat, ParseError>(q));
        assert(digit_value(d.last()) == m);
    }
}

proof fn lemma_digits_unsigned(n: nat, radix: nat)
    ensures
        digits_of(n, radix).len() >= 1,
        digits_of(n, radix)[0] != '-',
        digits_of(n, radix)[0] != '+',
    decreases n,
{
    if !(radix < 2 || n < radix) {
        assert(n / radix < n) by (nonlinear_arith)
            requires
                radix >= 2,
                n >= radix,
        ;
        lemma_digits_unsigned(n / radix, radix);
    }
}

/// Writing a value and reading the text back, in the same radix and width,
/// gives the value again; this holds for the bit patterns of binary, octal and
/// hexadecimal as well as for signed decimal.
pub proof fn lemma_format_parse_round_trip(v: int, radix: u32, bits: u32)
    requires
        valid_radix(radix),
        valid_bits(bits),
        in_range(v, bits),
    ensures
        parse_value(format_value(v, radix, bits), radix, bits) == Ok::<int, ParseError>(v),
{
    let s = format_value(v, radix, bits);
    if radix == 10 && v < 0 {
        let d = digits_of((-v) as nat, 10);
        lemma_digits_unsigned((-v) as nat, 10);
        lemma_scan_digits((-v) as nat, 10, limit(radix, bits, true), ParseError::NegOverflow);
        assert(s[0] == '-');
        assert(s.subrange(sign_len(s), s.len() as int) =~= d);
    } else {
        let n: nat = if radix == 10 {
            v as nat
        } else {
            bit_pattern(v, bits) as nat
        };
        lemma_digits_unsigned(n, radix as nat);
        lemma_scan_digits(n, radix as nat, limit(radix, bits, false), ParseError::PosOverflow);
        assert(s.subrange(sign_len(s), s.len() as int) =~= s);
        assert(from_pattern(n as int, bits) == v);
    }
}

/// A successful conversion gives a text that reads back, in the output radix
/// and at the same width, as the value that was read from the input; in
/// particular its decimal text reads back in decimal as the same integer.
pub proof fn lemma_convert_round_trip(s: Seq<char>, in_radix: u32, out_radix: u32, bits: u32)
    requires
        valid_radix(in_radix),
        valid_radix(out_radix),
        valid_bits(bits),
    ensures
        parse_value(trimmed(s), in_radix, bits) matches Ok(v) ==> {
            &&& convert_value(s, in_radix, out_radix, bits) == Ok::<Seq<char>, ParseError>(
                format_value(v, out_radix, bits),
            )
            &&& parse_value(format_value(v, out_radix, bits), out_radix, bits) == Ok::<
                int,
                ParseError,
            >(v)
        },
{
    lemma_parse_in_range(trimmed(s), in_radix, bits);
    if let Ok(v) = parse_value(trimmed(s), in_radix, bits) {
        lemma_format_parse_round_trip(v, out_radix, bits);
    }
}

proof fn lemma_trim_blank(s: Seq<char>)
    requires
        forall|i: int| 0 <= i < s.len() ==> is_ws(#[trigger] s[i]),
    ensures
        trimmed(s).len() == 0,
    decreases s.len(),
{
    if s.len() > 0 {
        assert(is_ws(s[0]));
        let t = s.drop_first();
        assert forall|i: int| 0 <= i < t.len() implies is_ws(#[trigger] t[i]) by {
            assert(t[i] == s[i + 1]);
        }
        lemma_trim_blank(t);
    }
}

/// Empty or whitespace-only text converts to the empty text, whatever the
/// radixes and the width.
pub proof fn lemma_blank_gives_empty(s: Seq<char>, in_radix: u32, out_radix: u32, bits: u32)
    requires
        forall|i: int| 0 <= i < s.len() ==> is_ws(#[trigger] s[i]),
    ensures
        convert_value(s, in_radix, out_radix, bits) == Ok::<Seq<char>, ParseError>(
            Seq::empty(),
        ),
        display_value(s, in_radix, out_radix, bits) == Seq::<char>::empty(),
{
    lemma_trim_blank(s);
}

/// Every value read at a width lies in that width's signed range: the range is
/// checked anew for each width.
pub proof fn lemma_parse_fits_width(s: Seq<char>, radix: u32, bits: u32)
    requires
        valid_radix(radix),
        valid_bits(bits),
    ensures
        parse_value(s, radix, bits) matches Ok(v) ==> in_range(v, bits),
{
    lemma_parse_in_range(s, radix, bits);
}

proof fn lemma_scan_wider(d: Seq<char>, radix: nat, lim: nat, wide: nat, overflow: ParseError)
    requires
        lim <= wide,
        scan(d, radix, lim, overflow) is Ok,
    ensures
        scan(d, radix, wide, overflow) == scan(d, radix, lim, overflow),
    decreases d.len(),
{
    if d.len() > 0 {
        lemma_scan_wider(d.drop_last(), radix, lim, wide, overflow);
    }
}

/// A decimal text that reads at a width reads as the same value at every wider
/// width.
pub proof fn lemma_decimal_widening(s: Seq<char>, narrow: u32, wide: u32)
    requires
        valid_bits(narrow),
        valid_bits(wide),
        narrow <= wide,
    ensures
        parse_value(s, 10, narrow) matches Ok(v) ==> parse_value(s, 10, wide) == Ok::<
            int,
            ParseError,
        >(v),
{
    if s.len() > 0 && parse_value(s, 10, narrow) is Ok {
        let neg = s[0] == '-';
        let digits = s.subrange(sign_len(s), s.len() as int);
        let overflow = if neg {
            ParseError::NegOverflow
        } else {
            ParseError::PosOverflow
        };
        if digits.len() > 0 {
            lemma_scan_wider(
                digits,
                10,
                limit(10, narrow, neg),
                limit(10, wide, neg),
                overflow,
            );
        }
    }
}

} // verus!
