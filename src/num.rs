//! Converting the text typed by the user from one radix to another.
use vstd::prelude::*;
use crate::format::{format_value, format_radix};
use crate::parse::{ParseError, parse_value, parse_signed, error_text};
use crate::text::{trimmed, trim};
use crate::width::{valid_bits, valid_radix};

verus! {

/// The result of converting `s` from `in_radix` to `out_radix` at `bits` bits:
/// blank text gives the empty text; otherwise the trimmed text is parsed and
/// its value written in `out_radix`.
pub open spec fn convert_value(s: Seq<char>, in_radix: u32, out_radix: u32, bits: u32) -> Result<
    Seq<char>,
    ParseError,
> {
    let t = trimmed(s);
    if t.len() == 0 {
        Ok(Seq::empty())
    } else {
        match parse_value(t, in_radix, bits) {
            Ok(v) => Ok(format_value(v, out_radix, bits)),
            Err(e) => Err(e),
        }
    }
}

/// What is displayed for the conversion: the converted text, or the message of
/// the error.
pub open spec fn display_value(s: Seq<char>, in_radix: u32, out_radix: u32, bits: u32) -> Seq<
    char,
> {
    match convert_value(s, in_radix, out_radix, bits) {
        Ok(o) => o,
        Err(e) => error_text(e),
    }
}

/// Parses `text` as it stands (no trimming) and writes the value in `out_base`.
pub fn do_process(text: &str, in_base: u32, out_base: u32, size: u32) -> (r: Result<
    String,
    ParseError,
>)
    requires
        valid_radix(in_base),
        valid_radix(out_base),
        valid_bits(size),
    ensures
        r is Ok <==> parse_value(text@, in_base, size) is Ok,
        r matches Ok(o) ==> parse_value(text@, in_base, size) matches Ok(v) && o@ == format_value(
            v,
            out_base,
            size,
        ),
        r matches Err(e) ==> parse_value(text@, in_base, size) == Err::<int, ParseError>(e),
{
    match parse_signed(text, in_base, size) {
        Ok(v) => Ok(format_radix(v, out_base, size)),
        Err(e) => Err(e),
    }
}

/// Converts `inp` from `in_base` to `out_base` at `size` bits, telling a
/// result from an error.
pub fn convert(inp: &str, in_base: u32, out_base: u32, size: u32) -> (r: Result<
    String,
    ParseError,
>)
    requires
        valid_radix(in_base),
        valid_radix(out_base),
        valid_bits(size),
    ensures
        r is Ok <==> convert_value(inp@, in_base, out_base, size) is Ok,
        r matches Ok(o) ==> convert_value(inp@, in_base, out_base, size) == Ok::<
            Seq<char>,
            ParseError,
        >(o@),
        r matches Err(e) ==> convert_value(inp@, in_base, out_base, size) == Err::<
            Seq<char>,
            ParseError,
        >(e),
{
    let t = trim(inp);
    if t.unicode_len() == 0 {
        return Ok(String::new());
    }
    do_process(t, in_base, out_base, size)
}

/// Converts `inp` from `in_base` to `out_base` at `size` bits, and gives the
/// text to display: the converted value, the empty text for blank input, or
/// the message of the error.
pub fn process(inp: &str, in_base: u32, out_base: u32, size: u32) -> (r: String)
    requires
        valid_radix(in_base),
        valid_radix(out_base),
        valid_bits(size),
    ensures
        r@ == display_value(inp@, in_base, out_base, size),
{
    match convert(inp, in_base, out_base, size) {
        Ok(o) => o,
        Err(e) => e.message(),
    }
}

} // verus!
