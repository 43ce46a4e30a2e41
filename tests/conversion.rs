use numconv::format::format_radix;
use numconv::num::{convert, do_process, process};
use numconv::parse::{parse_signed, ParseError};
use numconv::text::{is_whitespace, trim};

const RADIXES: [u32; 4] = [2, 8, 10, 16];
const WIDTHS: [u32; 4] = [8, 16, 32, 64];

#[test]
fn blank_input_gives_empty_result() {
    for &inp in &["", " ", "   ", "\t\n", "\u{3000}\u{a0}"] {
        for &rin in &RADIXES {
            for &rout in &RADIXES {
                for &bits in &WIDTHS {
                    assert_eq!(process(inp, rin, rout, bits), "");
                    assert_eq!(convert(inp, rin, rout, bits), Ok(String::new()));
                }
            }
        }
    }
}

#[test]
fn decimal_bounds_at_eight_bits() {
    assert_eq!(convert("128", 10, 10, 8), Err(ParseError::PosOverflow));
    assert_eq!(convert("127", 10, 10, 8), Ok("127".to_string()));
    assert_eq!(convert("-128", 10, 10, 8), Ok("-128".to_string()));
    assert_eq!(convert("-129", 10, 10, 8), Err(ParseError::NegOverflow));
    assert_eq!(process("128", 10, 10, 8), "number too large to fit in target type");
    assert_eq!(process("-129", 10, 10, 8), "number too small to fit in target type");
}

#[test]
fn hex_ff_is_minus_one_at_eight_bits() {
    assert_eq!(process("FF", 16, 10, 8), "-1");
    assert_eq!(process("FF", 16, 16, 8), "FF");
    assert_eq!(process("ff", 16, 2, 8), "11111111");
    assert_eq!(process("FF", 16, 8, 8), "377");
    assert_eq!(process("FF", 16, 10, 16), "255");
}

#[test]
fn binary_ten_is_two() {
    assert_eq!(process("10", 2, 10, 8), "2");
}

#[test]
fn g_is_not_a_hex_digit() {
    for &bits in &WIDTHS {
        assert_eq!(convert("g", 16, 10, bits), Err(ParseError::InvalidDigit));
        assert_eq!(process("g", 16, 10, bits), "invalid digit found in string");
    }
}

#[test]
fn range_is_checked_per_width() {
    assert_eq!(process("2147483647", 10, 10, 32), "2147483647");
    assert_eq!(process("2147483647", 10, 10, 64), "2147483647");
    assert_eq!(convert("2147483647", 10, 10, 8), Err(ParseError::PosOverflow));
    assert_eq!(convert("2147483647", 10, 10, 16), Err(ParseError::PosOverflow));
    assert_eq!(convert("2147483648", 10, 10, 32), Err(ParseError::PosOverflow));
}

#[test]
fn repeated_calls_agree() {
    let inp = String::from(" -42 ");
    let first = process(&inp, 10, 16, 32);
    let second = process(&inp, 10, 16, 32);
    assert_eq!(first, second);
    assert_eq!(first, "FFFFFFD6");
    assert_eq!(inp, " -42 ");
}

#[test]
fn decimal_output_reads_back() {
    for &rin in &RADIXES {
        for &bits in &WIDTHS {
            let dec = process("11", rin, 10, bits);
            let v = parse_signed(&dec, 10, bits).unwrap();
            assert_eq!(parse_signed("11", rin, bits), Ok(v));
        }
    }
    let hex = process("-42", 10, 16, 32);
    assert_eq!(parse_signed(&hex, 16, 32), Ok(-42));
    assert_eq!(process(&hex, 16, 10, 32), "-42");
}

#[test]
fn sign_handling() {
    assert_eq!(process("+5", 10, 10, 8), "5");
    assert_eq!(convert("+", 10, 10, 8), Err(ParseError::InvalidDigit));
    assert_eq!(convert("-", 16, 10, 8), Err(ParseError::InvalidDigit));
    assert_eq!(convert("--1", 10, 10, 8), Err(ParseError::InvalidDigit));
    assert_eq!(convert("+-1", 10, 10, 8), Err(ParseError::InvalidDigit));
    assert_eq!(process("-1", 10, 16, 8), "FF");
    assert_eq!(process("-1", 10, 2, 16), "1111111111111111");
    assert_eq!(process("-80", 16, 10, 8), "-128");
    assert_eq!(convert("-81", 16, 10, 8), Err(ParseError::NegOverflow));
    assert_eq!(convert("100", 16, 10, 8), Err(ParseError::PosOverflow));
}

#[test]
fn sixty_four_bit_extremes() {
    assert_eq!(process("-9223372036854775808", 10, 16, 64), "8000000000000000");
    assert_eq!(process("9223372036854775807", 10, 16, 64), "7FFFFFFFFFFFFFFF");
    assert_eq!(process("FFFFFFFFFFFFFFFF", 16, 10, 64), "-1");
    assert_eq!(convert("10000000000000000", 16, 10, 64), Err(ParseError::PosOverflow));
    assert_eq!(convert("9223372036854775808", 10, 10, 64), Err(ParseError::PosOverflow));
    assert_eq!(
        process("-9223372036854775808", 10, 8, 64),
        "1000000000000000000000"
    );
}

#[test]
fn first_failure_decides_the_error() {
    assert_eq!(convert("9g99", 10, 10, 8), Err(ParseError::InvalidDigit));
    assert_eq!(convert("999g", 10, 10, 8), Err(ParseError::PosOverflow));
    assert_eq!(convert("-999g", 10, 10, 8), Err(ParseError::NegOverflow));
    assert_eq!(convert("12", 2, 10, 8), Err(ParseError::InvalidDigit));
    assert_eq!(convert("8", 8, 10, 8), Err(ParseError::InvalidDigit));
    assert_eq!(convert("1 2", 10, 10, 8), Err(ParseError::InvalidDigit));
}

#[test]
fn formatting_has_no_prefix_or_padding() {
    assert_eq!(process("0", 10, 2, 32), "0");
    assert_eq!(process("007", 10, 10, 8), "7");
    assert_eq!(process("255", 10, 16, 16), "FF");
    assert_eq!(process("8", 10, 8, 8), "10");
    assert_eq!(process("  12 \t", 10, 10, 8), "12");
    assert_eq!(process("\u{3000}5\u{a0}", 10, 10, 8), "5");
}

#[test]
fn parse_and_format_directly() {
    assert_eq!(parse_signed("", 10, 8), Err(ParseError::Empty));
    assert_eq!(parse_signed(" 1", 10, 8), Err(ParseError::InvalidDigit));
    assert_eq!(parse_signed("7f", 16, 8), Ok(127));
    assert_eq!(parse_signed("80", 16, 8), Ok(-128));
    assert_eq!(format_radix(-128, 16, 8), "80");
    assert_eq!(format_radix(-128, 10, 8), "-128");
    assert_eq!(format_radix(-2, 8, 16), "177776");
    assert_eq!(format_radix(5, 2, 64), "101");
    assert_eq!(do_process("-3", 10, 16, 8), Ok("FD".to_string()));
    assert_eq!(do_process(" 3", 10, 16, 8), Err(ParseError::InvalidDigit));
}

#[test]
fn error_messages() {
    assert_eq!(ParseError::Empty.message(), "cannot parse integer from empty string");
    assert_eq!(ParseError::InvalidDigit.message(), "invalid digit found in string");
    assert_eq!(ParseError::PosOverflow.message(), "number too large to fit in target type");
    assert_eq!(ParseError::NegOverflow.message(), "number too small to fit in target type");
}

#[test]
fn trimming() {
    assert_eq!(trim("  a b \n"), "a b");
    assert_eq!(trim("\t\t"), "");
    assert_eq!(trim("x"), "x");
    assert!(is_whitespace('\u{2028}'));
    assert!(!is_whitespace('_'));
}
