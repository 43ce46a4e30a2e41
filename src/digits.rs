//! Digits of a radix: reading them and writing them.
use vstd::prelude::*;

verus! {

/// The value of a digit character, as `char::to_digit` reads it for radix 36:
/// `0`-`9`, then `a`-`z` or `A`-`Z` for 10 to 35. Any other character gets 36,
/// which no supported radix accepts.
pub open spec fn digit_value(c: char) -> nat {
    let u = c as u32;
    if 48 <= u && u <= 57 {
        (u - 48) as nat
    } else if 97 <= u && u <= 122 {
        (u - 87) as nat
    } else if 65 <= u && u <= 90 {
        (u - 55) as nat
    } else {
        36
    }
}

/// The character written for the digit `d`; letters are upper case.
pub open spec fn digit_char(d: nat) -> char {
    if d == 0 { '0' }
    else if d == 1 { '1' }
    else if d == 2 { '2' }
    else if d == 3 { '3' }
    else if d == 4 { '4' }
    else if d == 5 { '5' }
    else if d == 6 { '6' }
    else if d == 7 { '7' }
    else if d == 8 { '8' }
    else if d == 9 { '9' }
    else if d == 10 { 'A' }
    else if d == 11 { 'B' }
    else if d == 12 { 'C' }
    else if d == 13 { 'D' }
    else if d == 14 { 'E' }
    else { 'F' }
}

/// The digits of `n` in `radix`, most significant first, without leading zeros
/// (zero itself is the single digit `0`).
pub open spec fn digits_of(n: nat, radix: nat) -> Seq<char>
    decreases n,
    via digits_of_decreases
{
    if radix < 2 || n < radix {
        seq![digit_char(n)]
    } else {
        digits_of(n / radix, radix).push(digit_char(n % radix))
    }
}

#[via_fn]
proof fn digits_of_decreases(n: nat, radix: nat) {
    if !(radix < 2 || n < radix) {
        assert(n / radix < n) by (nonlinear_arith)
            requires
                radix >= 2,
                n >= radix,
        ;
    }
}

pub proof fn lemma_digit_round_trip(d: nat)
    requires
        d < 16,
    ensures
        digit_value(digit_char(d)) == d,
{
}

/// The value of the digit `c`, `36` where `c` is no digit.
pub fn digit_value_of(c: char) -> (r: u32)
    ensures
        r as nat == digit_value(c),
{
    let u = c as u32;
    if 48 <= u && u <= 57 {
        u - 48
    } else if 97 <= u && u <= 122 {
        u - 87
    } else if 65 <= u && u <= 90 {
        u - 55
    } else {
        36
    }
}

/// The one-character text of the digit `d`.
fn digit_str(d: u64) -> (r: &'static str)
    requires
        d < 16,
    ensures
        r@ == seq![digit_char(d as nat)],
{
    let r = if d < 8 {
        if d < 4 {
            if d == 0 { "0" } else if d == 1 { "1" } else if d == 2 { "2" } else { "3" }
        } else {
            if d == 4 { "4" } else if d == 5 { "5" } else if d == 6 { "6" } else { "7" }
        }
    } else {
        if d < 12 {
            if d == 8 { "8" } else if d == 9 { "9" } else if d == 10 { "A" } else { "B" }
        } else {
            if d == 12 { "C" } else if d == 13 { "D" } else if d == 14 { "E" } else { "F" }
        }
    };
    proof {
        reveal_strlit("0");
        reveal_strlit("1");
        reveal_strlit("2");
        reveal_strlit("3");
        reveal_strlit("4");
        reveal_strlit("5");
        reveal_strlit("6");
        reveal_strlit("7");
        reveal_strlit("8");
        reveal_strlit("9");
        reveal_strlit("A");
        reveal_strlit("B");
        reveal_strlit("C");
        reveal_strlit("D");
        reveal_strlit("E");
        reveal_strlit("F");
    }
    assert(r@ =~= seq![digit_char(d as nat)]);
    r
}

/// Appends the digits of `n` in `radix` to `out`.
pub fn write_digits(n: u64, radix: u64, out: &mut String)
    requires
        2 <= radix <= 16,
    ensures
        final(out)@ == old(out)@ + digits_of(n as nat, radix as nat),
    decreases n,
{
    if n >= radix {
        assert(n / radix < n) by (nonlinear_arith)
            requires
                radix >= 2,
                n >= radix,
        ;
        write_digits(n / radix, radix, out);
    }
    let ghost mid = out@;
    out.append(digit_str(n % radix));
    proof {
        let (nn, rr) = (n as nat, radix as nat);
        if n >= radix {
            assert(digits_of(nn, rr) == digits_of(nn / rr, rr).push(digit_char(nn % rr)));
            assert(mid == old(out)@ + digits_of(nn / rr, rr));
        } else {
            assert(nn % rr == nn) by (nonlinear_arith)
                requires
                    nn < rr,
            ;
            assert(digits_of(nn, rr) == seq![digit_char(nn)]);
            assert(mid == old(out)@);
        }
        assert(out@ =~= old(out)@ + digits_of(nn, rr));
    }
}

} // verus!
