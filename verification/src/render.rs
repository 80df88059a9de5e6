//! Textual renderings for the shell's read commands: decimal and hex
//! digits, MAC addresses, and the building blocks the fabric uses for
//! its port and table listings.

use vstd::prelude::*;
use vstd::string::StringExecFns;
use crate::network::frame::Mac;

verus! {

/// The decimal digit character for `d`.
pub open spec fn digit_char(d: int) -> char {
    if d == 0 {
        '0'
    } else if d == 1 {
        '1'
    } else if d == 2 {
        '2'
    } else if d == 3 {
        '3'
    } else if d == 4 {
        '4'
    } else if d == 5 {
        '5'
    } else if d == 6 {
        '6'
    } else if d == 7 {
        '7'
    } else if d == 8 {
        '8'
    } else {
        '9'
    }
}

/// The decimal rendering of a number, most significant digit first.
pub open spec fn dec_digits(n: int) -> Seq<char>
    decreases n,
{
    if n < 10 {
        seq![digit_char(n)]
    } else {
        dec_digits(n / 10) + seq![digit_char(n % 10)]
    }
}

/// The uppercase hex digit character for `d`.
pub open spec fn hex_char(d: int) -> char {
    if d < 10 {
        digit_char(d)
    } else if d == 10 {
        'A'
    } else if d == 11 {
        'B'
    } else if d == 12 {
        'C'
    } else if d == 13 {
        'D'
    } else if d == 14 {
        'E'
    } else {
        'F'
    }
}

/// A byte as two uppercase hex digits.
pub open spec fn hex_byte(b: int) -> Seq<char> {
    seq![hex_char(b / 16), hex_char(b % 16)]
}

/// A MAC address as six colon-separated hex pairs.
pub open spec fn mac_chars(m: Mac) -> Seq<char> {
    hex_byte(m.b0 as int) + seq![':'] + hex_byte(m.b1 as int) + seq![':'] + hex_byte(m.b2 as int)
        + seq![':'] + hex_byte(m.b3 as int) + seq![':'] + hex_byte(m.b4 as int) + seq![':']
        + hex_byte(m.b5 as int)
}

/// The decimal digit as a one-character string.
fn digit_str(d: u64) -> (r: &'static str)
    requires
        d < 10,
    ensures
        r@ == seq![digit_char(d as int)],
{
    proof {
        reveal_strlit("0");
        reveal_strlit("1");
        reveal_strlit("2");
        reveal_strlit("3");
        reveal_strlit("4");
        reveal_strlit("5");
        reveal_strlit("6");
        reveal_strlit("7");
        reveal_strlit("8");
        reveal_strlit("9");
    }
    let r = match d {
        0 => "0",
        1 => "1",
        2 => "2",
        3 => "3",
        4 => "4",
        5 => "5",
        6 => "6",
        7 => "7",
        8 => "8",
        _ => "9",
    };
    proof {
        assert(r@ =~= seq![digit_char(d as int)]);
    }
    r
}

/// The hex digit as a one-character string.
fn hex_str(d: u64) -> (r: &'static str)
    requires
        d < 16,
    ensures
        r@ == seq![hex_char(d as int)],
{
    if d < 10 {
        digit_str(d)
    } else {
        proof {
            reveal_strlit("A");
            reveal_strlit("B");
            reveal_strlit("C");
            reveal_strlit("D");
            reveal_strlit("E");
            reveal_strlit("F");
        }
        let r = match d {
            10 => "A",
            11 => "B",
            12 => "C",
            13 => "D",
            14 => "E",
            _ => "F",
        };
        proof {
            assert(r@ =~= seq![hex_char(d as int)]);
        }
        r
    }
}

/// Appends the decimal rendering of `n`.
pub fn push_u64(n: u64, out: &mut String)
    ensures
        final(out)@ == old(out)@ + dec_digits(n as int),
    decreases n,
{
    if n >= 10 {
        push_u64(n / 10, out);
    }
    out.append(digit_str(n % 10));
    proof {
        assert(out@ =~= old(out)@ + dec_digits(n as int));
    }
}

/// The decimal rendering of `n`.
pub fn u64_to_string(n: u64) -> (r: String)
    ensures
        r@ == dec_digits(n as int),
{
    let mut out = String::new();
    push_u64(n, &mut out);
    proof {
        assert(out@ =~= dec_digits(n as int));
    }
    out
}

/// Appends a byte as two uppercase hex digits.
fn push_hex_byte(b: u8, out: &mut String)
    ensures
        final(out)@ == old(out)@ + hex_byte(b as int),
{
    out.append(hex_str(b as u64 / 16));
    out.append(hex_str(b as u64 % 16));
    proof {
        assert(out@ =~= old(out)@ + hex_byte(b as int));
    }
}

/// The colon-separated uppercase hex rendering of a MAC address.
pub fn mac_to_string(m: &Mac) -> (r: String)
    ensures
        r@ == mac_chars(*m),
{
    let mut out = String::new();
    push_hex_byte(m.b0, &mut out);
    out.append(":");
    push_hex_byte(m.b1, &mut out);
    out.append(":");
    push_hex_byte(m.b2, &mut out);
    out.append(":");
    push_hex_byte(m.b3, &mut out);
    out.append(":");
    push_hex_byte(m.b4, &mut out);
    out.append(":");
    push_hex_byte(m.b5, &mut out);
    proof {
        reveal_strlit(":");
        assert(out@ =~= mac_chars(*m));
    }
    out
}

} // verus!
