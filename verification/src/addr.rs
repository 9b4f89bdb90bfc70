//! Dotted-decimal formatting of IPv4 addresses.

use vstd::prelude::*;

verus! {

use vstd::string::StringExecFns;

/// The decimal digit character for `d` in 0..10.
pub open spec fn digit_char(d: int) -> char {
    if d == 0 {
        '0'
    } else if d == 1 {
        '1'
    } else if d == 2 {
        '2'
    } else if d == 3 {
        '3'
    } else if d == 4 {
        '4'
    } else if d == 5 {
        '5'
    } else if d == 6 {
        '6'
    } else if d == 7 {
        '7'
    } else if d == 8 {
        '8'
    } else {
        '9'
    }
}

/// The decimal digits of `n` in 0..256, most significant first, with no
/// leading zeros.
pub open spec fn dec_chars(n: int) -> Seq<char> {
    if n < 10 {
        seq![digit_char(n)]
    } else if n < 100 {
        seq![digit_char(n / 10), digit_char(n % 10)]
    } else {
        seq![digit_char(n / 100), digit_char((n / 10) % 10), digit_char(n % 10)]
    }
}

/// The dotted-decimal text of the IPv4 address `a.b.c.d`.
pub open spec fn dotted_quad(a: u8, b: u8, c: u8, d: u8) -> Seq<char> {
    dec_chars(a as int) + seq!['.'] + dec_chars(b as int) + seq!['.'] + dec_chars(c as int)
        + seq!['.'] + dec_chars(d as int)
}

/// The one-character string for the digit `d`.
fn digit_str(d: u8) -> (r: &'static str)
    requires
        d < 10,
    ensures
        r@ == seq![digit_char(d as int)],
{
    proof {
        reveal_strlit("0");
        reveal_strlit("1");
        reveal_strlit("2");
        reveal_strlit("3");
        reveal_strlit("4");
        reveal_strlit("5");
        reveal_strlit("6");
        reveal_strlit("7");
        reveal_strlit("8");
        reveal_strlit("9");
    }
    let r = if d == 0 {
        "0"
    } else if d == 1 {
        "1"
    } else if d == 2 {
        "2"
    } else if d == 3 {
        "3"
    } else if d == 4 {
        "4"
    } else if d == 5 {
        "5"
    } else if d == 6 {
        "6"
    } else if d == 7 {
        "7"
    } else if d == 8 {
        "8"
    } else {
        "9"
    };
    proof {
        assert(r@ =~= seq![digit_char(d as int)]);
    }
    r
}

/// Appends the decimal digits of `b` to `out`.
fn push_octet(out: &mut String, b: u8)
    ensures
        final(out)@ == old(out)@ + dec_chars(b as int),
{
    if b >= 100 {
        out.append(digit_str(b / 100));
        out.append(digit_str((b / 10) % 10));
        out.append(digit_str(b % 10));
        proof {
            assert(out@ =~= old(out)@ + dec_chars(b as int));
        }
    } else if b >= 10 {
        out.append(digit_str(b / 10));
        out.append(digit_str(b % 10));
        proof {
            assert(out@ =~= old(out)@ + dec_chars(b as int));
        }
    } else {
        out.append(digit_str(b));
        proof {
            assert(out@ =~= old(out)@ + dec_chars(b as int));
        }
    }
}

/// Formats the IPv4 address `a.b.c.d` as dotted-decimal text.
pub fn format_ipv4(a: u8, b: u8, c: u8, d: u8) -> (s: String)
    ensures
        s@ == dotted_quad(a, b, c, d),
{
    proof {
        reveal_strlit(".");
    }
    let mut s = String::new();
    push_octet(&mut s, a);
    s.append(".");
    push_octet(&mut s, b);
    s.append(".");
    push_octet(&mut s, c);
    s.append(".");
    push_octet(&mut s, d);
    proof {
        assert(s@ =~= dotted_quad(a, b, c, d));
    }
    s
}

} // verus!
