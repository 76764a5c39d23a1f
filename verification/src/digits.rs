//! Decimal rendering of integers, verified against a digit-sequence spec.

use vstd::prelude::*;
use vstd::string::StringExecFns;

verus! {

/// The character sequence of one decimal digit.
pub open spec fn digit_seq(d: nat) -> Seq<char> {
    if d == 0 {
        "0"@
    } else if d == 1 {
        "1"@
    } else if d == 2 {
        "2"@
    } else if d == 3 {
        "3"@
    } else if d == 4 {
        "4"@
    } else if d == 5 {
        "5"@
    } else if d == 6 {
        "6"@
    } else if d == 7 {
        "7"@
    } else if d == 8 {
        "8"@
    } else {
        "9"@
    }
}

/// The decimal digits of a natural number, most significant first.
pub open spec fn decimal_digits(n: nat) -> Seq<char>
    decreases n,
{
    if n < 10 {
        digit_seq(n)
    } else {
        decimal_digits(n / 10) + digit_seq(n % 10)
    }
}

/// The decimal rendering of an integer: a minus sign and the digits of its
/// magnitude.
pub open spec fn decimal_string(n: int) -> Seq<char> {
    if n < 0 {
        "-"@ + decimal_digits((-n) as nat)
    } else {
        decimal_digits(n as nat)
    }
}

/// One decimal digit as text.
fn digit_str(d: u64) -> (r: &'static str)
    requires
        d < 10,
    ensures
        r@ == digit_seq(d as nat),
{
    if d == 0 {
        "0"
    } else if d == 1 {
        "1"
    } else if d == 2 {
        "2"
    } else if d == 3 {
        "3"
    } else if d == 4 {
        "4"
    } else if d == 5 {
        "5"
    } else if d == 6 {
        "6"
    } else if d == 7 {
        "7"
    } else if d == 8 {
        "8"
    } else {
        "9"
    }
}

/// Append the decimal digits of `m`, most significant first.
fn push_decimal(out: &mut String, m: u64)
    ensures
        final(out)@ == old(out)@ + decimal_digits(m as nat),
    decreases m,
{
    if m >= 10 {
        push_decimal(out, m / 10);
        out.append(digit_str(m % 10));
        proof {
            assert(m as nat / 10 == (m / 10) as nat);
            assert(m as nat % 10 == (m % 10) as nat);
            assert(out@ =~= old(out)@ + decimal_digits(m as nat));
        }
    } else {
        out.append(digit_str(m));
    }
}

/// Render an integer in decimal.
pub fn i64_to_string(n: i64) -> (r: String)
    ensures
        r@ == decimal_string(n as int),
{
    let mut out = String::new();
    if n >= 0 {
        push_decimal(&mut out, n as u64);
        proof {
            assert(out@ =~= decimal_string(n as int));
        }
        return out;
    }
    out.append("-");
    let m: u64 = if n == i64::MIN {
        9223372036854775808u64
    } else {
        (-n) as u64
    };
    proof {
        assert(m as nat == (-(n as int)) as nat);
    }
    push_decimal(&mut out, m);
    proof {
        assert(out@ =~= decimal_string(n as int));
    }
    out
}

} // verus!
