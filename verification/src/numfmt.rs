//! Decimal rendering of integers, verified against a recursive
//! specification of the decimal numeral.

use vstd::prelude::*;

verus! {

/// The character of one decimal digit value.
pub open spec fn digit_char(d: int) -> char {
    if d == 0 {
        '0'
    } else if d == 1 {
        '1'
    } else if d == 2 {
        '2'
    } else if d == 3 {
        '3'
    } else if d == 4 {
        '4'
    } else if d == 5 {
        '5'
    } else if d == 6 {
        '6'
    } else if d == 7 {
        '7'
    } else if d == 8 {
        '8'
    } else {
        '9'
    }
}

/// The decimal numeral of a natural number, most significant digit
/// first, with no leading zeroes (and `"0"` for zero).
pub open spec fn spec_udecimal(n: nat) -> Seq<char>
    decreases n,
{
    if n < 10 {
        seq![digit_char(n as int)]
    } else {
        spec_udecimal(n / 10).push(digit_char((n % 10) as int))
    }
}

/// The decimal numeral of an integer: a minus sign before the numeral
/// of the magnitude when negative.
pub open spec fn spec_idecimal(v: int) -> Seq<char> {
    if v < 0 {
        seq!['-'] + spec_udecimal((-v) as nat)
    } else {
        spec_udecimal(v as nat)
    }
}

/// One digit as a string slice.
fn digit_str(d: u64) -> (r: &'static str)
    requires
        d < 10,
    ensures
        r@ == seq![digit_char(d as int)],
{
    proof {
        reveal_strlit("0");
        reveal_strlit("1");
        reveal_strlit("2");
        reveal_strlit("3");
        reveal_strlit("4");
        reveal_strlit("5");
        reveal_strlit("6");
        reveal_strlit("7");
        reveal_strlit("8");
        reveal_strlit("9");
    }
    let r = if d == 0 {
        "0"
    } else if d == 1 {
        "1"
    } else if d == 2 {
        "2"
    } else if d == 3 {
        "3"
    } else if d == 4 {
        "4"
    } else if d == 5 {
        "5"
    } else if d == 6 {
        "6"
    } else if d == 7 {
        "7"
    } else if d == 8 {
        "8"
    } else {
        "9"
    };
    proof {
        assert(r@ =~= seq![digit_char(d as int)]);
    }
    r
}

/// The decimal numeral of a `u64`.
pub fn u64_to_string(n: u64) -> (r: String)
    ensures
        r@ == spec_udecimal(n as nat),
    decreases n,
{
    if n < 10 {
        String::from_str(digit_str(n))
    } else {
        let mut s = u64_to_string(n / 10);
        s.append(digit_str(n % 10));
        proof {
            assert(s@ =~= spec_udecimal((n / 10) as nat).push(digit_char((n % 10) as int)));
        }
        s
    }
}

/// The decimal numeral of an `i64`, minus sign included.
pub fn i64_to_string(v: i64) -> (r: String)
    ensures
        r@ == spec_idecimal(v as int),
{
    if v >= 0 {
        u64_to_string(v as u64)
    } else {
        let magnitude: u64 = (-(v as i128)) as u64;
        proof {
            reveal_strlit("-");
        }
        let mut s = String::from_str("-");
        let digits = u64_to_string(magnitude);
        s.append(digits.as_str());
        proof {
            assert("-"@ =~= seq!['-']);
            assert(s@ =~= seq!['-'] + spec_udecimal((-(v as int)) as nat));
        }
        s
    }
}

/// The decimal numeral of an `i32`, minus sign included.
pub fn i32_to_string(v: i32) -> (r: String)
    ensures
        r@ == spec_idecimal(v as int),
{
    i64_to_string(v as i64)
}

} // verus!
