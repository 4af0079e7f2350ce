//! The numeric formatter: decimal text for unsigned and signed integers,
//! and the trailing-".0" strip that makes integral floating-point text
//! render as a bare integer.

use vstd::prelude::*;
use vstd::string::StrSliceExecFns;
use vstd::string::StringExecFns;

verus! {

pub open spec fn spec_digit_char(d: int) -> char {
    if d == 0 {
        '0'
    } else if d == 1 {
        '1'
    } else if d == 2 {
        '2'
    } else if d == 3 {
        '3'
    } else if d == 4 {
        '4'
    } else if d == 5 {
        '5'
    } else if d == 6 {
        '6'
    } else if d == 7 {
        '7'
    } else if d == 8 {
        '8'
    } else {
        '9'
    }
}

/// The decimal digit expansion of a non-negative integer, most significant
/// digit first, with no separators and no leading zero.
pub open spec fn spec_dec_nat(n: int) -> Seq<char>
    decreases n,
{
    if n < 10 {
        seq![spec_digit_char(n)]
    } else {
        spec_dec_nat(n / 10).push(spec_digit_char(n % 10))
    }
}

/// The decimal text of a signed integer: a minus sign when negative,
/// then the digit expansion of its magnitude.
pub open spec fn spec_dec_i64(n: i64) -> Seq<char> {
    if n >= 0 {
        spec_dec_nat(n as int)
    } else {
        seq!['-'] + spec_dec_nat(-(n as int))
    }
}

fn digit_char(d: u64) -> (c: char)
    requires
        d < 10,
    ensures
        c == spec_digit_char(d as int),
{
    match d {
        0 => '0',
        1 => '1',
        2 => '2',
        3 => '3',
        4 => '4',
        5 => '5',
        6 => '6',
        7 => '7',
        8 => '8',
        _ => '9',
    }
}

/// Renders an unsigned integer in decimal.
pub fn fmt_u64(n: u64) -> (r: String)
    ensures
        r@ == spec_dec_nat(n as int),
{
    let mut digits: Vec<char> = Vec::new();
    let mut m = n;
    while m >= 10
        invariant
            spec_dec_nat(n as int) == spec_dec_nat(m as int) + digits@.reverse(),
        decreases m,
    {
        let d = m % 10;
        let c = digit_char(d);
        proof {
            assert(spec_dec_nat(m as int) == spec_dec_nat(m as int / 10).push(
                spec_digit_char(m as int % 10),
            ));
            assert(digits@.push(c).reverse() =~= seq![c] + digits@.reverse());
            assert(spec_dec_nat(m as int / 10) + digits@.push(c).reverse() =~= spec_dec_nat(
                m as int,
            ) + digits@.reverse()) by {
                assert(spec_dec_nat(m as int) =~= spec_dec_nat(m as int / 10) + seq![c]);
            }
        }
        digits.push(c);
        m = m / 10;
    }
    let c = digit_char(m);
    proof {
        assert(spec_dec_nat(m as int) == seq![spec_digit_char(m as int)]);
        assert(digits@.push(c).reverse() =~= seq![c] + digits@.reverse());
        assert(spec_dec_nat(n as int) =~= digits@.push(c).reverse());
    }
    digits.push(c);
    let mut out = String::new();
    let len = digits.len();
    let mut i: usize = 0;
    while i < len
        invariant
            len == digits@.len(),
            i <= len,
            spec_dec_nat(n as int) == digits@.reverse(),
            out@ == digits@.reverse().subrange(0, i as int),
        decreases len - i,
    {
        let c = digits[len - 1 - i];
        proof {
            assert(digits@.reverse()[i as int] == digits@[len - 1 - i as int]);
            assert(digits@.reverse().subrange(0, i + 1 as int) =~= digits@.reverse().subrange(
                0,
                i as int,
            ).push(digits@.reverse()[i as int]));
        }
        crate::text::string_push(&mut out, c);
        i = i + 1;
    }
    proof {
        assert(digits@.reverse().subrange(0, len as int) =~= digits@.reverse());
    }
    out
}

/// Renders a signed integer in decimal.
pub fn fmt_i64(n: i64) -> (r: String)
    ensures
        r@ == spec_dec_i64(n),
{
    if n >= 0 {
        fmt_u64(n as u64)
    } else {
        let m: u64 = ((-(n + 1)) as u64) + 1;
        proof {
            assert(m as int == -(n as int));
        }
        let mut out = String::new();
        crate::text::string_push(&mut out, '-');
        let digits = fmt_u64(m);
        out.append(digits.as_str());
        proof {
            assert(out@ =~= seq!['-'] + spec_dec_nat(-(n as int)));
        }
        out
    }
}

/// The text with a trailing ".0" removed, and any other text unchanged.
pub open spec fn spec_strip_dot_zero(s: Seq<char>) -> Seq<char> {
    if s.len() >= 2 && s[s.len() - 2] == '.' && s[s.len() - 1] == '0' {
        s.subrange(0, s.len() - 2)
    } else {
        s
    }
}

/// Removes a trailing ".0" so that integral floating-point text renders as
/// a bare integer.
pub fn strip_dot_zero(s: &str) -> (r: String)
    ensures
        r@ == spec_strip_dot_zero(s@),
{
    let n: usize = s.unicode_len();
    if n >= 2 {
        let dot = s.get_char(n - 2);
        let zero = s.get_char(n - 1);
        if dot == '.' && zero == '0' {
            let head = s.substring_char(0, n - 2);
            return String::from_str(head);
        }
    }
    String::from_str(s)
}

} // verus!
