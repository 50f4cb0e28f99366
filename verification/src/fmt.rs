//! Decimal text of numbers, as Rust's `Display` writes them.

use vstd::prelude::*;
use crate::text::{append_str, owned, push_char};

verus! {

/// The digit character for `d` (0 to 9).
pub open spec fn digit(d: nat) -> char {
    if d == 0 {
        '0'
    } else if d == 1 {
        '1'
    } else if d == 2 {
        '2'
    } else if d == 3 {
        '3'
    } else if d == 4 {
        '4'
    } else if d == 5 {
        '5'
    } else if d == 6 {
        '6'
    } else if d == 7 {
        '7'
    } else if d == 8 {
        '8'
    } else {
        '9'
    }
}

/// The decimal digits of `n`, without leading zeros (`"0"` for zero).
pub open spec fn decimal(n: nat) -> Seq<char>
    decreases n,
{
    if n < 10 {
        seq![digit(n)]
    } else {
        decimal(n / 10).push(digit(n % 10))
    }
}

fn digit_char(d: u128) -> (c: char)
    requires
        d < 10,
    ensures
        c == digit(d as nat),
{
    if d == 0 {
        '0'
    } else if d == 1 {
        '1'
    } else if d == 2 {
        '2'
    } else if d == 3 {
        '3'
    } else if d == 4 {
        '4'
    } else if d == 5 {
        '5'
    } else if d == 6 {
        '6'
    } else if d == 7 {
        '7'
    } else if d == 8 {
        '8'
    } else {
        '9'
    }
}

/// Appends the decimal text of `n` to `s`.
pub fn push_decimal(s: &mut String, n: u128)
    ensures
        final(s)@ == old(s)@ + decimal(n as nat),
    decreases n,
{
    if n < 10 {
        push_char(s, digit_char(n));
        assert(seq![digit(n as nat)] =~= decimal(n as nat));
    } else {
        push_decimal(s, n / 10);
        push_char(s, digit_char(n % 10));
    }
}

/// The decimal text of `n`.
pub fn decimal_text(n: u128) -> (r: String)
    ensures
        r@ == decimal(n as nat),
{
    let mut s = String::new();
    push_decimal(&mut s, n);
    assert(Seq::<char>::empty() + decimal(n as nat) =~= decimal(n as nat));
    s
}

/// The decimal text of a signed number: a minus sign before the magnitude
/// of a negative one.
pub open spec fn signed_decimal(n: int) -> Seq<char> {
    if n < 0 {
        seq!['-'] + decimal((-n) as nat)
    } else {
        decimal(n as nat)
    }
}

/// Appends the decimal text of the signed `n` to `s`.
pub fn push_signed(s: &mut String, n: i64)
    ensures
        final(s)@ == old(s)@ + signed_decimal(n as int),
{
    if n < 0 {
        push_char(s, '-');
        let m: u128 = if n == i64::MIN {
            9223372036854775808u128
        } else {
            (-n) as u128
        };
        push_decimal(s, m);
    } else {
        push_decimal(s, n as u128);
    }
}

/// The fractional digits of a thousandth count `f` (1 to 999), three wide
/// and without trailing zeros.
pub open spec fn thousandths(f: nat) -> Seq<char> {
    let d1 = digit(f / 100);
    let d2 = digit((f / 10) % 10);
    let d3 = digit(f % 10);
    if f % 100 == 0 {
        seq![d1]
    } else if f % 10 == 0 {
        seq![d1, d2]
    } else {
        seq![d1, d2, d3]
    }
}

/// `ms` milliseconds as seconds, the way `Display` writes the `f64`
/// `ms / 1000.0`: the whole seconds, then a point and the significant
/// thousandths when there are any.
pub open spec fn seconds_text(ms: nat) -> Seq<char> {
    if ms % 1000 == 0 {
        decimal(ms / 1000)
    } else {
        decimal(ms / 1000) + seq!['.'] + thousandths(ms % 1000)
    }
}

/// Appends [`seconds_text`] of `ms` to `s`.
pub fn push_seconds(s: &mut String, ms: u128)
    ensures
        final(s)@ == old(s)@ + seconds_text(ms as nat),
{
    push_decimal(s, ms / 1000);
    let f = ms % 1000;
    if f != 0 {
        push_char(s, '.');
        push_char(s, digit_char(f / 100));
        if f % 100 != 0 {
            push_char(s, digit_char((f / 10) % 10));
            if f % 10 != 0 {
                push_char(s, digit_char(f % 10));
            }
        }
    }
    proof {
        let base = old(s)@ + decimal((ms / 1000) as nat);
        if f != 0 {
            assert(final(s)@ =~= base + seq!['.'] + thousandths(f as nat));
        }
    }
}

/// `ms` milliseconds as seconds with exactly three decimals, the way
/// `{:.3}` writes the `f64` `ms / 1000.0`.
pub open spec fn seconds_fixed3(ms: nat) -> Seq<char> {
    let f = ms % 1000;
    decimal(ms / 1000) + seq!['.', digit(f / 100), digit((f / 10) % 10), digit(f % 10)]
}

/// Appends [`seconds_fixed3`] of `ms` to `s`.
pub fn push_seconds_fixed3(s: &mut String, ms: u128)
    ensures
        final(s)@ == old(s)@ + seconds_fixed3(ms as nat),
{
    push_decimal(s, ms / 1000);
    let f = ms % 1000;
    push_char(s, '.');
    push_char(s, digit_char(f / 100));
    push_char(s, digit_char((f / 10) % 10));
    push_char(s, digit_char(f % 10));
    proof {
        assert(final(s)@ =~= old(s)@ + seconds_fixed3(ms as nat));
    }
}

} // verus!
