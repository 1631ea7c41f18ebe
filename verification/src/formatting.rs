//! Building a line of text piece by piece: runs of spaces, plain strings,
//! and whole numbers with their digits in groups of three.

use crate::report::{decimal, digit, push_decimal};
use vstd::prelude::*;
use vstd::string::*;

verus! {

/// A run of `n` spaces.
pub open spec fn spaces(n: nat) -> Seq<char> {
    Seq::new(n, |i: int| ' ')
}

/// The three digits of a number below one thousand, leading zeros included.
pub open spec fn three_digits(n: nat) -> Seq<char> {
    seq![digit(n / 100 % 10), digit(n / 10 % 10), digit(n % 10)]
}

/// The decimal form of a number with a comma before every group of three
/// digits but the first.
pub open spec fn grouped(n: nat) -> Seq<char>
    decreases n,
{
    if n < 1000 {
        decimal(n)
    } else {
        grouped(n / 1000) + seq![','] + three_digits(n % 1000)
    }
}

/// The grouped decimal form of a whole number, with a minus sign before a
/// negative one.
pub open spec fn signed_grouped(x: int) -> Seq<char> {
    if x < 0 {
        seq!['-'] + grouped((-x) as nat)
    } else {
        grouped(x as nat)
    }
}

/// Appends `n` spaces to `s`.
pub fn add_space(s: &mut String, n: u32)
    ensures
        final(s)@ == old(s)@ + spaces(n as nat),
{
    let mut left = n;
    assert(s@ =~= old(s)@ + spaces(0));
    while left > 0
        invariant
            left <= n,
            s@ == old(s)@ + spaces((n - left) as nat),
        decreases left,
    {
        s.push(' ');
        left -= 1;
        assert(s@ =~= old(s)@ + spaces((n - left) as nat));
    }
}

/// Appends `slice` to `s`.
pub fn add_str(s: &mut String, slice: &str)
    ensures
        final(s)@ == old(s)@ + slice@,
{
    s.append(slice);
}

/// Appends the grouped decimal form of `n` to `s`.
fn push_grouped(s: &mut String, n: u32)
    ensures
        final(s)@ == old(s)@ + grouped(n as nat),
    decreases n,
{
    if n < 1000 {
        push_decimal(s, n as u64);
    } else {
        push_grouped(s, n / 1000);
        let low: u32 = n % 1000;
        s.push(',');
        s.push((48u8 + (low / 100 % 10) as u8) as char);
        s.push((48u8 + (low / 10 % 10) as u8) as char);
        s.push((48u8 + (low % 10) as u8) as char);
        assert(s@ =~= old(s)@ + grouped(n as nat));
    }
}

/// Appends a whole number to `s`, its digits in groups of three.
pub fn add_integer(s: &mut String, x: i32)
    requires
        x != i32::MIN,
    ensures
        final(s)@ == old(s)@ + signed_grouped(x as int),
{
    if x < 0 {
        s.push('-');
        push_grouped(s, (-x) as u32);
        assert(s@ =~= old(s)@ + signed_grouped(x as int));
    } else {
        push_grouped(s, x as u32);
    }
}

} // verus!
