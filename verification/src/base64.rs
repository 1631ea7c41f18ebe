//! Base64 with the standard alphabet and `=` padding.

use vstd::prelude::*;

verus! {

/// The character that stands for the six-bit value `v`: `A`..`Z`, then
/// `a`..`z`, then `0`..`9`, then `+` and `/`.
pub open spec fn symbol(v: int) -> char {
    if v < 26 {
        ('A' as u8 + v) as char
    } else if v < 52 {
        ('a' as u8 + (v - 26)) as char
    } else if v < 62 {
        ('0' as u8 + (v - 52)) as char
    } else if v == 62 {
        '+'
    } else {
        '/'
    }
}

/// The four characters of three bytes: their 24 bits, cut into four values of
/// six bits each, highest first.
pub open spec fn group(b0: u8, b1: u8, b2: u8) -> Seq<char> {
    seq![
        symbol(b0 as int / 4),
        symbol((b0 as int % 4) * 16 + b1 as int / 16),
        symbol((b1 as int % 16) * 4 + b2 as int / 64),
        symbol(b2 as int % 64),
    ]
}

/// The characters of the first `n` groups of three bytes of `input`.
pub open spec fn full_groups(input: Seq<u8>, n: nat) -> Seq<char>
    decreases n,
{
    if n == 0 {
        Seq::empty()
    } else {
        full_groups(input, (n - 1) as nat) + group(
            input[3 * n - 3],
            input[3 * n - 2],
            input[3 * n - 1],
        )
    }
}

/// The characters of the bytes that are left over after the last full group:
/// none where the length is a multiple of three, else the characters of the
/// one or two bytes, filled up to four with `=`.
pub open spec fn last_group(input: Seq<u8>) -> Seq<char> {
    let n = input.len() as int;
    if n % 3 == 1 {
        group(input[n - 1], 0, 0).take(2) + seq!['=', '=']
    } else if n % 3 == 2 {
        group(input[n - 2], input[n - 1], 0).take(3) + seq!['=']
    } else {
        Seq::empty()
    }
}

/// The Base64 form of `input`.
pub open spec fn encoded(input: Seq<u8>) -> Seq<char> {
    full_groups(input, input.len() / 3) + last_group(input)
}

/// The Base64 form of any input has a length that is a multiple of four: four
/// characters for every three bytes, the last group filled up.
pub proof fn lemma_encoded_len(input: Seq<u8>)
    ensures
        encoded(input).len() == 4 * ((input.len() + 2) / 3),
{
    lemma_full_groups_len(input, input.len() / 3);
}

/// `n` full groups take `4 * n` characters.
pub proof fn lemma_full_groups_len(input: Seq<u8>, n: nat)
    ensures
        full_groups(input, n).len() == 4 * n,
    decreases n,
{
    if n > 0 {
        lemma_full_groups_len(input, (n - 1) as nat);
    }
}

/// The character for a six-bit value.
fn symbol_of(v: u8) -> (c: char)
    requires
        v < 64,
    ensures
        c == symbol(v as int),
{
    if v < 26 {
        (65u8 + v) as char
    } else if v < 52 {
        (97u8 + (v - 26)) as char
    } else if v < 62 {
        (48u8 + (v - 52)) as char
    } else if v == 62 {
        '+'
    } else {
        '/'
    }
}

/// Encodes a byte sequence in Base64.
pub fn encode(input: &[u8]) -> (result: String)
    ensures
        result@ == encoded(input@),
{
    let mut result = String::new();
    let n = input.len();
    let mut i: usize = 0;
    while n - i >= 3
        invariant
            n == input@.len(),
            0 <= i <= n,
            i % 3 == 0,
            result@ == full_groups(input@, (i / 3) as nat),
        decreases n - i,
    {
        let b0: u8 = input[i];
        let b1: u8 = input[i + 1];
        let b2: u8 = input[i + 2];
        result.push(symbol_of(b0 / 4));
        result.push(symbol_of((b0 % 4) * 16 + b1 / 16));
        result.push(symbol_of((b1 % 16) * 4 + b2 / 64));
        result.push(symbol_of(b2 % 64));
        proof {
            let k = (i / 3 + 1) as nat;
            assert(3 * k - 3 == i);
            assert(result@ =~= full_groups(input@, (k - 1) as nat) + group(b0, b1, b2));
        }
        i += 3;
    }
    assert(i / 3 == n / 3);
    if n - i == 1 {
        let b0: u8 = input[i];
        result.push(symbol_of(b0 / 4));
        result.push(symbol_of((b0 % 4) * 16));
        result.push('=');
        result.push('=');
        assert(result@ =~= encoded(input@));
    } else if n - i == 2 {
        let b0: u8 = input[i];
        let b1: u8 = input[i + 1];
        result.push(symbol_of(b0 / 4));
        result.push(symbol_of((b0 % 4) * 16 + b1 / 16));
        result.push(symbol_of((b1 % 16) * 4));
        result.push('=');
        assert(result@ =~= encoded(input@));
    } else {
        assert(result@ =~= encoded(input@));
    }
    result
}

} // verus!
