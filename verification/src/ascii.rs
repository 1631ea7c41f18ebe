//! Single characters: which class of ASCII a character belongs to, how a
//! letter changes case, and what number a digit stands for.

use vstd::prelude::*;

verus! {

/// Why a character could not be converted.
#[derive(Debug)]
pub enum CharError {
    /// The character is not ASCII.
    NotASCII,
    /// The character is not a decimal digit.
    NotDigit,
    /// The character is not a hexadecimal digit.
    NotHexDigit,
    /// The character is not a letter.
    NotLetter,
    /// The character is not printable.
    NotPrintable,
}

/// Whether `c` is one of `a`..`z`.
pub open spec fn lowercase(c: char) -> bool {
    'a' <= c && c <= 'z'
}

/// Whether `c` is one of `A`..`Z`.
pub open spec fn uppercase(c: char) -> bool {
    'A' <= c && c <= 'Z'
}

/// Whether `c` is one of `0`..`9`.
pub open spec fn decimal_digit(c: char) -> bool {
    '0' <= c && c <= '9'
}

/// Whether `c` is a decimal digit or one of `a`..`f`, `A`..`F`.
pub open spec fn hex_digit(c: char) -> bool {
    decimal_digit(c) || ('a' <= c && c <= 'f') || ('A' <= c && c <= 'F')
}

/// Decides whether `c` is one of `a`..`z`.
pub fn is_lowercase(c: char) -> (b: bool)
    ensures
        b == lowercase(c),
{
    c >= 'a' && c <= 'z'
}

/// Decides whether `c` is one of `A`..`Z`.
pub fn is_uppercase(c: char) -> (b: bool)
    ensures
        b == uppercase(c),
{
    c >= 'A' && c <= 'Z'
}

/// Decides whether `c` is an ASCII letter.
pub fn is_letter(c: char) -> (b: bool)
    ensures
        b == (uppercase(c) || lowercase(c)),
{
    is_uppercase(c) || is_lowercase(c)
}

/// Decides whether `c` is a decimal digit.
pub fn is_digit(c: char) -> (b: bool)
    ensures
        b == decimal_digit(c),
{
    c >= '0' && c <= '9'
}

/// Decides whether `c` is a hexadecimal digit.
pub fn is_hex_digit(c: char) -> (b: bool)
    ensures
        b == hex_digit(c),
{
    is_digit(c) || is_lowercase(c) && c <= 'f' || is_uppercase(c) && c <= 'F'
}

/// Decides whether `c` is a printable ASCII character: the space, or
/// anything up to the tilde.
pub fn is_printable(c: char) -> (b: bool)
    ensures
        b == (32 <= c as u32 <= 126),
{
    c >= ' ' && c <= '~'
}

/// Decides whether `c` is an ASCII character.
pub fn is_ascii(c: char) -> (b: bool)
    ensures
        b == (c as u32 <= 127),
{
    c <= '\x7f'
}

/// The upper-case form of a letter.
pub fn to_uppercase(c: char) -> (result: Result<char, CharError>)
    ensures
        lowercase(c) ==> result == Ok::<char, CharError>((c as u8 - 32) as char),
        uppercase(c) ==> result == Ok::<char, CharError>(c),
        !lowercase(c) && !uppercase(c) ==> result == Err::<char, CharError>(CharError::NotLetter),
{
    if !is_letter(c) {
        return Err(CharError::NotLetter);
    }
    if is_lowercase(c) {
        Ok((c as u8 - 97u8 + 65u8) as char)
    } else {
        Ok(c)
    }
}

/// The lower-case form of a letter.
pub fn to_lowercase(c: char) -> (result: Result<char, CharError>)
    ensures
        uppercase(c) ==> result == Ok::<char, CharError>((c as u8 + 32) as char),
        lowercase(c) ==> result == Ok::<char, CharError>(c),
        !lowercase(c) && !uppercase(c) ==> result == Err::<char, CharError>(CharError::NotLetter),
{
    if !is_letter(c) {
        return Err(CharError::NotLetter);
    }
    if is_uppercase(c) {
        Ok((c as u8 - 65u8 + 97u8) as char)
    } else {
        Ok(c)
    }
}

/// The code of a decimal digit: 48 for `0` up to 57 for `9`.
pub fn char_to_number(c: char) -> (result: Result<u32, CharError>)
    ensures
        c as u32 > 127 ==> result == Err::<u32, CharError>(CharError::NotASCII),
        c as u32 <= 127 && !decimal_digit(c) ==> result == Err::<u32, CharError>(
            CharError::NotDigit,
        ),
        decimal_digit(c) ==> result == Ok::<u32, CharError>(c as u32),
{
    if !is_ascii(c) {
        return Err(CharError::NotASCII);
    }
    if !is_digit(c) {
        return Err(CharError::NotDigit);
    }
    Ok(c as u32)
}

/// The number of a hexadecimal digit, counted from the code of `A` as ten:
/// a decimal digit gives its code, `A`..`F` give 10..15, and `a`..`f` give
/// 42..47.
pub fn char_to_number_hex(c: char) -> (result: Result<u32, CharError>)
    ensures
        c as u32 > 127 ==> result == Err::<u32, CharError>(CharError::NotASCII),
        c as u32 <= 127 && !hex_digit(c) ==> result == Err::<u32, CharError>(
            CharError::NotHexDigit,
        ),
        decimal_digit(c) ==> result == Ok::<u32, CharError>(c as u32),
        hex_digit(c) && !decimal_digit(c) ==> result == Ok::<u32, CharError>(
            (c as u32 - 55) as u32,
        ),
{
    if !is_ascii(c) {
        return Err(CharError::NotASCII);
    }
    if !is_hex_digit(c) {
        return Err(CharError::NotHexDigit);
    }
    if is_digit(c) {
        Ok(c as u32)
    } else {
        Ok(c as u32 - 65u32 + 10)
    }
}

/// What to tell a user about an error.
pub fn error_message(e: &CharError) -> (message: &'static str)
    ensures
        message@ == match e {
            CharError::NotASCII => "Character not ASCII."@,
            CharError::NotDigit => "Character not a base-10 digit."@,
            CharError::NotHexDigit => "Character not a base-16 digit."@,
            CharError::NotLetter => "Character not a letter."@,
            CharError::NotPrintable => "Character not printable."@,
        },
{
    match e {
        CharError::NotASCII => "Character not ASCII.",
        CharError::NotDigit => "Character not a base-10 digit.",
        CharError::NotHexDigit => "Character not a base-16 digit.",
        CharError::NotLetter => "Character not a letter.",
        CharError::NotPrintable => "Character not printable.",
    }
}

} // verus!
