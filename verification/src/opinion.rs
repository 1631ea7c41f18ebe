//! One programmer's taste in code style.

use vstd::prelude::*;
use vstd::string::*;

verus! {

/// Why there is no opinion to report.
#[derive(Debug)]
pub enum OpinionError {
    /// Nothing about the language found any appreciation.
    PureHate,
}

/// The case style he likes best.
pub fn favorite_case_style() -> (style: Option<String>)
    ensures
        style matches Some(s) && s@ == "camelCase"@,
{
    Some(String::from_str("camelCase"))
}

/// How much he appreciates snake case, out of ten: not at all.
pub fn appreciation_for_snake_case() -> (grade: Option<u8>)
    ensures
        grade is None,
{
    None
}

/// How much he appreciates the opening bracket at the end of the line, out
/// of ten: not at all.
pub fn appreciation_for_not_putting_the_opening_bracket_on_a_new_line() -> (grade: Option<u8>)
    ensures
        grade is None,
{
    None
}

/// The sum of two appreciations, each counted as zero where there is none,
/// or the error of pure hate where the sum is zero.
pub fn total_appreciation(first: Option<u8>, second: Option<u8>) -> (total: Result<
    u16,
    OpinionError,
>)
    ensures
        match total {
            Ok(sum) => sum >= 1 && sum == first.unwrap_or(0) + second.unwrap_or(0),
            Err(OpinionError::PureHate) => first.unwrap_or(0) + second.unwrap_or(0) == 0,
        },
{
    let a1: u8 = match first {
        Some(x) => x,
        None => 0,
    };
    let a2: u8 = match second {
        Some(x) => x,
        None => 0,
    };
    let sum: u16 = a1 as u16 + a2 as u16;
    if sum < 1 {
        return Err(OpinionError::PureHate);
    }
    Ok(sum)
}

} // verus!
