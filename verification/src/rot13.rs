//! ROT13: every ASCII letter moved thirteen places along the alphabet.

use vstd::prelude::*;

verus! {

/// Why a text has no ROT13 form.
#[derive(Debug)]
pub enum EncodingError {
    /// The text holds this character, which is not ASCII.
    NonASCII(char),
}

/// The ROT13 form of one character: a letter of the first half of the
/// alphabet moves thirteen places up, one of the second half thirteen places
/// down, anything else stays.
pub open spec fn rotated(c: char) -> char {
    if ('a' <= c && c <= 'm') || ('A' <= c && c <= 'M') {
        ((c as u8) + 13) as char
    } else if ('n' <= c && c <= 'z') || ('N' <= c && c <= 'Z') {
        ((c as u8) - 13) as char
    } else {
        c
    }
}

/// Whether every character before position `n` is ASCII.
pub open spec fn ascii_up_to(text: Seq<char>, n: int) -> bool {
    forall|i: int| 0 <= i < n ==> (#[trigger] text[i]) <= '\x7f'
}

/// Whether position `i` holds the first character of `text` beyond ASCII.
pub open spec fn first_beyond_ascii(text: Seq<char>, i: int) -> bool {
    0 <= i < text.len() && ascii_up_to(text, i) && text[i] > '\x7f'
}

/// The ROT13 form of one character.
pub fn rotate(c: char) -> (r: char)
    ensures
        r == rotated(c),
{
    if (c >= 'a' && c <= 'm') || (c >= 'A' && c <= 'M') {
        ((c as u8) + 13) as char
    } else if (c >= 'n' && c <= 'z') || (c >= 'N' && c <= 'Z') {
        ((c as u8) - 13) as char
    } else {
        c
    }
}

/// The ROT13 form of an ASCII text. A text with a character beyond ASCII has
/// none: the error names the first such character.
pub fn rot13_encode(text: &str) -> (result: Result<String, EncodingError>)
    ensures
        match result {
            Ok(output) => ascii_up_to(text@, text@.len() as int) && output@ == text@.map_values(
                |c: char| rotated(c),
            ),
            Err(e) => exists|i: int|
                #[trigger] first_beyond_ascii(text@, i) && e == EncodingError::NonASCII(text@[i]),
        },
{
    let mut output = String::new();
    for c in it: text.chars()
        invariant
            it.seq() == text@,
            ascii_up_to(text@, it.index() as int),
            output@ == text@.take(it.index() as int).map_values(|c: char| rotated(c)),
    {
        if c > '\x7f' {
            assert(first_beyond_ascii(text@, it.index() as int));
            return Err(EncodingError::NonASCII(c));
        }
        output.push(rotate(c));
        proof {
            let i = it.index() as int;
            assert(text@.take(i + 1) =~= text@.take(i).push(c));
            assert(text@.take(i + 1).map_values(|c: char| rotated(c)) =~= text@.take(
                i,
            ).map_values(|c: char| rotated(c)).push(rotated(c)));
        }
    }
    proof {
        assert(text@.take(text@.len() as int) =~= text@);
    }
    Ok(output)
}

} // verus!
