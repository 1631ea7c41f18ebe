//! Strings: what this crate assumes of `String` beyond what the verifier's
//! library already states, and small helpers on string slices.

use vstd::prelude::*;

verus! {

/// `String::push` appends the one character to the end of the string and
/// changes nothing else.
pub assume_specification[ String::push ](s: &mut String, ch: char)
    ensures
        final(s)@ == old(s)@.push(ch),
;

/// The lower-case form of a string as `str::to_lowercase` gives it.
pub uninterp spec fn lowercase_of(s: Seq<char>) -> Seq<char>;

/// `str::to_lowercase`: the lower-case form of the string by the rules of
/// Unicode, which depends on the characters of the string alone.
#[verifier::external_body]
pub(crate) fn to_lowercase(s: &str) -> (lower: String)
    ensures
        lower@ == lowercase_of(s@),
{
    s.to_lowercase()
}

/// Whether `s` ends in `suffix`.
pub open spec fn has_suffix(s: Seq<char>, suffix: Seq<char>) -> bool {
    suffix.len() <= s.len() && s.skip(s.len() - suffix.len()) == suffix
}

/// The characters of `s`, one by one.
pub fn chars_of(s: &str) -> (chars: Vec<char>)
    ensures
        chars@ == s@,
{
    let mut chars: Vec<char> = Vec::new();
    for c in it: s.chars()
        invariant
            it.seq() == s@,
            chars@ == s@.take(it.index() as int),
    {
        chars.push(c);
    }
    chars
}

/// Decides whether `s` ends in `suffix`.
pub fn ends_with(s: &str, suffix: &str) -> (b: bool)
    ensures
        b == has_suffix(s@, suffix@),
{
    let text = chars_of(s);
    let tail = chars_of(suffix);
    if tail.len() > text.len() {
        return false;
    }
    let start: usize = text.len() - tail.len();
    let mut i: usize = 0;
    while i < tail.len()
        invariant
            text@ == s@,
            tail@ == suffix@,
            0 <= i <= tail@.len(),
            tail@.len() <= text@.len() <= usize::MAX,
            start == text@.len() - tail@.len(),
            forall|k: int| 0 <= k < i ==> text@[start + k] == tail@[k],
        decreases tail@.len() - i,
    {
        if text[start + i] != tail[i] {
            proof {
                assert(text@.skip(start as int)[i as int] == text@[start + i]);
            }
            return false;
        }
        i += 1;
    }
    proof {
        assert(text@.skip(start as int) =~= tail@);
    }
    true
}

} // verus!
