//! Abbreviations: the short forms of a few words, and the text in which every
//! short form is written out.

use crate::fields::{pieces, split_on};
use vstd::prelude::*;
use vstd::string::*;

verus! {

/// The long form of a word: what the short form stands for, or the word
/// itself where it is no short form.
pub open spec fn long_form(word: Seq<char>) -> Seq<char> {
    if word == "pt"@ {
        "pentru"@
    } else if word == "ptr"@ {
        "pentru"@
    } else if word == "dl"@ {
        "domnul"@
    } else if word == "dna"@ {
        "doamna"@
    } else if word == "Y'ought'n't've"@ {
        "You all ought not to have"@
    } else {
        word
    }
}

/// The long forms of some words, a space after each.
pub open spec fn written_out(words: Seq<Seq<char>>) -> Seq<char>
    decreases words.len(),
{
    if words.len() == 0 {
        Seq::empty()
    } else {
        written_out(words.drop_last()) + long_form(words.last()) + seq![' ']
    }
}

/// Whether `word` is the string `other`.
fn is(word: &String, other: &str) -> (same: bool)
    ensures
        same == (word@ == other@),
{
    let other = String::from_str(other);
    word.eq(&other)
}

/// Appends the long form of `word` to `out`.
fn push_long_form(out: &mut String, word: &String)
    ensures
        final(out)@ == old(out)@ + long_form(word@),
{
    if is(word, "pt") {
        out.append("pentru");
    } else if is(word, "ptr") {
        out.append("pentru");
    } else if is(word, "dl") {
        out.append("domnul");
    } else if is(word, "dna") {
        out.append("doamna");
    } else if is(word, "Y'ought'n't've") {
        out.append("You all ought not to have");
    } else {
        out.append(word.as_str());
    }
}

/// Writes out the abbreviations of a text: the text is cut at every space,
/// and each piece is followed by a space again, in its long form where it is
/// a short form.
pub fn expand_abbreviations(text: &str) -> (expanded: String)
    ensures
        expanded@ == written_out(pieces(text@, ' ')),
{
    let words = split_on(text, ' ');
    let ghost listed = words@.map_values(|p: String| p@);
    let mut expanded = String::new();
    let mut i: usize = 0;
    assert(expanded@ =~= written_out(listed.take(0)));
    while i < words.len()
        invariant
            0 <= i <= words@.len(),
            listed == words@.map_values(|p: String| p@),
            expanded@ == written_out(listed.take(i as int)),
        decreases words@.len() - i,
    {
        proof {
            assert(listed.take(i + 1).drop_last() =~= listed.take(i as int));
            assert(listed.take(i + 1).last() == words@[i as int]@);
        }
        push_long_form(&mut expanded, &words[i]);
        expanded.push(' ');
        i += 1;
    }
    proof {
        assert(listed.take(i as int) =~= listed);
    }
    expanded
}

} // verus!
