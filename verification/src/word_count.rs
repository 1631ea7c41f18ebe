//! Counting the words of a text without regard to case, and ranking them by
//! how often they occur.

use crate::frequency::{WordFreq, WordsFrequencyMap};
use crate::longest::{byte_len, utf8_len};
use crate::report::{decimal, push_decimal};
use crate::strings::{lowercase_of, to_lowercase};
use crate::words::{split_tokens, tokens};
use vstd::prelude::*;
use vstd::string::*;

verus! {

/// A text in which a space stands in place of every apostrophe, so that an
/// apostrophe ends a word like any other mark.
pub open spec fn without_apostrophes(text: Seq<char>) -> Seq<char> {
    text.map_values(
        |c: char|
            if c == '\'' {
                ' '
            } else {
                c
            },
    )
}

/// The words of a text in lower case, in their order: the runs of characters
/// between whitespace and punctuation of any kind.
pub open spec fn lowered_words(text: Seq<char>) -> Seq<Seq<char>> {
    tokens(without_apostrophes(text)).map_values(|t: Seq<char>| lowercase_of(t))
}

/// A copy of `text` with a space in place of every apostrophe.
fn drop_apostrophes(text: &str) -> (plain: String)
    ensures
        plain@ == without_apostrophes(text@),
{
    let mut plain = String::new();
    assert(plain@ =~= without_apostrophes(text@.take(0)));
    for c in it: text.chars()
        invariant
            it.seq() == text@,
            plain@ == without_apostrophes(text@.take(it.index() as int)),
    {
        let ghost before = plain@;
        if c == '\'' {
            plain.push(' ');
        } else {
            plain.push(c);
        }
        proof {
            let i = it.index() as int;
            assert(text@.take(i + 1) =~= text@.take(i).push(c));
            assert(plain@ =~= without_apostrophes(text@.take(i + 1)));
        }
    }
    proof {
        assert(text@.take(text@.len() as int) =~= text@);
    }
    plain
}

/// Counts the words of a text without regard to case.
pub fn count_words(text: &str) -> (table: WordsFrequencyMap)
    requires
        tokens(without_apostrophes(text@)).len() <= u32::MAX,
    ensures
        table.wf(),
        table@ == lowered_words(text@).to_multiset(),
{
    broadcast use vstd::multiset::group_multiset_axioms;

    let plain = drop_apostrophes(text);
    let words = split_tokens(plain.as_str());
    let ghost lower = |t: Seq<char>| lowercase_of(t);
    let ghost listed = words@.map_values(|t: String| t@).map_values(lower);
    assert(listed == lowered_words(text@));
    let mut table = WordsFrequencyMap::new();
    let mut i: usize = 0;
    proof {
        listed.take(0).to_multiset_ensures();
        vstd::multiset::lemma_multiset_empty_len(listed.take(0).to_multiset());
    }
    while i < words.len()
        invariant
            0 <= i <= words@.len(),
            lower == |t: Seq<char>| lowercase_of(t),
            listed == words@.map_values(|t: String| t@).map_values(lower),
            listed.len() <= u32::MAX,
            table.wf(),
            table@ == listed.take(i as int).to_multiset(),
        decreases words@.len() - i,
    {
        let key = to_lowercase(words[i].as_str());
        proof {
            assert(key@ == listed[i as int]);
            assert(listed.take(i + 1) =~= listed.take(i as int).push(key@));
            vstd::seq_lib::to_multiset_build(listed.take(i as int), key@);
            listed.take(i as int).to_multiset_ensures();
            vstd::multiset::axiom_count_le_len(listed.take(i as int).to_multiset(), key@);
        }
        table.increment(key);
        i += 1;
    }
    proof {
        assert(listed.take(i as int) =~= listed);
    }
    table
}

/// Whether the counts never rise along the list.
pub open spec fn falling(entries: Seq<(Seq<char>, u32)>) -> bool {
    forall|i: int, j: int| 0 <= i < j < entries.len() ==> entries[i].1 >= entries[j].1
}

/// The place of an entry with the highest count.
fn most_frequent(entries: &Vec<WordFreq>) -> (best: usize)
    requires
        entries@.len() > 0,
    ensures
        best < entries@.len(),
        forall|k: int| 0 <= k < entries@.len() ==> entries@[k]@.1 <= entries@[best as int]@.1,
{
    let mut best: usize = 0;
    let mut k: usize = 1;
    while k < entries.len()
        invariant
            1 <= k <= entries@.len(),
            best < k,
            forall|m: int| 0 <= m < k ==> entries@[m]@.1 <= entries@[best as int]@.1,
        decreases entries@.len() - k,
    {
        if entries[k].appearances() > entries[best].appearances() {
            best = k;
        }
        k += 1;
    }
    best
}

/// Ranks the entries of a table: the same entries, the most frequent first.
/// Entries of equal count come in no particular order.
pub fn ranked(entries: Vec<WordFreq>) -> (ranking: Vec<WordFreq>)
    ensures
        ranking@.map_values(|e: WordFreq| e@).to_multiset() == entries@.map_values(
            |e: WordFreq| e@,
        ).to_multiset(),
        falling(ranking@.map_values(|e: WordFreq| e@)),
{
    broadcast use vstd::multiset::group_multiset_axioms;

    let ghost view = |e: WordFreq| e@;
    let ghost all = entries@.map_values(view).to_multiset();
    let mut rest = entries;
    let mut ranking: Vec<WordFreq> = Vec::new();
    proof {
        ranking@.map_values(view).to_multiset_ensures();
        vstd::multiset::lemma_multiset_empty_len(ranking@.map_values(view).to_multiset());
        assert(all =~= ranking@.map_values(view).to_multiset().add(
            rest@.map_values(view).to_multiset(),
        ));
    }
    while rest.len() > 0
        invariant
            view == |e: WordFreq| e@,
            all == ranking@.map_values(view).to_multiset().add(
                rest@.map_values(view).to_multiset(),
            ),
            falling(ranking@.map_values(view)),
            forall|i: int, k: int|
                0 <= i < ranking@.len() && 0 <= k < rest@.len() ==> ranking@[i]@.1
                    >= rest@[k]@.1,
        decreases rest@.len(),
    {
        let ghost ranked_before = ranking@.map_values(view);
        let ghost rest_before = rest@.map_values(view);
        let ghost rest_entries = rest@;
        let best = most_frequent(&rest);
        proof {
            assert forall|k: int| 0 <= k < rest_before.len() implies rest_before[k].1
                <= rest_before[best as int].1 by {
                assert(rest_before[k] == rest_entries[k]@);
            }
        }
        let entry = rest.remove(best);
        proof {
            assert(rest@.map_values(view) =~= rest_before.remove(best as int));
            vstd::seq_lib::to_multiset_remove(rest_before, best as int);
            assert(rest_before[best as int] == entry@);
            rest_before.to_multiset_ensures();
            assert(rest_before.contains(entry@));
            assert(ranking@.push(entry).map_values(view) =~= ranked_before.push(entry@));
            vstd::seq_lib::to_multiset_build(ranked_before, entry@);
            assert(ranked_before.to_multiset().insert(entry@).add(
                rest_before.to_multiset().remove(entry@),
            ) =~= ranked_before.to_multiset().add(rest_before.to_multiset()));
            assert forall|k: int| 0 <= k < rest@.len() implies entry@.1 >= rest@[k]@.1 by {
                assert(rest@[k]@ == rest_before.remove(best as int)[k]);
                if k < best {
                    assert(rest@[k]@ == rest_before[k]);
                } else {
                    assert(rest@[k]@ == rest_before[k + 1]);
                }
            }
        }
        ranking.push(entry);
    }
    proof {
        rest@.map_values(view).to_multiset_ensures();
        vstd::multiset::lemma_multiset_empty_len(rest@.map_values(view).to_multiset());
        assert(all =~= ranking@.map_values(view).to_multiset());
    }
    ranking
}

/// The width of the column of words: the most bytes that a word of the list
/// takes.
pub open spec fn widest(entries: Seq<(Seq<char>, u32)>) -> nat
    decreases entries.len(),
{
    if entries.len() == 0 {
        0
    } else {
        let before = widest(entries.drop_last());
        if byte_len(entries.last().0) > before {
            byte_len(entries.last().0)
        } else {
            before
        }
    }
}

/// A word filled up with spaces on the right to `width` characters; a word
/// that is as long or longer stays as it is.
pub open spec fn padded(word: Seq<char>, width: nat) -> Seq<char> {
    if word.len() < width {
        word + Seq::new((width - word.len()) as nat, |i: int| ' ')
    } else {
        word
    }
}

/// The line of one word of the ranking: the word in its column, an arrow,
/// the count.
pub open spec fn ranking_line(entry: (Seq<char>, u32), width: nat) -> Seq<char> {
    padded(entry.0, width) + " => "@ + decimal(entry.1 as nat)
}

/// The width of the column of words.
fn column_width(entries: &Vec<WordFreq>) -> (width: usize)
    ensures
        width == widest(entries@.map_values(|e: WordFreq| e@)),
{
    let ghost listed = entries@.map_values(|e: WordFreq| e@);
    let mut width: usize = 0;
    let mut i: usize = 0;
    while i < entries.len()
        invariant
            0 <= i <= entries@.len(),
            listed == entries@.map_values(|e: WordFreq| e@),
            width == widest(listed.take(i as int)),
        decreases entries@.len() - i,
    {
        proof {
            assert(listed.take(i + 1).drop_last() =~= listed.take(i as int));
            assert(listed.take(i + 1).last() == entries@[i as int]@);
        }
        let n = utf8_len(entries[i].word());
        if n > width {
            width = n;
        }
        i += 1;
    }
    proof {
        assert(listed.take(i as int) =~= listed);
    }
    width
}

/// The lines of a ranking, one for each word, the words in a column as wide
/// as the longest of them takes bytes.
pub fn ranking_lines(ranking: &Vec<WordFreq>) -> (lines: Vec<String>)
    ensures
        lines@.len() == ranking@.len(),
        forall|i: int|
            0 <= i < lines@.len() ==> (#[trigger] lines@[i])@ == ranking_line(
                ranking@[i]@,
                widest(ranking@.map_values(|e: WordFreq| e@)),
            ),
{
    let width = column_width(ranking);
    let mut lines: Vec<String> = Vec::new();
    let mut i: usize = 0;
    while i < ranking.len()
        invariant
            0 <= i <= ranking@.len(),
            lines@.len() == i,
            width == widest(ranking@.map_values(|e: WordFreq| e@)),
            forall|k: int|
                0 <= k < i ==> (#[trigger] lines@[k])@ == ranking_line(ranking@[k]@, width as nat),
        decreases ranking@.len() - i,
    {
        let entry = &ranking[i];
        let mut line = String::from_str(entry.word());
        let mut filled: usize = entry.word().unicode_len();
        let ghost word = entry@.0;
        assert(line@ =~= word + Seq::new(0, |i: int| ' '));
        while filled < width
            invariant
                word.len() <= filled,
                filled <= width || filled == word.len(),
                line@ == word + Seq::new((filled - word.len()) as nat, |i: int| ' '),
            decreases width - filled,
        {
            line.push(' ');
            filled += 1;
            assert(line@ =~= word + Seq::new((filled - word.len()) as nat, |i: int| ' '));
        }
        proof {
            assert(line@ =~= padded(word, width as nat));
        }
        line.append(" => ");
        push_decimal(&mut line, entry.appearances() as u64);
        lines.push(line);
        i += 1;
    }
    lines
}

} // verus!
