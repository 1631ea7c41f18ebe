//! A table of hosts: lines of an address and a name, read into lines of the
//! name and the address.

use crate::fields::{pieces, split_on};
use crate::lines::{lines, lines_of};
use vstd::prelude::*;
use vstd::string::*;

verus! {

/// Whether a line is a comment: it begins with a hash sign.
pub open spec fn is_comment(line: Seq<char>) -> bool {
    line.len() > 0 && line[0] == '#'
}

/// The first of some fields that is not empty, or `kept` where all are.
pub open spec fn first_filled(fields: Seq<Seq<char>>, kept: Seq<char>) -> Seq<char>
    decreases fields.len(),
{
    if fields.len() == 0 {
        kept
    } else if fields[0].len() > 0 {
        fields[0]
    } else {
        first_filled(fields.drop_first(), kept)
    }
}

/// What is remembered from line to line: the first word of the last line
/// that was no comment, and the last second word that was found.
pub struct Words {
    pub first: Seq<char>,
    pub second: Seq<char>,
}

/// What is remembered after a line: a comment changes nothing; of any other
/// line the first field is the first word, and the second word is the first
/// later field that is not empty, or stays where the line has none.
pub open spec fn after_line(kept: Words, line: Seq<char>) -> Words {
    if is_comment(line) {
        kept
    } else {
        Words {
            first: pieces(line, ' ')[0],
            second: first_filled(pieces(line, ' ').skip(1), kept.second),
        }
    }
}

/// The line that a name and an address are reported in.
pub open spec fn entry(words: Words) -> Seq<char> {
    words.second + " => "@ + words.first
}

/// The report of some lines of a table of hosts: for every line that is no
/// comment and begins with a word, the second word and the first.
pub open spec fn reported(lines: Seq<Seq<char>>, kept: Words) -> Seq<Seq<char>>
    decreases lines.len(),
{
    if lines.len() == 0 {
        Seq::empty()
    } else {
        let now = after_line(kept, lines[0]);
        let rest = reported(lines.drop_first(), now);
        if !is_comment(lines[0]) && now.first.len() > 0 {
            seq![entry(now)] + rest
        } else {
            rest
        }
    }
}

/// Nothing remembered yet.
pub open spec fn no_words() -> Words {
    Words { first: Seq::empty(), second: Seq::empty() }
}

/// Decides whether a line is a comment.
fn starts_comment(line: &str) -> (comment: bool)
    ensures
        comment == is_comment(line@),
{
    for c in it: line.chars()
        invariant
            it.seq() == line@,
            it.index() == 0,
    {
        assert(line@[0] == c);
        return c == '#';
    }
    false
}

/// The first field after the first that is not empty, or `kept`.
fn second_of(fields: &Vec<String>, kept: String) -> (second: String)
    requires
        fields@.len() >= 1,
    ensures
        second@ == first_filled(fields@.map_values(|p: String| p@).skip(1), kept@),
{
    let ghost listed = fields@.map_values(|p: String| p@);
    let mut k: usize = 1;
    while k < fields.len()
        invariant
            1 <= k <= fields@.len(),
            listed == fields@.map_values(|p: String| p@),
            first_filled(listed.skip(1), kept@) == first_filled(listed.skip(k as int), kept@),
        decreases fields@.len() - k,
    {
        proof {
            assert(listed.skip(k as int)[0] == fields@[k as int]@);
            assert(listed.skip(k as int).drop_first() =~= listed.skip(k + 1));
        }
        if !fields[k].as_str().is_empty() {
            return fields[k].clone();
        }
        k += 1;
    }
    proof {
        assert(listed.skip(k as int).len() == 0);
    }
    kept
}

/// Reads a table of hosts into its report.
pub fn hosts_report(text: &str) -> (report: Vec<String>)
    ensures
        report@.map_values(|l: String| l@) == reported(lines_of(text@), no_words()),
{
    let all = lines(text);
    let ghost listed = all@.map_values(|l: String| l@);
    let ghost view = |l: String| l@;
    let mut report: Vec<String> = Vec::new();
    let mut first_word = String::new();
    let mut second_word = String::new();
    let mut i: usize = 0;
    proof {
        assert(listed.skip(0) =~= listed);
        assert(report@.map_values(view) + reported(listed, no_words()) =~= reported(
            listed,
            no_words(),
        ));
    }
    while i < all.len()
        invariant
            0 <= i <= all@.len(),
            view == |l: String| l@,
            listed == all@.map_values(|l: String| l@),
            report@.map_values(view) + reported(
                listed.skip(i as int),
                Words { first: first_word@, second: second_word@ },
            ) == reported(listed, no_words()),
        decreases all@.len() - i,
    {
        let ghost kept = Words { first: first_word@, second: second_word@ };
        let ghost rest = listed.skip(i as int);
        let ghost so_far = report@.map_values(view);
        proof {
            assert(rest[0] == all@[i as int]@);
            assert(rest.drop_first() =~= listed.skip(i + 1));
        }
        let line = all[i].as_str();
        if !starts_comment(line) {
            let fields = split_on(line, ' ');
            assert(fields@[0]@ == fields@.map_values(|p: String| p@)[0]);
            first_word = fields[0].clone();
            second_word = second_of(&fields, second_word);
            if !first_word.as_str().is_empty() {
                let mut found = second_word.clone();
                found.append(" => ");
                found.append(first_word.as_str());
                proof {
                    let now = after_line(kept, rest[0]);
                    assert(found@ =~= entry(now));
                    assert(report@.push(found).map_values(view) =~= so_far.push(found@));
                    assert(so_far.push(found@) + reported(listed.skip(i + 1), now) =~= so_far + (
                    seq![entry(now)] + reported(listed.skip(i + 1), now)));
                }
                report.push(found);
            }
        }
        i += 1;
    }
    proof {
        assert(listed.skip(i as int).len() == 0);
        assert(report@.map_values(view) + Seq::<Seq<char>>::empty() =~= report@.map_values(view));
    }
    report
}

} // verus!
