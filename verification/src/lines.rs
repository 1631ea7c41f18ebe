//! Lines of a text, and the longest among them.

use crate::longest::{byte_len, utf8_len};
use vstd::prelude::*;
use vstd::string::*;

verus! {

/// The number of characters before the first line feed, or the length of the
/// text where it holds none.
pub open spec fn line_end(text: Seq<char>) -> nat
    decreases text.len(),
{
    if text.len() == 0 || text[0] == '\n' {
        0
    } else {
        1 + line_end(text.drop_first())
    }
}

/// A line without the carriage return that it may end in.
pub open spec fn without_return(line: Seq<char>) -> Seq<char> {
    if line.len() > 0 && line.last() == '\r' {
        line.drop_last()
    } else {
        line
    }
}

/// The lines of a text. A line ends at a line feed, or at a carriage return
/// followed by one; neither belongs to the line. What follows the last line
/// feed is a line of its own unless it is empty, and it keeps a carriage
/// return at its end.
pub open spec fn lines_of(text: Seq<char>) -> Seq<Seq<char>>
    decreases text.len(),
{
    if text.len() == 0 {
        Seq::empty()
    } else {
        let k = line_end(text);
        if k >= text.len() {
            seq![text]
        } else {
            seq![without_return(text.take(k as int))] + lines_of(text.skip(k as int + 1))
        }
    }
}

/// Where the first `m` characters of a text hold no line feed, the first line
/// is at least `m` long, and exactly so if a line feed comes next.
pub proof fn lemma_line_end(text: Seq<char>, m: int)
    requires
        0 <= m <= text.len(),
        forall|k: int| 0 <= k < m ==> text[k] != '\n',
    ensures
        line_end(text) >= m,
        line_end(text) <= text.len(),
        m < text.len() && text[m] == '\n' ==> line_end(text) == m,
    decreases text.len(),
{
    if text.len() == 0 || text[0] == '\n' {
    } else {
        let rest = text.drop_first();
        if m == 0 {
            lemma_line_end(rest, 0);
        } else {
            assert forall|k: int| 0 <= k < m - 1 implies rest[k] != '\n' by {
                assert(rest[k] == text[k + 1]);
            }
            lemma_line_end(rest, m - 1);
        }
    }
}

/// The lines of `text`.
pub fn lines(text: &str) -> (found: Vec<String>)
    ensures
        found@.map_values(|l: String| l@) == lines_of(text@),
{
    let ghost all = text@;
    let ghost view = |l: String| l@;
    let mut found: Vec<String> = Vec::new();
    let mut cur = String::new();
    let mut held = false;
    let ghost mut start: int = 0;
    proof {
        assert(all.skip(0) =~= all);
        assert(found@.map_values(view) + lines_of(all.skip(0)) =~= lines_of(all));
        assert(cur@ =~= all.subrange(0, 0));
    }
    for c in it: text.chars()
        invariant
            it.seq() == all,
            view == |l: String| l@,
            0 <= start <= it.index() <= all.len(),
            found@.map_values(view) + lines_of(all.skip(start)) == lines_of(all),
            forall|k: int| start <= k < it.index() ==> all[k] != '\n',
            cur@ + (if held {
                seq!['\r']
            } else {
                Seq::<char>::empty()
            }) == all.subrange(start, it.index() as int),
            !held && cur@.len() > 0 ==> cur@.last() != '\r',
    {
        let ghost i = it.index() as int;
        let ghost part = all.subrange(start, i);
        assert(all[i] == c);
        if c == '\n' {
            proof {
                let tail = all.skip(start);
                assert forall|k: int| 0 <= k < i - start implies tail[k] != '\n' by {
                    assert(tail[k] == all[start + k]);
                }
                assert(tail[i - start] == '\n');
                lemma_line_end(tail, i - start);
                assert(tail.take(i - start) =~= part);
                assert(tail.skip(i - start + 1) =~= all.skip(i + 1));
                if held {
                    assert(part.last() == '\r');
                    assert(part.drop_last() =~= cur@);
                } else {
                    assert(part =~= cur@);
                }
                assert(without_return(part) == cur@);
                assert(lines_of(tail) == seq![cur@] + lines_of(all.skip(i + 1)));
                assert(found@.push(cur).map_values(view) =~= found@.map_values(view).push(cur@));
                assert(found@.map_values(view).push(cur@) + lines_of(all.skip(i + 1))
                    =~= found@.map_values(view) + (seq![cur@] + lines_of(all.skip(i + 1))));
            }
            found.push(cur);
            cur = String::new();
            held = false;
            proof {
                start = i + 1;
                assert(cur@ =~= all.subrange(start, i + 1));
            }
        } else {
            if held {
                cur.push('\r');
            }
            if c == '\r' {
                held = true;
            } else {
                held = false;
                cur.push(c);
            }
            proof {
                assert(all.subrange(start, i + 1) =~= part.push(c));
                assert(cur@ + (if held {
                    seq!['\r']
                } else {
                    Seq::<char>::empty()
                }) =~= part.push(c));
            }
        }
    }
    if held {
        cur.push('\r');
    }
    proof {
        let tail = all.skip(start);
        assert(cur@ =~= all.subrange(start, all.len() as int));
        assert(tail =~= cur@);
        assert forall|k: int| 0 <= k < tail.len() implies tail[k] != '\n' by {
            assert(tail[k] == all[start + k]);
        }
        lemma_line_end(tail, tail.len() as int);
    }
    if !cur.as_str().is_empty() {
        proof {
            assert(found@.push(cur).map_values(view) =~= found@.map_values(view).push(cur@));
            assert(found@.map_values(view).push(cur@) =~= found@.map_values(view) + seq![cur@]);
        }
        found.push(cur);
    } else {
        proof {
            assert(found@.map_values(view) + Seq::<Seq<char>>::empty() =~= found@.map_values(view));
        }
    }
    found
}

/// The size of a line: its bytes, or its characters.
pub open spec fn line_size(line: Seq<char>, by_bytes: bool) -> nat {
    if by_bytes {
        byte_len(line)
    } else {
        line.len()
    }
}

/// The longest of some lines with its size: the first line of the largest
/// size, or the empty line with size zero where no line has a size.
pub open spec fn longest_line(lines: Seq<Seq<char>>, by_bytes: bool) -> (nat, Seq<char>)
    decreases lines.len(),
{
    if lines.len() == 0 {
        (0, Seq::empty())
    } else {
        let best = longest_line(lines.drop_last(), by_bytes);
        if line_size(lines.last(), by_bytes) > best.0 {
            (line_size(lines.last(), by_bytes), lines.last())
        } else {
            best
        }
    }
}

/// The longest of the lines of `text` under either measure.
fn longest_line_of(text: &str, by_bytes: bool) -> (longest: (usize, String))
    ensures
        (longest.0 as nat, longest.1@) == longest_line(lines_of(text@), by_bytes),
{
    let all = lines(text);
    let ghost listed = all@.map_values(|l: String| l@);
    let mut best: String = String::new();
    let mut max_len: usize = 0;
    let mut i: usize = 0;
    while i < all.len()
        invariant
            0 <= i <= all@.len(),
            listed == all@.map_values(|l: String| l@),
            (max_len as nat, best@) == longest_line(listed.take(i as int), by_bytes),
        decreases all@.len() - i,
    {
        let line = all[i].as_str();
        let curr_len = if by_bytes {
            utf8_len(line)
        } else {
            line.unicode_len()
        };
        proof {
            assert(listed.take(i + 1).drop_last() =~= listed.take(i as int));
            assert(listed.take(i + 1).last() == line@);
        }
        if curr_len > max_len {
            max_len = curr_len;
            best = String::from_str(line);
        }
        i += 1;
    }
    proof {
        assert(listed.take(i as int) =~= listed);
    }
    (max_len, best)
}

/// The line of `text` that takes the most bytes, with the number of its
/// bytes.
pub fn longest_line_by_bytes(text: &String) -> (longest: (usize, String))
    ensures
        (longest.0 as nat, longest.1@) == longest_line(lines_of(text@), true),
{
    longest_line_of(text.as_str(), true)
}

/// The line of `text` that has the most characters, with the number of its
/// characters.
pub fn longest_line_by_chars(text: &String) -> (longest: (usize, String))
    ensures
        (longest.0 as nat, longest.1@) == longest_line(lines_of(text@), false),
{
    longest_line_of(text.as_str(), false)
}

} // verus!
