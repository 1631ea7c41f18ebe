//! Fields of a line: the pieces between the occurrences of one separating
//! character, empty pieces included.

use vstd::prelude::*;
use vstd::string::*;

verus! {

/// The pieces of `text` between the occurrences of `mark`. There is always
/// at least one piece; a piece is empty where two marks meet and where the
/// text begins or ends with one.
pub open spec fn pieces(text: Seq<char>, mark: char) -> Seq<Seq<char>>
    decreases text.len(),
{
    if text.len() == 0 {
        seq![Seq::empty()]
    } else if text.last() == mark {
        pieces(text.drop_last(), mark).push(Seq::empty())
    } else {
        let before = pieces(text.drop_last(), mark);
        before.drop_last().push(before.last().push(text.last()))
    }
}

/// The pieces of `text` between the occurrences of `mark`.
pub fn split_on(text: &str, mark: char) -> (found: Vec<String>)
    ensures
        found@.map_values(|p: String| p@) == pieces(text@, mark),
        found@.len() >= 1,
{
    let ghost all = text@;
    let ghost view = |p: String| p@;
    let mut found: Vec<String> = Vec::new();
    let mut cur = String::new();
    proof {
        assert(all.take(0) =~= Seq::<char>::empty());
        assert(found@.map_values(view).push(cur@) =~= pieces(all.take(0), mark));
    }
    for c in it: text.chars()
        invariant
            it.seq() == all,
            view == |p: String| p@,
            pieces(all.take(it.index() as int), mark) == found@.map_values(view).push(cur@),
    {
        let ghost i = it.index() as int;
        let ghost before = found@.map_values(view).push(cur@);
        proof {
            assert(all.take(i + 1).drop_last() =~= all.take(i));
            assert(all.take(i + 1).last() == c);
        }
        if c == mark {
            proof {
                assert(found@.push(cur).map_values(view) =~= found@.map_values(view).push(cur@));
            }
            found.push(cur);
            cur = String::new();
        } else {
            proof {
                assert(before.drop_last() =~= found@.map_values(view));
            }
            cur.push(c);
        }
    }
    proof {
        assert(all.take(all.len() as int) =~= all);
        assert(found@.push(cur).map_values(view) =~= found@.map_values(view).push(cur@));
    }
    found.push(cur);
    found
}

} // verus!
