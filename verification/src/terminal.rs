//! A small command terminal: how a line of input is read, which command its
//! first word names, and what the simple commands have to say.

use crate::report::{decimal, push_decimal};
use crate::strings::{lowercase_of, to_lowercase};
use vstd::prelude::*;
use vstd::string::*;

verus! {

/// The words of a line: its runs of characters between spaces, in order. A
/// space adds nothing; any other character extends the word that the
/// character before it belongs to, or opens a new word after a space and at
/// the start.
pub open spec fn words_of(line: Seq<char>) -> Seq<Seq<char>>
    decreases line.len(),
{
    if line.len() == 0 {
        Seq::empty()
    } else if line.last() == ' ' {
        words_of(line.drop_last())
    } else if line.len() >= 2 && line[line.len() - 2] != ' ' {
        let before = words_of(line.drop_last());
        before.drop_last().push(before.last().push(line.last()))
    } else {
        words_of(line.drop_last()).push(seq![line.last()])
    }
}

/// The words of `line`.
pub fn split_words(line: &str) -> (words: Vec<String>)
    ensures
        words@.map_values(|w: String| w@) == words_of(line@),
{
    let ghost all = line@;
    let ghost view = |w: String| w@;
    let mut words: Vec<String> = Vec::new();
    let mut cur = String::new();
    proof {
        assert(all.take(0) =~= Seq::<char>::empty());
        assert(words@.map_values(view) =~= words_of(all.take(0)));
    }
    for c in it: line.chars()
        invariant
            it.seq() == all,
            view == |w: String| w@,
            0 <= it.index() <= all.len(),
            cur@.len() > 0 <==> it.index() > 0 && all[it.index() - 1] != ' ',
            words_of(all.take(it.index() as int)) == if cur@.len() > 0 {
                words@.map_values(view).push(cur@)
            } else {
                words@.map_values(view)
            },
    {
        let ghost i = it.index() as int;
        let ghost here = all.take(i);
        let ghost next = all.take(i + 1);
        proof {
            assert(next.drop_last() =~= here);
            assert(next.last() == c);
            if i > 0 {
                assert(next[next.len() - 2] == all[i - 1]);
            }
        }
        if c == ' ' {
            if !cur.as_str().is_empty() {
                proof {
                    assert(words@.push(cur).map_values(view) =~= words@.map_values(view).push(
                        cur@,
                    ));
                }
                words.push(cur);
                cur = String::new();
            }
        } else {
            let ghost grown = cur@.push(c);
            proof {
                if cur@.len() > 0 {
                    let before = words@.map_values(view).push(cur@);
                    assert(before.drop_last() =~= words@.map_values(view));
                    assert(before.last() == cur@);
                } else {
                    assert(grown =~= seq![c]);
                }
            }
            cur.push(c);
        }
    }
    proof {
        assert(all.take(all.len() as int) =~= all);
    }
    if !cur.as_str().is_empty() {
        proof {
            assert(words@.push(cur).map_values(view) =~= words@.map_values(view).push(cur@));
        }
        words.push(cur);
    }
    words
}

/// What a line of input asks for.
pub enum Request {
    /// The line holds no word.
    Nothing,
    /// The line asks the terminal to stop.
    Stop,
    /// The line calls a command with arguments.
    Call {
        /// The word that names the command.
        name: String,
        /// The words after it.
        args: Vec<String>,
    },
}

/// What a line with these words asks for.
pub open spec fn asks_for(words: Seq<Seq<char>>, request: Request) -> bool {
    if words.len() == 0 {
        request is Nothing
    } else if words[0] == "stop"@ {
        request is Stop
    } else {
        request matches Request::Call { name, args } && name@ == words[0] && args@.map_values(
            |w: String| w@,
        ) == words.skip(1)
    }
}

/// Reads a line of input: its first word names a command, `stop` stops the
/// terminal, and a line without words asks for nothing.
pub fn parse_line(line: &str) -> (request: Request)
    ensures
        asks_for(words_of(line@), request),
{
    let mut words = split_words(line);
    let ghost listed = words@.map_values(|w: String| w@);
    if words.len() == 0 {
        return Request::Nothing;
    }
    let name = words.remove(0);
    proof {
        assert(name@ == listed[0]);
        assert(words@.map_values(|w: String| w@) =~= listed.skip(1));
    }
    let stop = String::from_str("stop");
    if name.eq(&stop) {
        return Request::Stop;
    }
    Request::Call { name, args: words }
}

/// What the terminal found under a name.
pub enum Lookup {
    /// The command at this place has the name.
    Found(usize),
    /// No command has the name; this one may have been meant.
    NotFound(String),
}

/// The command to try in place of an unknown one: the last of the commands
/// whose name differs from the word in case only, or `help`.
pub open spec fn suggestion(names: Seq<Seq<char>>, word: Seq<char>) -> Seq<char>
    decreases names.len(),
{
    if names.len() == 0 {
        "help"@
    } else if lowercase_of(names.last()) == lowercase_of(word) {
        names.last()
    } else {
        suggestion(names.drop_last(), word)
    }
}

/// The suggestion for `word` where its lower-case form is known.
fn suggest(names: &Vec<String>, lowered: &String, Ghost(word): Ghost<Seq<char>>) -> (hint: String)
    requires
        lowered@ == lowercase_of(word),
    ensures
        hint@ == suggestion(names@.map_values(|n: String| n@), word),
{
    let ghost listed = names@.map_values(|n: String| n@);
    let mut i: usize = names.len();
    assert(listed.take(i as int) =~= listed);
    while i > 0
        invariant
            0 <= i <= names@.len(),
            listed == names@.map_values(|n: String| n@),
            lowered@ == lowercase_of(word),
            suggestion(listed, word) == suggestion(listed.take(i as int), word),
        decreases i,
    {
        proof {
            assert(listed.take(i as int).drop_last() =~= listed.take(i - 1));
            assert(listed.take(i as int).last() == names@[i - 1]@);
        }
        let lower_name = to_lowercase(names[i - 1].as_str());
        if lower_name.eq(lowered) {
            return names[i - 1].clone();
        }
        i -= 1;
    }
    proof {
        assert(listed.take(0).len() == 0);
    }
    String::from_str("help")
}

/// Finds the command that `word` names: the first with exactly this name.
/// Where there is none, a command is suggested.
pub fn lookup(names: &Vec<String>, word: &str) -> (found: Lookup)
    ensures
        match found {
            Lookup::Found(i) => i < names@.len() && names@[i as int]@ == word@ && forall|j: int|
                0 <= j < i ==> names@[j]@ != word@,
            Lookup::NotFound(hint) => (forall|j: int| 0 <= j < names@.len() ==> names@[j]@ != word@)
                && hint@ == suggestion(names@.map_values(|n: String| n@), word@),
        },
{
    let wanted = String::from_str(word);
    let mut i: usize = 0;
    while i < names.len()
        invariant
            0 <= i <= names@.len(),
            wanted@ == word@,
            forall|j: int| 0 <= j < i ==> names@[j]@ != word@,
        decreases names@.len() - i,
    {
        if names[i].eq(&wanted) {
            return Lookup::Found(i);
        }
        i += 1;
    }
    let lowered = to_lowercase(word);
    Lookup::NotFound(suggest(names, &lowered, Ghost(word@)))
}

/// What `ping` says.
pub fn pong() -> (said: String)
    ensures
        said@ == "pong!"@,
{
    String::from_str("pong!")
}

/// What `count` says of `n` arguments.
pub fn counted(n: usize) -> (said: String)
    ensures
        said@ == "counted "@ + decimal(n as nat) + " args"@,
{
    let mut said = String::from_str("counted ");
    push_decimal(&mut said, n as u64);
    said.append(" args");
    said
}

/// What `times` says when it has been called `n` times.
pub fn times_called(n: u32) -> (said: String)
    ensures
        said@ == "'times' command has been called "@ + decimal(n as nat) + " times."@,
{
    let mut said = String::from_str("'times' command has been called ");
    push_decimal(&mut said, n as u64);
    said.append(" times.");
    said
}

/// What to say of a command that was not found.
pub fn not_found(word: &str, hint: &str) -> (said: String)
    ensures
        said@ == "Command '"@ + word@ + "' not found. Try '"@ + hint@ + "'."@,
{
    let mut said = String::from_str("Command '");
    said.append(word);
    said.append("' not found. Try '");
    said.append(hint);
    said.append("'.");
    said
}

} // verus!
