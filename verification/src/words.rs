//! Characters and tokens: which characters separate words, how a word is
//! case-folded, and how a text falls apart into tokens.

use vstd::multiset::Multiset;
use vstd::prelude::*;
use vstd::string::*;

verus! {

/// ASCII whitespace: space, tab, line feed, form feed, carriage return.
pub open spec fn is_ascii_whitespace(c: char) -> bool {
    c == ' ' || c == '\t' || c == '\n' || c == '\x0C' || c == '\r'
}

/// ASCII punctuation: the four blocks of printable ASCII that are neither
/// letters, digits nor the space.
pub open spec fn is_ascii_punctuation(c: char) -> bool {
    ('!' <= c && c <= '/') || (':' <= c && c <= '@') || ('[' <= c && c <= '`') || ('{' <= c && c <= '~')
}

/// A separator ends a token: any ASCII whitespace, and any ASCII punctuation
/// but the apostrophe, which stays inside a word.
pub open spec fn is_separator(c: char) -> bool {
    is_ascii_whitespace(c) || (c != '\'' && is_ascii_punctuation(c))
}

/// Decides whether `c` separates two tokens.
pub fn separates(c: char) -> (b: bool)
    ensures
        b == is_separator(c),
{
    let blank = c == ' ' || c == '\t' || c == '\n' || c == '\x0C' || c == '\r';
    let mark = ('!' <= c && c <= '/') || (':' <= c && c <= '@') || ('[' <= c && c <= '`') || ('{'
        <= c && c <= '~');
    blank || (c != '\'' && mark)
}

/// The ASCII lower-case form of one character: `A`..`Z` map to `a`..`z`,
/// every other character stays.
pub open spec fn fold_char(c: char) -> char {
    if 'A' <= c && c <= 'Z' {
        ((c as u8) + 32) as char
    } else {
        c
    }
}

/// Folds one character to ASCII lower case.
pub fn lower_char(c: char) -> (r: char)
    ensures
        r == fold_char(c),
{
    if 'A' <= c && c <= 'Z' {
        ((c as u8) + 32) as char
    } else {
        c
    }
}

/// The ASCII lower-case form of a word, character by character.
pub open spec fn fold_case(word: Seq<char>) -> Seq<char> {
    word.map_values(|c: char| fold_char(c))
}

/// The tokens of a text, in the order in which they occur.
///
/// A separator adds nothing. Any other character either extends the token
/// that the character before it belongs to, or, at the start of the text and
/// after a separator, opens a new token.
pub open spec fn tokens(text: Seq<char>) -> Seq<Seq<char>>
    decreases text.len(),
{
    if text.len() == 0 {
        Seq::empty()
    } else if is_separator(text.last()) {
        tokens(text.drop_last())
    } else if text.len() >= 2 && !is_separator(text[text.len() - 2]) {
        let before = tokens(text.drop_last());
        before.drop_last().push(before.last().push(text.last()))
    } else {
        tokens(text.drop_last()).push(seq![text.last()])
    }
}

/// The tokens of a text, each folded to ASCII lower case.
pub open spec fn folded_tokens(text: Seq<char>) -> Seq<Seq<char>> {
    tokens(text).map_values(|t: Seq<char>| fold_case(t))
}

/// The words of a text as a bag: each token, as often as it occurs.
pub open spec fn word_bag(text: Seq<char>) -> Multiset<Seq<char>> {
    tokens(text).to_multiset()
}

/// The words of a text as a bag, after case folding.
pub open spec fn folded_word_bag(text: Seq<char>) -> Multiset<Seq<char>> {
    folded_tokens(text).to_multiset()
}

/// Whether `word` holds no separator.
pub open spec fn separator_free(word: Seq<char>) -> bool {
    forall|i: int| 0 <= i < word.len() ==> !is_separator(#[trigger] word[i])
}

/// A text that ends in a character of a word has at least one token, and its
/// last token ends in that character.
pub proof fn lemma_open_token(text: Seq<char>)
    requires
        text.len() > 0,
        !is_separator(text.last()),
    ensures
        tokens(text).len() > 0,
        tokens(text).last().len() > 0,
        tokens(text).last().last() == text.last(),
    decreases text.len(),
{
    if text.len() >= 2 && !is_separator(text[text.len() - 2]) {
        lemma_open_token(text.drop_last());
    }
}

/// Every token is a non-empty run without a separator.
pub proof fn lemma_tokens_are_words(text: Seq<char>)
    ensures
        forall|k: int|
            0 <= k < tokens(text).len() ==> (#[trigger] tokens(text)[k]).len() > 0
                && separator_free(tokens(text)[k]),
    decreases text.len(),
{
    if text.len() > 0 {
        let head = text.drop_last();
        let before = tokens(head);
        lemma_tokens_are_words(head);
        if is_separator(text.last()) {
            assert(tokens(text) == before);
        } else if text.len() >= 2 && !is_separator(text[text.len() - 2]) {
            lemma_open_token(head);
            let grown = before.last().push(text.last());
            assert(tokens(text) == before.drop_last().push(grown));
            assert(separator_free(before.last()));
            assert(separator_free(grown)) by {
                assert forall|i: int| 0 <= i < grown.len() implies !is_separator(
                    #[trigger] grown[i],
                ) by {
                    if i < before.last().len() {
                        assert(grown[i] == before.last()[i]);
                    }
                }
            }
            assert forall|k: int| 0 <= k < tokens(text).len() implies (#[trigger] tokens(
                text,
            )[k]).len() > 0 && separator_free(tokens(text)[k]) by {
                if k < before.len() - 1 {
                    assert(tokens(text)[k] == before[k]);
                } else {
                    assert(tokens(text)[k] == grown);
                }
            }
        } else {
            let fresh = seq![text.last()];
            assert(tokens(text) == before.push(fresh));
            assert(separator_free(fresh));
            assert forall|k: int| 0 <= k < tokens(text).len() implies (#[trigger] tokens(
                text,
            )[k]).len() > 0 && separator_free(tokens(text)[k]) by {
                if k < before.len() {
                    assert(tokens(text)[k] == before[k]);
                } else {
                    assert(tokens(text)[k] == fresh);
                }
            }
        }
    }
}

/// A non-empty run without a separator is its own single token.
pub proof fn lemma_word_is_one_token(word: Seq<char>)
    requires
        word.len() > 0,
        separator_free(word),
    ensures
        tokens(word) == seq![word],
    decreases word.len(),
{
    if word.len() == 1 {
        assert(tokens(word.drop_last()) =~= Seq::<Seq<char>>::empty());
        assert(tokens(word) =~= seq![seq![word.last()]]);
        assert(seq![word.last()] =~= word);
    } else {
        let head = word.drop_last();
        assert(separator_free(head)) by {
            assert forall|i: int| 0 <= i < head.len() implies !is_separator(#[trigger] head[i]) by {
                assert(head[i] == word[i]);
            }
        }
        lemma_word_is_one_token(head);
        assert(!is_separator(word[word.len() - 2]));
        assert(head.push(word.last()) =~= word);
        assert(tokens(word) =~= seq![word]);
    }
}

/// Tokens never reach across a separator: the tokens of two texts joined by a
/// separator are those of the first, then those of the second.
pub proof fn lemma_tokens_split(left: Seq<char>, mark: char, right: Seq<char>)
    requires
        is_separator(mark),
    ensures
        tokens(left.push(mark) + right) == tokens(left) + tokens(right),
    decreases right.len(),
{
    let whole = left.push(mark) + right;
    if right.len() == 0 {
        assert(whole =~= left.push(mark));
        assert(whole.drop_last() =~= left);
        assert(tokens(left) + tokens(right) =~= tokens(left));
    } else {
        let head = right.drop_last();
        let c = right.last();
        assert(whole.drop_last() =~= left.push(mark) + head);
        assert(whole.last() == c);
        lemma_tokens_split(left, mark, head);
        if is_separator(c) {
        } else if right.len() >= 2 && !is_separator(right[right.len() - 2]) {
            assert(whole[whole.len() - 2] == right[right.len() - 2]);
            lemma_open_token(head);
            let a = tokens(left);
            let b = tokens(head);
            assert((a + b).drop_last() =~= a + b.drop_last());
            assert((a + b).last() == b.last());
            assert((a + b.drop_last()).push(b.last().push(c)) =~= a + b.drop_last().push(
                b.last().push(c),
            ));
        } else {
            assert(whole[whole.len() - 2] == if right.len() >= 2 {
                right[right.len() - 2]
            } else {
                mark
            });
            assert((tokens(left) + tokens(head)).push(seq![c]) =~= tokens(left) + tokens(head).push(
                seq![c],
            ));
        }
    }
}

/// Whether the end of `text` lies inside a token.
pub open spec fn ends_in_word(text: Seq<char>) -> bool {
    text.len() > 0 && !is_separator(text.last())
}

/// The token that the end of `text` lies inside, empty where it lies in none.
pub open spec fn pending(text: Seq<char>) -> Seq<char> {
    if ends_in_word(text) {
        tokens(text).last()
    } else {
        Seq::empty()
    }
}

/// The tokens of `text` that no further character can extend.
pub open spec fn settled(text: Seq<char>) -> Seq<Seq<char>> {
    if ends_in_word(text) {
        tokens(text).drop_last()
    } else {
        tokens(text)
    }
}

/// The tokens of a text are its settled tokens, then the pending one if the
/// text ends inside a token.
pub proof fn lemma_settled_then_pending(text: Seq<char>)
    ensures
        ends_in_word(text) ==> pending(text).len() > 0 && tokens(text) == settled(text).push(
            pending(text),
        ),
        !ends_in_word(text) ==> pending(text).len() == 0 && tokens(text) == settled(text),
{
    if ends_in_word(text) {
        lemma_open_token(text);
        assert(tokens(text) =~= settled(text).push(pending(text)));
    }
}

/// How one more character moves the scan: a separator settles the pending
/// token, any other character extends it.
pub proof fn lemma_scan_step(text: Seq<char>, c: char)
    ensures
        is_separator(c) ==> settled(text.push(c)) == tokens(text) && pending(text.push(c)).len()
            == 0,
        !is_separator(c) ==> settled(text.push(c)) == settled(text) && pending(text.push(c))
            == pending(text).push(c),
{
    let next = text.push(c);
    assert(next.drop_last() =~= text);
    assert(next.last() == c);
    if !is_separator(c) {
        lemma_open_token(next);
        if ends_in_word(text) {
            lemma_open_token(text);
            assert(next[next.len() - 2] == text.last());
            let before = tokens(text);
            assert(tokens(next) == before.drop_last().push(before.last().push(c)));
            assert(tokens(next).drop_last() =~= before.drop_last());
        } else {
            if text.len() > 0 {
                assert(next[next.len() - 2] == text.last());
            }
            assert(tokens(next) == tokens(text).push(seq![c]));
            assert(tokens(next).drop_last() =~= tokens(text));
            assert(seq![c] =~= Seq::<char>::empty().push(c));
        }
    }
}

/// What is settled after part of a text stays a prefix of the tokens of the
/// whole text.
pub proof fn lemma_settled_is_prefix(text: Seq<char>, i: int)
    requires
        0 <= i <= text.len(),
    ensures
        settled(text.take(i)).len() <= tokens(text).len(),
        settled(text.take(i)) == tokens(text).take(settled(text.take(i)).len() as int),
    decreases text.len() - i,
{
    if i == text.len() {
        assert(text.take(i) =~= text);
        lemma_settled_then_pending(text);
        assert(settled(text) =~= tokens(text).take(settled(text).len() as int));
    } else {
        lemma_settled_is_prefix(text, i + 1);
        let here = text.take(i);
        let c = text[i];
        assert(text.take(i + 1) =~= here.push(c));
        lemma_scan_step(here, c);
        lemma_settled_then_pending(here);
        let far = settled(text.take(i + 1));
        assert(settled(here) =~= far.take(settled(here).len() as int));
        assert(settled(here) =~= tokens(text).take(settled(here).len() as int));
    }
}

/// A bag made of a prefix of a sequence holds nothing more often than the bag
/// made of the whole sequence.
pub proof fn lemma_prefix_bag(items: Seq<Seq<char>>, n: int, w: Seq<char>)
    requires
        0 <= n <= items.len(),
    ensures
        items.take(n).to_multiset().count(w) <= items.to_multiset().count(w),
{
    broadcast use vstd::multiset::group_multiset_axioms;

    assert(items =~= items.take(n) + items.skip(n));
    vstd::seq_lib::lemma_multiset_commutative(items.take(n), items.skip(n));
}

/// A text has at most as many tokens as characters.
pub proof fn lemma_token_count(text: Seq<char>)
    ensures
        tokens(text).len() <= text.len(),
    decreases text.len(),
{
    if text.len() > 0 {
        lemma_token_count(text.drop_last());
        if !is_separator(text.last()) && text.len() >= 2 && !is_separator(text[text.len() - 2]) {
            lemma_open_token(text.drop_last());
        }
    }
}

/// No word occurs in a text more often than the text has characters, written
/// or folded.
pub proof fn lemma_word_count(text: Seq<char>, w: Seq<char>)
    ensures
        word_bag(text).count(w) <= text.len(),
        folded_word_bag(text).count(w) <= text.len(),
{
    broadcast use vstd::multiset::group_multiset_axioms;

    lemma_token_count(text);
    tokens(text).to_multiset_ensures();
    folded_tokens(text).to_multiset_ensures();
}

/// The tokens of `text`, in the order in which they occur.
pub fn split_tokens(text: &str) -> (found: Vec<String>)
    ensures
        found@.map_values(|t: String| t@) == tokens(text@),
{
    let ghost all = text@;
    let ghost view = |t: String| t@;
    let mut found: Vec<String> = Vec::new();
    let mut cur = String::new();
    proof {
        assert(all.take(0) =~= Seq::<char>::empty());
        assert(found@.map_values(view) =~= settled(all.take(0)));
    }
    for c in it: text.chars()
        invariant
            it.seq() == all,
            view == |t: String| t@,
            found@.map_values(view) == settled(all.take(it.index() as int)),
            cur@ == pending(all.take(it.index() as int)),
    {
        let ghost here = all.take(it.index() as int);
        proof {
            assert(all.take(it.index() + 1) =~= here.push(c));
            lemma_scan_step(here, c);
            lemma_settled_then_pending(here);
        }
        if separates(c) {
            if !cur.as_str().is_empty() {
                proof {
                    assert(found@.push(cur).map_values(view) =~= found@.map_values(view).push(
                        cur@,
                    ));
                }
                found.push(cur);
                cur = String::new();
            }
        } else {
            cur.push(c);
        }
    }
    proof {
        assert(all.take(all.len() as int) =~= all);
        lemma_settled_then_pending(all);
    }
    if !cur.as_str().is_empty() {
        proof {
            assert(found@.push(cur).map_values(view) =~= found@.map_values(view).push(cur@));
        }
        found.push(cur);
    }
    found
}

} // verus!
