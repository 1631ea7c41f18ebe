//! Word-frequency tables: how often each word was seen, and in which order
//! the words first turned up.

use crate::article::Article;
use crate::words::{
    fold_case, fold_char, folded_word_bag, lemma_prefix_bag, lemma_scan_step,
    lemma_settled_is_prefix, lemma_settled_then_pending, lower_char, pending, separates, settled,
    tokens, word_bag,
};
use vstd::hash_map::StringHashMap;
use vstd::multiset::Multiset;
use vstd::prelude::*;
use vstd::string::*;

verus! {

/// One line of a frequency table: a word and the number of its occurrences.
pub struct WordFreq {
    word: String,
    appearances: u32,
}

impl View for WordFreq {
    type V = (Seq<char>, u32);

    closed spec fn view(&self) -> (Seq<char>, u32) {
        (self.word@, self.appearances)
    }
}

impl WordFreq {
    /// The word.
    pub fn word(&self) -> (word: &str)
        ensures
            word@ == self@.0,
    {
        self.word.as_str()
    }

    /// The number of occurrences of the word.
    pub fn appearances(&self) -> (n: u32)
        ensures
            n == self@.1,
    {
        self.appearances
    }
}

/// A table of words and their occurrence counts.
///
/// Seen from outside it is a bag of words: `self@.count(w)` is the number of
/// times `w` was recorded. The words are kept in the order in which each was
/// first recorded.
pub struct WordsFrequencyMap {
    words: Vec<String>,
    counts: StringHashMap<u32>,
    bag: Ghost<Multiset<Seq<char>>>,
}

impl View for WordsFrequencyMap {
    type V = Multiset<Seq<char>>;

    closed spec fn view(&self) -> Multiset<Seq<char>> {
        self.bag@
    }
}

impl WordsFrequencyMap {
    /// The distinct words of the table, in the order of their first occurrence.
    pub closed spec fn words_in_order(&self) -> Seq<Seq<char>> {
        self.words@.map_values(|w: String| w@)
    }

    /// The table's invariant: the listed words are distinct, they are exactly
    /// the words with a count, and every stored count is the word's
    /// multiplicity in the bag, which is at least one.
    pub closed spec fn wf(&self) -> bool {
        &&& self.words_in_order().no_duplicates()
        &&& forall|i: int|
            0 <= i < self.words@.len() ==> self.counts@.contains_key(
                #[trigger] self.words_in_order()[i],
            )
        &&& forall|w: Seq<char>| #[trigger]
            self.counts@.contains_key(w) ==> self.words_in_order().contains(w)
        &&& forall|w: Seq<char>| #[trigger]
            self.counts@.contains_key(w) ==> self.counts@[w] >= 1 && self.counts@[w]
                == self.bag@.count(w)
        &&& forall|w: Seq<char>|
            !self.counts@.contains_key(w) ==> #[trigger] self.bag@.count(w) == 0
    }

    /// Whether every count stays within 32 bits when the words of `extra` are
    /// added to the table.
    pub open spec fn can_absorb(&self, extra: Multiset<Seq<char>>) -> bool {
        forall|w: Seq<char>| self@.count(w) + extra.count(w) <= u32::MAX
    }

    /// In a well-formed table the listed words are distinct and are exactly
    /// the words that the bag holds.
    pub proof fn lemma_listed_words(&self)
        requires
            self.wf(),
        ensures
            self.words_in_order().no_duplicates(),
            forall|w: Seq<char>| self.words_in_order().contains(w) <==> self@.count(w) > 0,
    {
        assert forall|w: Seq<char>| self.words_in_order().contains(w) implies self@.count(w)
            > 0 by {
            let i = choose|i: int|
                0 <= i < self.words_in_order().len() && self.words_in_order()[i] == w;
            assert(self.counts@.contains_key(self.words_in_order()[i]));
        }
        assert forall|w: Seq<char>| self@.count(w) > 0 implies self.words_in_order().contains(
            w,
        ) by {
            if !self.counts@.contains_key(w) {
                assert(self.bag@.count(w) == 0);
            }
        }
    }

    /// An empty table.
    pub fn new() -> (table: Self)
        ensures
            table.wf(),
            table@ == Multiset::<Seq<char>>::empty(),
            table.words_in_order() == Seq::<Seq<char>>::empty(),
    {
        let table = Self {
            words: Vec::new(),
            counts: StringHashMap::new(),
            bag: Ghost(Multiset::empty()),
        };
        proof {
            broadcast use vstd::multiset::group_multiset_axioms;

            assert(table.words_in_order() =~= Seq::<Seq<char>>::empty());
        }
        table
    }

    /// The number of times `word` was recorded.
    pub fn count(&self, word: &str) -> (n: u32)
        requires
            self.wf(),
        ensures
            n == self@.count(word@),
    {
        match self.counts.get(word) {
            Some(n) => *n,
            None => 0,
        }
    }

    /// The number of distinct words.
    pub fn len(&self) -> (n: usize)
        requires
            self.wf(),
        ensures
            n == self.words_in_order().len(),
    {
        self.words.len()
    }

    /// Adds `times` occurrences of `word`.
    pub fn add(&mut self, word: String, times: u32)
        requires
            old(self).wf(),
            old(self)@.count(word@) + times <= u32::MAX,
        ensures
            final(self).wf(),
            forall|w: Seq<char>|
                final(self)@.count(w) == old(self)@.count(w) + if w == word@ {
                    times as nat
                } else {
                    0
                },
            final(self).words_in_order() == if old(self)@.count(word@) > 0 || times == 0 {
                old(self).words_in_order()
            } else {
                old(self).words_in_order().push(word@)
            },
    {
        broadcast use vstd::multiset::group_multiset_axioms;

        if times == 0 {
            return;
        }
        let ghost key = word@;
        let ghost before = *self;
        let seen: u32 = self.count(word.as_str());
        if seen == 0 {
            self.words.push(word.clone());
        }
        self.counts.insert(word, seen + times);
        self.bag = Ghost(self.bag@.update(key, (seen + times) as nat));
        proof {
            if seen == 0 {
                assert(self.words_in_order() =~= before.words_in_order().push(key));
                assert(!before.words_in_order().contains(key));
                assert forall|i: int, j: int|
                    0 <= i < self.words_in_order().len() && 0 <= j < self.words_in_order().len()
                        && i != j implies self.words_in_order()[i] != self.words_in_order()[j] by {
                    if i < before.words_in_order().len() {
                        assert(before.words_in_order().contains(self.words_in_order()[i]));
                    }
                    if j < before.words_in_order().len() {
                        assert(before.words_in_order().contains(self.words_in_order()[j]));
                    }
                }
            } else {
                assert(self.words_in_order() =~= before.words_in_order());
            }
            assert forall|w: Seq<char>| #[trigger]
                self.counts@.contains_key(w) implies self.words_in_order().contains(w) by {
                if w == key {
                    if seen == 0 {
                        assert(self.words_in_order()[self.words_in_order().len() - 1] == key);
                    }
                } else {
                    let i = choose|i: int|
                        0 <= i < before.words_in_order().len() && before.words_in_order()[i] == w;
                    assert(self.words_in_order()[i] == w);
                }
            }
            vstd::multiset::lemma_update_same(before.bag@, key, (seen + times) as nat);
            assert forall|w: Seq<char>| w != key implies #[trigger] self.bag@.count(w)
                == before.bag@.count(w) by {
                vstd::multiset::lemma_update_different(before.bag@, key, (seen + times) as nat, w);
            }
            assert forall|w: Seq<char>| !self.counts@.contains_key(w) implies #[trigger]
                self.bag@.count(w) == 0 by {
                assert(!before.counts@.contains_key(w));
            }
        }
    }

    /// Records one more occurrence of `word`.
    pub fn increment(&mut self, word: String)
        requires
            old(self).wf(),
            old(self)@.count(word@) < u32::MAX,
        ensures
            final(self).wf(),
            final(self)@ == old(self)@.insert(word@),
            final(self).words_in_order() == if old(self)@.count(word@) > 0 {
                old(self).words_in_order()
            } else {
                old(self).words_in_order().push(word@)
            },
    {
        broadcast use vstd::multiset::group_multiset_axioms;

        let ghost key = word@;
        self.add(word, 1);
        assert(self@ =~= old(self)@.insert(key));
    }

    /// No count of a well-formed table exceeds 32 bits.
    pub proof fn lemma_counts_fit(&self)
        requires
            self.wf(),
        ensures
            forall|w: Seq<char>| self@.count(w) <= u32::MAX,
    {
        assert forall|w: Seq<char>| self@.count(w) <= u32::MAX by {
            if self.counts@.contains_key(w) {
                assert(self.counts@[w] == self.bag@.count(w));
            } else {
                assert(self.bag@.count(w) == 0);
            }
        }
    }

    /// Whether the table can take all the words of `other` without a count
    /// leaving 32 bits.
    pub fn has_room_for(&self, other: &Self) -> (fits: bool)
        requires
            self.wf(),
            other.wf(),
        ensures
            fits == self.can_absorb(other@),
    {
        let mut i: usize = 0;
        while i < other.words.len()
            invariant
                self.wf(),
                other.wf(),
                0 <= i <= other.words@.len(),
                forall|k: int|
                    0 <= k < i ==> self@.count(#[trigger] other.words_in_order()[k])
                        + other@.count(other.words_in_order()[k]) <= u32::MAX,
            decreases other.words@.len() - i,
        {
            let word = other.words[i].as_str();
            assert(word@ == other.words_in_order()[i as int]);
            let mine: u32 = self.count(word);
            let theirs: u32 = other.count(word);
            if mine > u32::MAX - theirs {
                return false;
            }
            i += 1;
        }
        proof {
            self.lemma_counts_fit();
            other.lemma_listed_words();
            assert forall|w: Seq<char>| self@.count(w) + other@.count(w) <= u32::MAX by {
                if other@.count(w) > 0 {
                    let k = choose|k: int|
                        0 <= k < other.words_in_order().len() && other.words_in_order()[k] == w;
                    assert(self@.count(other.words_in_order()[k]) + other@.count(
                        other.words_in_order()[k],
                    ) <= u32::MAX);
                }
            }
        }
        true
    }

    /// Adds every word of `other` to the table, as often as `other` holds it.
    pub fn absorb(&mut self, other: &Self)
        requires
            old(self).wf(),
            other.wf(),
            old(self).can_absorb(other@),
        ensures
            final(self).wf(),
            final(self)@ == old(self)@.add(other@),
    {
        broadcast use vstd::multiset::group_multiset_axioms;

        let ghost start = self@;
        let ghost listed = other.words_in_order();
        proof {
            other.lemma_listed_words();
        }
        let mut i: usize = 0;
        while i < other.words.len()
            invariant
                self.wf(),
                other.wf(),
                listed == other.words_in_order(),
                listed.no_duplicates(),
                forall|w: Seq<char>| listed.contains(w) <==> other@.count(w) > 0,
                0 <= i <= other.words@.len(),
                forall|w: Seq<char>| start.count(w) + other@.count(w) <= u32::MAX,
                forall|w: Seq<char>|
                    #[trigger] self@.count(w) == start.count(w) + if listed.take(i as int).contains(
                        w,
                    ) {
                        other@.count(w)
                    } else {
                        0
                    },
            decreases other.words@.len() - i,
        {
            let word = other.words[i].clone();
            assert(word@ == listed[i as int]);
            let times: u32 = other.count(word.as_str());
            let ghost key = word@;
            let ghost before = self@;
            proof {
                assert(listed.contains(key));
                let prev = listed.take(i as int);
                if prev.contains(key) {
                    let k = choose|k: int| 0 <= k < prev.len() && prev[k] == key;
                    assert(listed[k] == listed[i as int]);
                }
                assert(before.count(key) == start.count(key));
            }
            self.add(word, times);
            proof {
                let prev = listed.take(i as int);
                let next = listed.take(i + 1);
                assert(next =~= prev.push(key));
                assert forall|w: Seq<char>|
                    #[trigger] self@.count(w) == start.count(w) + if next.contains(w) {
                        other@.count(w)
                    } else {
                        0
                    } by {
                    if w == key {
                        assert(next[i as int] == key);
                    } else {
                        if prev.contains(w) {
                            let k = choose|k: int| 0 <= k < prev.len() && prev[k] == w;
                            assert(next[k] == w);
                        }
                        if next.contains(w) {
                            let k = choose|k: int| 0 <= k < next.len() && next[k] == w;
                            assert(prev[k] == w);
                        }
                    }
                }
            }
            i += 1;
        }
        proof {
            assert(listed.take(i as int) =~= listed);
            assert(self@ =~= start.add(other@));
        }
    }

    /// The words of the table with their counts, in the order of their first
    /// occurrence.
    pub closed spec fn listing(&self) -> Seq<(Seq<char>, u32)> {
        Seq::new(
            self.words@.len(),
            |i: int| (self.words@[i]@, self.counts@[self.words@[i]@]),
        )
    }

    /// The listing of a well-formed table names each of its words once, in
    /// their order, with the word's count.
    pub proof fn lemma_listing(&self)
        requires
            self.wf(),
        ensures
            self.listing().len() == self.words_in_order().len(),
            forall|i: int|
                0 <= i < self.listing().len() ==> (#[trigger] self.listing()[i]).0
                    == self.words_in_order()[i] && self.listing()[i].1 == self@.count(
                    self.words_in_order()[i],
                ),
    {
        assert forall|i: int| 0 <= i < self.listing().len() implies (#[trigger] self.listing()[i]).0
            == self.words_in_order()[i] && self.listing()[i].1 == self@.count(
            self.words_in_order()[i],
        ) by {
            assert(self.counts@.contains_key(self.words_in_order()[i]));
        }
    }

    /// The words of the table with their counts, in the order of their first
    /// occurrence.
    pub fn entries(&self) -> (list: Vec<WordFreq>)
        requires
            self.wf(),
        ensures
            list@.len() == self.listing().len(),
            forall|i: int| 0 <= i < list@.len() ==> (#[trigger] list@[i])@ == self.listing()[i],
    {
        let mut list: Vec<WordFreq> = Vec::new();
        let mut i: usize = 0;
        while i < self.words.len()
            invariant
                self.wf(),
                0 <= i <= self.words@.len(),
                list@.len() == i,
                forall|k: int| 0 <= k < i ==> (#[trigger] list@[k])@ == self.listing()[k],
            decreases self.words@.len() - i,
        {
            let word = self.words[i].clone();
            assert(word@ == self.words_in_order()[i as int]);
            let appearances: u32 = match self.counts.get(word.as_str()) {
                Some(n) => *n,
                None => 0,
            };
            list.push(WordFreq { word, appearances });
            i += 1;
        }
        list
    }

    /// Records one token in a pair of tables: the token as written in
    /// `normal`, its case-folded form in `lowercase`.
    pub fn record(normal: &mut Self, lowercase: &mut Self, word: String)
        requires
            old(normal).wf(),
            old(lowercase).wf(),
            old(normal)@.count(word@) < u32::MAX,
            old(lowercase)@.count(fold_case(word@)) < u32::MAX,
        ensures
            final(normal).wf(),
            final(lowercase).wf(),
            final(normal)@ == old(normal)@.insert(word@),
            final(lowercase)@ == old(lowercase)@.insert(fold_case(word@)),
    {
        let folded = fold_word(word.as_str());
        normal.increment(word);
        lowercase.increment(folded);
    }

    /// Splits `s` into tokens and records each of them in the pair of tables.
    pub fn map_words(normal: &mut Self, lowercase: &mut Self, s: &str)
        requires
            old(normal).wf(),
            old(lowercase).wf(),
            old(normal).can_absorb(word_bag(s@)),
            old(lowercase).can_absorb(folded_word_bag(s@)),
        ensures
            final(normal).wf(),
            final(lowercase).wf(),
            final(normal)@ == old(normal)@.add(word_bag(s@)),
            final(lowercase)@ == old(lowercase)@.add(folded_word_bag(s@)),
    {
        broadcast use vstd::multiset::group_multiset_axioms;
        broadcast use vstd::seq_lib::group_to_multiset_ensures;

        let ghost written = normal@;
        let ghost folded = lowercase@;
        let ghost text = s@;
        let mut cur = String::new();
        let mut low = String::new();
        proof {
            assert(text.take(0).len() == 0);
            assert(settled(text.take(0)) =~= Seq::<Seq<char>>::empty());
            assert(settled(text.take(0)).map_values(|t: Seq<char>| fold_case(t))
                =~= Seq::<Seq<char>>::empty());
            assert(normal@ =~= written.add(settled(text.take(0)).to_multiset()));
            assert(lowercase@ =~= folded.add(
                settled(text.take(0)).map_values(|t: Seq<char>| fold_case(t)).to_multiset(),
            ));
            assert(fold_case(cur@) =~= low@);
        }
        for c in it: s.chars()
            invariant
                it.seq() == text,
                normal.wf(),
                lowercase.wf(),
                forall|w: Seq<char>| written.count(w) + word_bag(text).count(w) <= u32::MAX,
                forall|w: Seq<char>| folded.count(w) + folded_word_bag(text).count(w) <= u32::MAX,
                normal@ == written.add(settled(text.take(it.index() as int)).to_multiset()),
                lowercase@ == folded.add(
                    settled(text.take(it.index() as int)).map_values(
                        |t: Seq<char>| fold_case(t),
                    ).to_multiset(),
                ),
                cur@ == pending(text.take(it.index() as int)),
                low@ == fold_case(cur@),
        {
            let ghost i = it.index() as int;
            let ghost here = text.take(i);
            proof {
                assert(text.take(i + 1) =~= here.push(c));
                lemma_scan_step(here, c);
                lemma_settled_then_pending(here);
            }
            if separates(c) {
                if !cur.as_str().is_empty() {
                    let ghost token = cur@;
                    let ghost fold = |t: Seq<char>| fold_case(t);
                    proof {
                        lemma_fits_at(text, i + 1, token);
                        assert(settled(here.push(c)) == settled(here).push(token));
                        assert(settled(here.push(c)).map_values(fold) =~= settled(
                            here,
                        ).map_values(fold).push(fold_case(token)));
                        vstd::seq_lib::to_multiset_build(settled(here), token);
                        vstd::seq_lib::to_multiset_build(
                            settled(here).map_values(fold),
                            fold_case(token),
                        );
                    }
                    normal.increment(cur);
                    lowercase.increment(low);
                    cur = String::new();
                    low = String::new();
                    proof {
                        assert(normal@ =~= written.add(settled(here.push(c)).to_multiset()));
                        assert(lowercase@ =~= folded.add(
                            settled(here.push(c)).map_values(fold).to_multiset(),
                        ));
                        assert(fold_case(cur@) =~= low@);
                    }
                }
            } else {
                cur.push(c);
                low.push(lower_char(c));
                proof {
                    assert(fold_case(cur@) =~= low@);
                }
            }
        }
        proof {
            assert(text.take(text.len() as int) =~= text);
            lemma_settled_then_pending(text);
        }
        if !cur.as_str().is_empty() {
            proof {
                let fold = |t: Seq<char>| fold_case(t);
                lemma_fits_at(text, text.len() as int, cur@);
                assert(tokens(text).map_values(fold) =~= settled(text).map_values(fold).push(
                    fold_case(cur@),
                ));
                vstd::seq_lib::to_multiset_build(settled(text), cur@);
                vstd::seq_lib::to_multiset_build(settled(text).map_values(fold), fold_case(cur@));
            }
            normal.increment(cur);
            lowercase.increment(low);
        }
        proof {
            assert(normal@ =~= written.add(word_bag(text)));
            assert(lowercase@ =~= folded.add(folded_word_bag(text)));
        }
    }

    /// Records the tokens of an article in the pair of tables: those of its
    /// title, then those of its text.
    pub fn map_article(normal: &mut Self, lowercase: &mut Self, a: &Article)
        requires
            old(normal).wf(),
            old(lowercase).wf(),
            old(normal).can_absorb(word_bag(a@.title).add(word_bag(a@.text))),
            old(lowercase).can_absorb(folded_word_bag(a@.title).add(folded_word_bag(a@.text))),
        ensures
            final(normal).wf(),
            final(lowercase).wf(),
            final(normal)@ == old(normal)@.add(word_bag(a@.title)).add(word_bag(a@.text)),
            final(lowercase)@ == old(lowercase)@.add(folded_word_bag(a@.title)).add(
                folded_word_bag(a@.text),
            ),
    {
        broadcast use vstd::multiset::group_multiset_axioms;

        let ghost title = a@.title;
        let ghost text = a@.text;
        proof {
            assert forall|w: Seq<char>|
                normal@.count(w) + word_bag(title).count(w) + word_bag(text).count(w)
                    <= u32::MAX && lowercase@.count(w) + folded_word_bag(title).count(w)
                    + folded_word_bag(text).count(w) <= u32::MAX by {
                assert(normal@.count(w) + word_bag(title).add(word_bag(text)).count(w)
                    <= u32::MAX);
                assert(lowercase@.count(w) + folded_word_bag(title).add(
                    folded_word_bag(text),
                ).count(w) <= u32::MAX);
            }
        }
        WordsFrequencyMap::map_words(normal, lowercase, a.title());
        proof {
            assert forall|w: Seq<char>|
                normal@.count(w) + word_bag(text).count(w) <= u32::MAX && lowercase@.count(w)
                    + folded_word_bag(text).count(w) <= u32::MAX by {
                assert(old(normal)@.count(w) + word_bag(title).count(w) + word_bag(text).count(w)
                    <= u32::MAX);
                assert(old(lowercase)@.count(w) + folded_word_bag(title).count(w)
                    + folded_word_bag(text).count(w) <= u32::MAX);
            }
        }
        WordsFrequencyMap::map_words(normal, lowercase, a.text());
    }
}

impl Default for WordsFrequencyMap {
    /// An empty table.
    fn default() -> (table: Self)
        ensures
            table.wf(),
            table@ == Multiset::<Seq<char>>::empty(),
            table.words_in_order() == Seq::<Seq<char>>::empty(),
    {
        Self::new()
    }
}

/// The case-folded copy of a word.
pub fn fold_word(word: &str) -> (folded: String)
    ensures
        folded@ == fold_case(word@),
{
    let mut folded = String::new();
    for c in it: word.chars()
        invariant
            it.seq() == word@,
            folded@ == fold_case(word@.take(it.index() as int)),
    {
        folded.push(lower_char(c));
        proof {
            let i = it.index() as int;
            assert(word@.take(i + 1) =~= word@.take(i).push(c));
            assert(fold_case(word@.take(i + 1)) =~= fold_case(word@.take(i)).push(fold_char(c)));
        }
    }
    proof {
        assert(word@.take(word@.len() as int) =~= word@);
    }
    folded
}

/// Where the scan of `text` has settled a token `t` as the last one after `i`
/// characters, `t` occurs once more in the whole text than among the tokens
/// settled before it, and so does its folded form among the folded tokens.
proof fn lemma_fits_at(text: Seq<char>, i: int, t: Seq<char>)
    requires
        0 <= i <= text.len(),
        i == text.len() ==> tokens(text).len() > 0 && tokens(text).last() == t,
        i < text.len() ==> settled(text.take(i)).len() > 0 && settled(text.take(i)).last() == t,
    ensures
        ({
            let before = if i == text.len() {
                tokens(text).drop_last()
            } else {
                settled(text.take(i)).drop_last()
            };
            &&& before.to_multiset().count(t) + 1 <= word_bag(text).count(t)
            &&& before.map_values(|t: Seq<char>| fold_case(t)).to_multiset().count(fold_case(t))
                + 1 <= folded_word_bag(text).count(fold_case(t))
        }),
{
    broadcast use vstd::multiset::group_multiset_axioms;
    broadcast use vstd::seq_lib::group_to_multiset_ensures;

    let all = tokens(text);
    let upto = if i == text.len() {
        all
    } else {
        settled(text.take(i))
    };
    let k = upto.len() as int;
    if i < text.len() {
        lemma_settled_is_prefix(text, i);
    } else {
        assert(all.take(k) =~= all);
    }
    assert(upto == all.take(k));
    let before = upto.drop_last();
    assert(upto =~= before.push(t));
    lemma_prefix_bag(all, k, t);
    let fold = |t: Seq<char>| fold_case(t);
    assert(upto.map_values(fold) =~= before.map_values(fold).push(fold_case(t)));
    assert(all.map_values(fold).take(k) =~= upto.map_values(fold));
    lemma_prefix_bag(all.map_values(fold), k, fold_case(t));
}

} // verus!
