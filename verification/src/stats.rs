//! Statistics packages: the partial or aggregate result of counting words and
//! tracking longest records, how one shard is turned into a package, and how
//! two packages merge.

use crate::article::Article;
use crate::frequency::WordsFrequencyMap;
use crate::longest::{
    article_record, byte_len, lemma_byte_len, longer_of, no_record, title_record, utf8_len,
    LongestItem, LongestItemView,
};
use crate::words::{fold_case, folded_word_bag, lemma_word_count, tokens, word_bag};
use vstd::multiset::Multiset;
use vstd::prelude::*;

verus! {

/// The statistics of some set of articles: the two word-frequency tables and
/// the two longest records.
pub struct StatsPackage {
    words_freq: WordsFrequencyMap,
    low_words_freq: WordsFrequencyMap,
    long_art: LongestItem,
    long_title: LongestItem,
    seen: Ghost<Seq<Seq<char>>>,
}

/// What a package holds, as plain values: the words as written and the words
/// case-folded, each as a bag, and the two longest records.
pub struct StatsView {
    pub written: Multiset<Seq<char>>,
    pub lower: Multiset<Seq<char>>,
    pub longest_article: LongestItemView,
    pub longest_title: LongestItemView,
}

impl View for StatsPackage {
    type V = StatsView;

    closed spec fn view(&self) -> StatsView {
        StatsView {
            written: self.words_freq@,
            lower: self.low_words_freq@,
            longest_article: self.long_art@,
            longest_title: self.long_title@,
        }
    }
}

/// The package of no article at all.
pub open spec fn empty_stats() -> StatsView {
    StatsView {
        written: Multiset::empty(),
        lower: Multiset::empty(),
        longest_article: no_record(),
        longest_title: no_record(),
    }
}

/// The merge of two packages: counts add up word by word, and of the longest
/// records the one of `other` wins only where it is strictly larger.
pub open spec fn merged(this: StatsView, other: StatsView) -> StatsView {
    StatsView {
        written: this.written.add(other.written),
        lower: this.lower.add(other.lower),
        longest_article: longer_of(this.longest_article, other.longest_article),
        longest_title: longer_of(this.longest_title, other.longest_title),
    }
}

/// Whether two tables stem from one pass over the same tokens: there is a
/// sequence of tokens of which the first table holds each as written and the
/// second each case-folded.
pub open spec fn paired(written: Multiset<Seq<char>>, lower: Multiset<Seq<char>>) -> bool {
    exists|tokens: Seq<Seq<char>>| #[trigger] pairs_up(tokens, written, lower)
}

/// Whether `written` holds the tokens as they are and `lower` holds them
/// case-folded.
pub open spec fn pairs_up(
    tokens: Seq<Seq<char>>,
    written: Multiset<Seq<char>>,
    lower: Multiset<Seq<char>>,
) -> bool {
    written == tokens.to_multiset() && lower == tokens.map_values(
        |t: Seq<char>| fold_case(t),
    ).to_multiset()
}

/// Tokens that pair up with two tables, followed by tokens that pair up with
/// two others, pair up with the sums of the tables.
pub proof fn lemma_pairs_up_sum(
    first: Seq<Seq<char>>,
    second: Seq<Seq<char>>,
    written1: Multiset<Seq<char>>,
    lower1: Multiset<Seq<char>>,
    written2: Multiset<Seq<char>>,
    lower2: Multiset<Seq<char>>,
)
    requires
        pairs_up(first, written1, lower1),
        pairs_up(second, written2, lower2),
    ensures
        pairs_up(first + second, written1.add(written2), lower1.add(lower2)),
{
    let fold = |t: Seq<char>| fold_case(t);
    vstd::seq_lib::lemma_multiset_commutative(first, second);
    vstd::seq_lib::lemma_multiset_commutative(first.map_values(fold), second.map_values(fold));
    assert((first + second).map_values(fold) =~= first.map_values(fold) + second.map_values(fold));
}

/// Whether no count of a package exceeds 32 bits.
pub open spec fn counts_fit(stats: StatsView) -> bool {
    forall|w: Seq<char>| stats.written.count(w) <= u32::MAX && stats.lower.count(w) <= u32::MAX
}

/// A package after one more article of the shard `shard`: the tokens of the
/// article's title and text are counted, and the article takes the place of a
/// longest record where it is strictly larger.
pub open spec fn with_article(stats: StatsView, a: Article, shard: Seq<char>) -> StatsView {
    StatsView {
        written: stats.written.add(word_bag(a@.title)).add(word_bag(a@.text)),
        lower: stats.lower.add(folded_word_bag(a@.title)).add(folded_word_bag(a@.text)),
        longest_article: longer_of(stats.longest_article, article_record(a@, shard)),
        longest_title: longer_of(stats.longest_title, title_record(a@, shard)),
    }
}

/// The package of a shard: its articles taken in one after the other, in
/// their order, starting from the empty package.
pub open spec fn shard_stats(articles: Seq<Article>, shard: Seq<char>) -> StatsView
    decreases articles.len(),
{
    if articles.len() == 0 {
        empty_stats()
    } else {
        with_article(shard_stats(articles.drop_last(), shard), articles.last(), shard)
    }
}

/// The counts of a shard only grow with each further article.
pub proof fn lemma_shard_counts_grow(articles: Seq<Article>, shard: Seq<char>, n: int)
    requires
        0 <= n <= articles.len(),
    ensures
        forall|w: Seq<char>|
            shard_stats(articles.take(n), shard).written.count(w) <= shard_stats(
                articles,
                shard,
            ).written.count(w),
        forall|w: Seq<char>|
            shard_stats(articles.take(n), shard).lower.count(w) <= shard_stats(
                articles,
                shard,
            ).lower.count(w),
    decreases articles.len() - n,
{
    broadcast use vstd::multiset::group_multiset_axioms;

    if n == articles.len() {
        assert(articles.take(n) =~= articles);
    } else {
        lemma_shard_counts_grow(articles, shard, n + 1);
        assert(articles.take(n + 1).drop_last() =~= articles.take(n));
    }
}

/// Merging is commutative in what it counts: whichever of two packages is
/// merged into the other, the two frequency tables come out the same, and so
/// do the sizes of the two longest records. Which of two equally large
/// records is kept may differ.
pub proof fn lemma_merge_commutative(a: StatsView, b: StatsView)
    ensures
        merged(a, b).written == merged(b, a).written,
        merged(a, b).lower == merged(b, a).lower,
        merged(a, b).longest_article.size == merged(b, a).longest_article.size,
        merged(a, b).longest_title.size == merged(b, a).longest_title.size,
{
    broadcast use vstd::multiset::group_multiset_axioms;

    assert(a.written.add(b.written) =~= b.written.add(a.written));
    assert(a.lower.add(b.lower) =~= b.lower.add(a.lower));
}

/// Merging is associative: three packages merged in one order of grouping or
/// the other give the same package, tables and longest records alike.
pub proof fn lemma_merge_associative(a: StatsView, b: StatsView, c: StatsView)
    ensures
        merged(merged(a, b), c) == merged(a, merged(b, c)),
{
    broadcast use vstd::multiset::group_multiset_axioms;

    assert(a.written.add(b.written).add(c.written) =~= a.written.add(b.written.add(c.written)));
    assert(a.lower.add(b.lower).add(c.lower) =~= a.lower.add(b.lower.add(c.lower)));
}

/// The empty package changes nothing when it is merged into another.
pub proof fn lemma_merge_empty(a: StatsView)
    ensures
        merged(a, empty_stats()) == a,
{
    broadcast use vstd::multiset::group_multiset_axioms;

    assert(a.written.add(Multiset::empty()) =~= a.written);
    assert(a.lower.add(Multiset::empty()) =~= a.lower);
}

/// The aggregate of a run: the packages merged one after the other, in their
/// order, into the empty package.
pub open spec fn merge_all(packages: Seq<StatsView>) -> StatsView
    decreases packages.len(),
{
    if packages.len() == 0 {
        empty_stats()
    } else {
        merged(merge_all(packages.drop_last()), packages.last())
    }
}

/// Batching does not matter: merging the packages of one batch and then those
/// of the next gives what merging the two batches' own aggregates gives. So
/// however a fixed sequence of shards is cut into batches, the final package
/// is the same.
pub proof fn lemma_merge_all_batches(first: Seq<StatsView>, second: Seq<StatsView>)
    ensures
        merge_all(first + second) == merged(merge_all(first), merge_all(second)),
    decreases second.len(),
{
    if second.len() == 0 {
        assert(first + second =~= first);
        lemma_merge_empty(merge_all(first));
    } else {
        assert((first + second).drop_last() =~= first + second.drop_last());
        lemma_merge_all_batches(first, second.drop_last());
        lemma_merge_associative(merge_all(first), merge_all(second.drop_last()), second.last());
    }
}

/// An accumulator after some packages were merged into it one after the
/// other, in their order.
pub open spec fn merged_into(accumulator: StatsView, packages: Seq<StatsView>) -> StatsView
    decreases packages.len(),
{
    if packages.len() == 0 {
        accumulator
    } else {
        merged(merged_into(accumulator, packages.drop_last()), packages.last())
    }
}

/// Merging packages into an accumulator one after the other gives what
/// merging their aggregate gives.
pub proof fn lemma_merged_into(accumulator: StatsView, packages: Seq<StatsView>)
    ensures
        merged_into(accumulator, packages) == merged(accumulator, merge_all(packages)),
    decreases packages.len(),
{
    if packages.len() == 0 {
        lemma_merge_empty(accumulator);
    } else {
        lemma_merged_into(accumulator, packages.drop_last());
        lemma_merge_associative(
            accumulator,
            merge_all(packages.drop_last()),
            packages.last(),
        );
    }
}

/// The order in which two packages next to each other are merged does not
/// change the final counts.
pub proof fn lemma_merge_all_swap(
    before: Seq<StatsView>,
    a: StatsView,
    b: StatsView,
    after: Seq<StatsView>,
)
    ensures
        merge_all(before + seq![a, b] + after).written == merge_all(
            before + seq![b, a] + after,
        ).written,
        merge_all(before + seq![a, b] + after).lower == merge_all(
            before + seq![b, a] + after,
        ).lower,
        merge_all(before + seq![a, b] + after).longest_article.size == merge_all(
            before + seq![b, a] + after,
        ).longest_article.size,
        merge_all(before + seq![a, b] + after).longest_title.size == merge_all(
            before + seq![b, a] + after,
        ).longest_title.size,
{
    broadcast use vstd::multiset::group_multiset_axioms;

    let ab = seq![a, b];
    let ba = seq![b, a];
    lemma_merge_all_batches(before + ab, after);
    lemma_merge_all_batches(before + ba, after);
    lemma_merge_all_batches(before, ab);
    lemma_merge_all_batches(before, ba);
    assert(ab.drop_last() =~= seq![a]);
    assert(ba.drop_last() =~= seq![b]);
    assert(seq![a].drop_last() =~= Seq::<StatsView>::empty());
    assert(seq![b].drop_last() =~= Seq::<StatsView>::empty());
    assert(merge_all(Seq::<StatsView>::empty()) == empty_stats());
    assert(merge_all(seq![a]) == merged(empty_stats(), a));
    assert(merge_all(seq![b]) == merged(empty_stats(), b));
    assert(merge_all(ab) == merged(merged(empty_stats(), a), b));
    assert(merge_all(ba) == merged(merged(empty_stats(), b), a));
    let x = merge_all(before + ab + after);
    let y = merge_all(before + ba + after);
    assert(x.written =~= y.written);
    assert(x.lower =~= y.lower);
}

/// The size by which an article is measured: the bytes of its text, or the
/// bytes of its title.
pub open spec fn measure(a: Article, by_text: bool) -> nat {
    if by_text {
        byte_len(a@.text)
    } else {
        byte_len(a@.title)
    }
}

/// The record that an article makes under either measure.
pub open spec fn record_of(a: Article, shard: Seq<char>, by_text: bool) -> LongestItemView {
    if by_text {
        article_record(a@, shard)
    } else {
        title_record(a@, shard)
    }
}

/// The longest record of a shard under either measure.
pub open spec fn longest_of(articles: Seq<Article>, shard: Seq<char>, by_text: bool)
    -> LongestItemView {
    if by_text {
        shard_stats(articles, shard).longest_article
    } else {
        shard_stats(articles, shard).longest_title
    }
}

/// The longest record of a shard is as large as the largest article, and it
/// is the record of the first article of that size. Where every article has
/// size zero it is the record of no item.
pub proof fn lemma_first_longest_wins(articles: Seq<Article>, shard: Seq<char>, by_text: bool)
    ensures
        forall|i: int|
            0 <= i < articles.len() ==> measure(#[trigger] articles[i], by_text) <= longest_of(
                articles,
                shard,
                by_text,
            ).size,
        longest_of(articles, shard, by_text).size == 0 ==> longest_of(articles, shard, by_text)
            == no_record(),
        longest_of(articles, shard, by_text).size > 0 ==> exists|k: int|
            0 <= k < articles.len() && longest_of(articles, shard, by_text) == record_of(
                #[trigger] articles[k],
                shard,
                by_text,
            ) && forall|j: int|
                0 <= j < k ==> measure(#[trigger] articles[j], by_text) < longest_of(
                    articles,
                    shard,
                    by_text,
                ).size,
    decreases articles.len(),
{
    if articles.len() > 0 {
        let head = articles.drop_last();
        let last = articles.last();
        lemma_first_longest_wins(head, shard, by_text);
        let kept = longest_of(head, shard, by_text);
        let now = longest_of(articles, shard, by_text);
        assert(now == longer_of(kept, record_of(last, shard, by_text)));
        assert forall|i: int| 0 <= i < articles.len() implies measure(
            #[trigger] articles[i],
            by_text,
        ) <= now.size by {
            if i < head.len() {
                assert(head[i] == articles[i]);
            }
        }
        if now.size > 0 {
            if measure(last, by_text) > kept.size {
                let k = articles.len() - 1;
                assert(now == record_of(articles[k], shard, by_text));
                assert forall|j: int| 0 <= j < k implies measure(
                    #[trigger] articles[j],
                    by_text,
                ) < now.size by {
                    assert(head[j] == articles[j]);
                }
            } else {
                let k = choose|k: int|
                    0 <= k < head.len() && kept == record_of(#[trigger] head[k], shard, by_text)
                        && forall|j: int|
                        0 <= j < k ==> measure(#[trigger] head[j], by_text) < kept.size;
                assert(head[k] == articles[k]);
                assert forall|j: int| 0 <= j < k implies measure(
                    #[trigger] articles[j],
                    by_text,
                ) < now.size by {
                    assert(head[j] == articles[j]);
                }
            }
        }
    }
}

/// The bytes of all titles and texts of a shard together.
pub open spec fn text_volume(articles: Seq<Article>) -> nat
    decreases articles.len(),
{
    if articles.len() == 0 {
        0
    } else {
        text_volume(articles.drop_last()) + byte_len(articles.last()@.title) + byte_len(
            articles.last()@.text,
        )
    }
}

/// No word of a shard is counted more often than the shard's titles and
/// texts have bytes. So the counts of a shard of at most `u32::MAX` bytes fit.
pub proof fn lemma_counts_within_volume(articles: Seq<Article>, shard: Seq<char>)
    ensures
        forall|w: Seq<char>|
            shard_stats(articles, shard).written.count(w) <= text_volume(articles),
        forall|w: Seq<char>| shard_stats(articles, shard).lower.count(w) <= text_volume(articles),
        text_volume(articles) <= u32::MAX ==> counts_fit(shard_stats(articles, shard)),
    decreases articles.len(),
{
    broadcast use vstd::multiset::group_multiset_axioms;

    if articles.len() > 0 {
        let head = articles.drop_last();
        let last = articles.last();
        lemma_counts_within_volume(head, shard);
        lemma_byte_len(last@.title);
        lemma_byte_len(last@.text);
        assert forall|w: Seq<char>|
            shard_stats(articles, shard).written.count(w) <= text_volume(articles) && shard_stats(
                articles,
                shard,
            ).lower.count(w) <= text_volume(articles) by {
            lemma_word_count(last@.title, w);
            lemma_word_count(last@.text, w);
            assert(shard_stats(head, shard).written.count(w) <= text_volume(head));
            assert(shard_stats(head, shard).lower.count(w) <= text_volume(head));
        }
    }
}

/// Whether the titles and texts of a shard take at most `u32::MAX` bytes
/// together, which is enough for all its counts to fit.
pub fn within_volume(articles: &Vec<Article>) -> (small: bool)
    ensures
        small == (text_volume(articles@) <= u32::MAX),
{
    let mut total: u64 = 0;
    let mut i: usize = 0;
    while i < articles.len()
        invariant
            0 <= i <= articles@.len(),
            total == text_volume(articles@.take(i as int)),
            total <= u32::MAX,
        decreases articles@.len() - i,
    {
        let title = utf8_len(articles[i].title());
        let text = utf8_len(articles[i].text());
        proof {
            assert(articles@.take(i + 1).drop_last() =~= articles@.take(i as int));
            lemma_volume_grows(articles@, i + 1);
        }
        if title as u64 > u32::MAX as u64 - total {
            return false;
        }
        total = total + title as u64;
        if text as u64 > u32::MAX as u64 - total {
            return false;
        }
        total = total + text as u64;
        i += 1;
    }
    proof {
        assert(articles@.take(i as int) =~= articles@);
    }
    true
}

/// The volume of a shard only grows with each further article.
pub proof fn lemma_volume_grows(articles: Seq<Article>, n: int)
    requires
        0 <= n <= articles.len(),
    ensures
        text_volume(articles.take(n)) <= text_volume(articles),
    decreases articles.len() - n,
{
    if n == articles.len() {
        assert(articles.take(n) =~= articles);
    } else {
        lemma_volume_grows(articles, n + 1);
        assert(articles.take(n + 1).drop_last() =~= articles.take(n));
    }
}

impl StatsPackage {
    /// The package's invariant: both tables are well-formed, and the size of
    /// the longest title is the number of bytes of the title it records.
    pub closed spec fn wf(&self) -> bool {
        &&& self.words_freq.wf()
        &&& self.low_words_freq.wf()
        &&& self.long_title@.size == byte_len(self.long_title@.title)
        &&& pairs_up(self.seen@, self.words_freq@, self.low_words_freq@)
    }

    /// The two tables of a well-formed package stem from one pass over the
    /// same tokens.
    pub proof fn lemma_paired(&self)
        requires
            self.wf(),
        ensures
            paired(self@.written, self@.lower),
    {
        assert(pairs_up(self.seen@, self@.written, self@.lower));
    }

    /// The size of the longest title of a well-formed package is the number
    /// of bytes of the title that it records.
    pub proof fn lemma_title_size(&self)
        requires
            self.wf(),
        ensures
            self@.longest_title.size == byte_len(self@.longest_title.title),
    {
    }

    /// No count of a well-formed package exceeds 32 bits.
    pub proof fn lemma_counts_fit(&self)
        requires
            self.wf(),
        ensures
            counts_fit(self@),
    {
        self.words_freq.lemma_counts_fit();
        self.low_words_freq.lemma_counts_fit();
    }

    /// The package of no article at all.
    pub fn new() -> (stats: Self)
        ensures
            stats.wf(),
            stats@ == empty_stats(),
    {
        let stats = Self {
            words_freq: WordsFrequencyMap::new(),
            low_words_freq: WordsFrequencyMap::new(),
            long_art: LongestItem::new(),
            long_title: LongestItem::new(),
            seen: Ghost(Seq::empty()),
        };
        proof {
            let none = Seq::<Seq<char>>::empty();
            none.to_multiset_ensures();
            none.map_values(|t: Seq<char>| fold_case(t)).to_multiset_ensures();
            vstd::multiset::lemma_multiset_empty_len(none.to_multiset());
            vstd::multiset::lemma_multiset_empty_len(
                none.map_values(|t: Seq<char>| fold_case(t)).to_multiset(),
            );
        }
        stats
    }

    /// The table of the words as written.
    pub closed spec fn written_table(&self) -> WordsFrequencyMap {
        self.words_freq
    }

    /// The table of the case-folded words.
    pub closed spec fn lower_table(&self) -> WordsFrequencyMap {
        self.low_words_freq
    }

    /// The tables of a well-formed package are well-formed, and they hold
    /// what the package's view says.
    pub proof fn lemma_tables(&self)
        requires
            self.wf(),
        ensures
            self.written_table().wf(),
            self.lower_table().wf(),
            self.written_table()@ == self@.written,
            self.lower_table()@ == self@.lower,
    {
    }

    /// The table of the words as written.
    pub fn words_freq(&self) -> (table: &WordsFrequencyMap)
        requires
            self.wf(),
        ensures
            *table == self.written_table(),
            table.wf(),
            table@ == self@.written,
    {
        &self.words_freq
    }

    /// The table of the case-folded words.
    pub fn low_words_freq(&self) -> (table: &WordsFrequencyMap)
        requires
            self.wf(),
        ensures
            *table == self.lower_table(),
            table.wf(),
            table@ == self@.lower,
    {
        &self.low_words_freq
    }

    /// The longest article, by the length of its text.
    pub fn longest_article(&self) -> (item: &LongestItem)
        ensures
            item@ == self@.longest_article,
    {
        &self.long_art
    }

    /// The article with the longest title.
    pub fn longest_title(&self) -> (item: &LongestItem)
        ensures
            item@ == self@.longest_title,
    {
        &self.long_title
    }

    /// Whether `other` can be merged into this package without a count
    /// leaving 32 bits.
    pub fn can_merge(&self, other: &Self) -> (fits: bool)
        requires
            self.wf(),
            other.wf(),
        ensures
            fits == counts_fit(merged(self@, other@)),
    {
        broadcast use vstd::multiset::group_multiset_axioms;

        let written = self.words_freq.has_room_for(&other.words_freq);
        let lower = self.low_words_freq.has_room_for(&other.low_words_freq);
        proof {
            if written && lower {
                assert(counts_fit(merged(self@, other@)));
            }
            if counts_fit(merged(self@, other@)) {
                assert forall|w: Seq<char>|
                    self@.written.count(w) + other@.written.count(w) <= u32::MAX && self@.lower.count(
                        w,
                    ) + other@.lower.count(w) <= u32::MAX by {
                    assert(merged(self@, other@).written.count(w) <= u32::MAX);
                    assert(merged(self@, other@).lower.count(w) <= u32::MAX);
                }
            }
        }
        written && lower
    }

    /// Folds `other` into this package.
    pub fn merge_with(&mut self, other: Self)
        requires
            old(self).wf(),
            other.wf(),
            counts_fit(merged(old(self)@, other@)),
        ensures
            final(self).wf(),
            final(self)@ == merged(old(self)@, other@),
    {
        broadcast use vstd::multiset::group_multiset_axioms;

        proof {
            assert forall|w: Seq<char>|
                self@.written.count(w) + other@.written.count(w) <= u32::MAX && self@.lower.count(w)
                    + other@.lower.count(w) <= u32::MAX by {
                assert(merged(self@, other@).written.count(w) <= u32::MAX);
                assert(merged(self@, other@).lower.count(w) <= u32::MAX);
            }
        }
        proof {
            lemma_pairs_up_sum(
                self.seen@,
                other.seen@,
                self.words_freq@,
                self.low_words_freq@,
                other.words_freq@,
                other.low_words_freq@,
            );
        }
        self.words_freq.absorb(&other.words_freq);
        self.low_words_freq.absorb(&other.low_words_freq);
        self.seen = Ghost(self.seen@ + other.seen@);
        self.long_art.consider(other.long_art);
        self.long_title.consider(other.long_title);
    }

    /// Takes one article of the shard `shard` into the package.
    pub fn take_article(&mut self, a: &Article, shard: &str)
        requires
            old(self).wf(),
            counts_fit(with_article(old(self)@, *a, shard@)),
        ensures
            final(self).wf(),
            final(self)@ == with_article(old(self)@, *a, shard@),
    {
        broadcast use vstd::multiset::group_multiset_axioms;

        proof {
            assert forall|w: Seq<char>|
                self@.written.count(w) + word_bag(a@.title).add(word_bag(a@.text)).count(w)
                    <= u32::MAX && self@.lower.count(w) + folded_word_bag(a@.title).add(
                    folded_word_bag(a@.text),
                ).count(w) <= u32::MAX by {
                assert(with_article(self@, *a, shard@).written.count(w) <= u32::MAX);
                assert(with_article(self@, *a, shard@).lower.count(w) <= u32::MAX);
            }
        }
        proof {
            let fold = |t: Seq<char>| fold_case(t);
            lemma_pairs_up_sum(
                self.seen@,
                tokens(a@.title),
                self.words_freq@,
                self.low_words_freq@,
                word_bag(a@.title),
                folded_word_bag(a@.title),
            );
            lemma_pairs_up_sum(
                self.seen@ + tokens(a@.title),
                tokens(a@.text),
                self.words_freq@.add(word_bag(a@.title)),
                self.low_words_freq@.add(folded_word_bag(a@.title)),
                word_bag(a@.text),
                folded_word_bag(a@.text),
            );
        }
        WordsFrequencyMap::map_article(&mut self.words_freq, &mut self.low_words_freq, a);
        self.seen = Ghost(self.seen@ + tokens(a@.title) + tokens(a@.text));
        if utf8_len(a.text()) > self.long_art.size() {
            self.long_art = LongestItem::new_longest_article(a, shard);
        }
        if utf8_len(a.title()) > self.long_title.size() {
            self.long_title = LongestItem::new_longest_title(a, shard);
        }
    }
}

impl Default for StatsPackage {
    /// The package of no article at all.
    fn default() -> (stats: Self)
        ensures
            stats.wf(),
            stats@ == empty_stats(),
    {
        Self::new()
    }
}

/// The statistics of one shard: every article of it, in order, taken into a
/// fresh package.
pub fn process_articles(articles: &Vec<Article>, path: &str) -> (stats: StatsPackage)
    requires
        counts_fit(shard_stats(articles@, path@)),
    ensures
        stats.wf(),
        stats@ == shard_stats(articles@, path@),
{
    let mut stats = StatsPackage::new();
    let mut i: usize = 0;
    while i < articles.len()
        invariant
            0 <= i <= articles@.len(),
            stats.wf(),
            stats@ == shard_stats(articles@.take(i as int), path@),
            counts_fit(shard_stats(articles@, path@)),
        decreases articles@.len() - i,
    {
        proof {
            let next = articles@.take(i + 1);
            assert(next.drop_last() =~= articles@.take(i as int));
            assert(next.last() == articles@[i as int]);
            assert(shard_stats(next, path@) == with_article(stats@, articles@[i as int], path@));
            lemma_shard_counts_grow(articles@, path@, i + 1);
            assert forall|w: Seq<char>|
                shard_stats(next, path@).written.count(w) <= u32::MAX && shard_stats(
                    next,
                    path@,
                ).lower.count(w) <= u32::MAX by {
                assert(shard_stats(articles@, path@).written.count(w) <= u32::MAX);
                assert(shard_stats(articles@, path@).lower.count(w) <= u32::MAX);
            }
        }
        stats.take_article(&articles[i], path);
        i += 1;
    }
    proof {
        assert(articles@.take(i as int) =~= articles@);
    }
    stats
}

} // verus!
