use wiki_stats::article::Article;
use wiki_stats::frequency::WordsFrequencyMap;
use wiki_stats::longest::{utf8_len, LongestItem};
use wiki_stats::stats::{process_articles, within_volume, StatsPackage};

fn article(id: &str, title: &str, text: &str) -> Article {
    Article::new(id.to_string(), title.to_string(), text.to_string())
}

fn listed(table: &WordsFrequencyMap) -> Vec<(String, u32)> {
    let mut all: Vec<(String, u32)> = table
        .entries()
        .iter()
        .map(|e| (e.word().to_string(), e.appearances()))
        .collect();
    all.sort();
    all
}

fn record(item: &LongestItem) -> (String, String, usize) {
    (item.title().to_string(), item.path().to_string(), item.size())
}

fn shard_a() -> StatsPackage {
    process_articles(&vec![article("1", "Cat", "The cat sat.")], "a.json")
}

fn shard_b() -> StatsPackage {
    process_articles(
        &vec![article("2", "Cats and Dogs", "Dogs bark loudly at cats.")],
        "b.json",
    )
}

fn shard_c() -> StatsPackage {
    process_articles(
        &vec![
            article("3", "Owls", "Owls hoot; cats don't."),
            article("4", "Cat", "THE END"),
        ],
        "dir/c.json",
    )
}

fn merge(mut into: StatsPackage, other: StatsPackage) -> StatsPackage {
    assert!(into.can_merge(&other));
    into.merge_with(other);
    into
}

#[test]
fn apostrophe_stays_and_period_goes() {
    let mut written = WordsFrequencyMap::new();
    let mut lower = WordsFrequencyMap::new();
    WordsFrequencyMap::map_words(&mut written, &mut lower, "don't stop.");
    assert_eq!(
        listed(&written),
        vec![("don't".to_string(), 1), ("stop".to_string(), 1)]
    );
    assert_eq!(
        listed(&lower),
        vec![("don't".to_string(), 1), ("stop".to_string(), 1)]
    );
}

#[test]
fn case_is_kept_as_written_and_folded_in_lowercase() {
    let mut written = WordsFrequencyMap::new();
    let mut lower = WordsFrequencyMap::new();
    WordsFrequencyMap::map_words(&mut written, &mut lower, "Rust RUST rust");
    assert_eq!(written.len(), 3);
    assert_eq!(written.count("Rust"), 1);
    assert_eq!(written.count("RUST"), 1);
    assert_eq!(written.count("rust"), 1);
    assert_eq!(listed(&lower), vec![("rust".to_string(), 3)]);
}

#[test]
fn first_of_equally_long_articles_is_kept() {
    let articles = vec![
        article("0", "a", "12345"),
        article("1", "b", "123456789"),
        article("2", "c", "123"),
        article("3", "d", "abcdefghi"),
    ];
    let stats = process_articles(&articles, "shard.json");
    assert_eq!(
        record(stats.longest_article()),
        ("b".to_string(), "shard.json/1".to_string(), 9)
    );
}

#[test]
fn two_shards_end_to_end() {
    let total = merge(merge(StatsPackage::new(), shard_a()), shard_b());
    assert_eq!(
        listed(total.low_words_freq()),
        vec![
            ("and".to_string(), 1),
            ("at".to_string(), 1),
            ("bark".to_string(), 1),
            ("cat".to_string(), 2),
            ("cats".to_string(), 2),
            ("dogs".to_string(), 2),
            ("loudly".to_string(), 1),
            ("sat".to_string(), 1),
            ("the".to_string(), 1),
        ]
    );
    assert_eq!(
        listed(total.words_freq()),
        vec![
            ("Cat".to_string(), 1),
            ("Cats".to_string(), 1),
            ("Dogs".to_string(), 2),
            ("The".to_string(), 1),
            ("and".to_string(), 1),
            ("at".to_string(), 1),
            ("bark".to_string(), 1),
            ("cat".to_string(), 1),
            ("cats".to_string(), 1),
            ("loudly".to_string(), 1),
            ("sat".to_string(), 1),
        ]
    );
    assert_eq!(
        record(total.longest_article()),
        ("Cats and Dogs".to_string(), "b.json/2".to_string(), 25)
    );
    assert_eq!(
        record(total.longest_title()),
        ("Cats and Dogs".to_string(), "b.json/2".to_string(), 13)
    );
}

#[test]
fn a_new_package_is_empty() {
    let stats = StatsPackage::new();
    assert_eq!(stats.words_freq().len(), 0);
    assert_eq!(stats.low_words_freq().len(), 0);
    assert_eq!(record(stats.longest_article()), (String::new(), String::new(), 0));
    assert_eq!(record(stats.longest_title()), (String::new(), String::new(), 0));
    let stats = StatsPackage::default();
    assert_eq!(stats.words_freq().len(), 0);
    assert_eq!(record(stats.longest_title()), (String::new(), String::new(), 0));
}

#[test]
fn a_shard_without_articles_gives_the_empty_package() {
    let stats = process_articles(&Vec::new(), "empty.json");
    assert_eq!(stats.words_freq().len(), 0);
    assert_eq!(record(stats.longest_article()), (String::new(), String::new(), 0));
}

#[test]
fn articles_without_text_never_become_the_longest() {
    let stats = process_articles(&vec![article("1", "", ""), article("2", "T", "")], "s.json");
    assert_eq!(record(stats.longest_article()), (String::new(), String::new(), 0));
    assert_eq!(
        record(stats.longest_title()),
        ("T".to_string(), "s.json/2".to_string(), 1)
    );
}

#[test]
fn sizes_are_counted_in_bytes() {
    let stats = process_articles(
        &vec![article("1", "abcd", "xx"), article("2", "äöü", "日本")],
        "s.json",
    );
    assert_eq!(
        record(stats.longest_title()),
        ("äöü".to_string(), "s.json/2".to_string(), 6)
    );
    assert_eq!(
        record(stats.longest_article()),
        ("äöü".to_string(), "s.json/2".to_string(), 6)
    );
    assert_eq!(utf8_len("日本"), 6);
    assert_eq!(utf8_len(""), 0);
    assert_eq!(utf8_len("a€"), 4);
}

#[test]
fn longest_records_name_title_and_place() {
    let a = article("42", "A Title", "some text");
    assert_eq!(
        record(&LongestItem::new_longest_article(&a, "dir/shard.json")),
        ("A Title".to_string(), "dir/shard.json/42".to_string(), 9)
    );
    assert_eq!(
        record(&LongestItem::new_longest_title(&a, "dir/shard.json")),
        ("A Title".to_string(), "dir/shard.json/42".to_string(), 7)
    );
    assert_eq!(record(&LongestItem::new()), (String::new(), String::new(), 0));
    assert_eq!(record(&LongestItem::default()), (String::new(), String::new(), 0));
}

#[test]
fn consider_takes_only_what_is_strictly_larger() {
    let small = article("1", "s", "12");
    let large = article("2", "l", "1234");
    let equal = article("3", "e", "abcd");
    let mut kept = LongestItem::new_longest_article(&small, "p");
    kept.consider(LongestItem::new_longest_article(&large, "p"));
    assert_eq!(record(&kept), ("l".to_string(), "p/2".to_string(), 4));
    kept.consider(LongestItem::new_longest_article(&equal, "p"));
    assert_eq!(record(&kept), ("l".to_string(), "p/2".to_string(), 4));
    kept.consider(LongestItem::new_longest_article(&small, "p"));
    assert_eq!(record(&kept), ("l".to_string(), "p/2".to_string(), 4));
}

#[test]
fn merging_is_commutative_in_its_counts() {
    let ab = merge(shard_a(), shard_b());
    let ba = merge(shard_b(), shard_a());
    assert_eq!(listed(ab.words_freq()), listed(ba.words_freq()));
    assert_eq!(listed(ab.low_words_freq()), listed(ba.low_words_freq()));
    assert_eq!(ab.longest_article().size(), ba.longest_article().size());
    assert_eq!(ab.longest_title().size(), ba.longest_title().size());
}

#[test]
fn merging_is_associative() {
    let left = merge(merge(shard_a(), shard_b()), shard_c());
    let right = merge(shard_a(), merge(shard_b(), shard_c()));
    assert_eq!(listed(left.words_freq()), listed(right.words_freq()));
    assert_eq!(listed(left.low_words_freq()), listed(right.low_words_freq()));
    assert_eq!(record(left.longest_article()), record(right.longest_article()));
    assert_eq!(record(left.longest_title()), record(right.longest_title()));
    assert_eq!(left.low_words_freq().count("cat"), 3);
    assert_eq!(left.low_words_freq().count("cats"), 3);
    assert_eq!(left.low_words_freq().count("the"), 2);
}

#[test]
fn batching_does_not_change_the_result() {
    let one_by_one = merge(
        merge(merge(StatsPackage::new(), shard_a()), shard_b()),
        shard_c(),
    );
    let first_batch = merge(StatsPackage::new(), shard_a());
    let second_batch = merge(merge(StatsPackage::new(), shard_b()), shard_c());
    let batched = merge(first_batch, second_batch);
    assert_eq!(listed(one_by_one.words_freq()), listed(batched.words_freq()));
    assert_eq!(
        listed(one_by_one.low_words_freq()),
        listed(batched.low_words_freq())
    );
    assert_eq!(
        record(one_by_one.longest_article()),
        record(batched.longest_article())
    );
}

#[test]
fn on_a_tie_the_package_merged_first_keeps_its_record() {
    let x = process_articles(&vec![article("1", "same", "12345")], "x.json");
    let y = process_articles(&vec![article("2", "also", "abcde")], "y.json");
    let xy = merge(x, y);
    assert_eq!(
        record(xy.longest_article()),
        ("same".to_string(), "x.json/1".to_string(), 5)
    );
    let x = process_articles(&vec![article("1", "same", "12345")], "x.json");
    let y = process_articles(&vec![article("2", "also", "abcde")], "y.json");
    let yx = merge(y, x);
    assert_eq!(
        record(yx.longest_article()),
        ("also".to_string(), "y.json/2".to_string(), 5)
    );
}

#[test]
fn merging_the_empty_package_changes_nothing() {
    let merged = merge(shard_c(), StatsPackage::new());
    let alone = shard_c();
    assert_eq!(listed(merged.words_freq()), listed(alone.words_freq()));
    assert_eq!(record(merged.longest_article()), record(alone.longest_article()));
    assert_eq!(record(merged.longest_title()), record(alone.longest_title()));
}

#[test]
fn take_article_adds_one_article() {
    let mut stats = shard_a();
    stats.take_article(&article("9", "A Longer Title", "tiny"), "z.json");
    assert_eq!(stats.low_words_freq().count("a"), 1);
    assert_eq!(stats.low_words_freq().count("tiny"), 1);
    assert_eq!(
        record(stats.longest_title()),
        ("A Longer Title".to_string(), "z.json/9".to_string(), 14)
    );
    assert_eq!(
        record(stats.longest_article()),
        ("Cat".to_string(), "a.json/1".to_string(), 12)
    );
}

#[test]
fn ordinary_shards_are_within_volume() {
    assert!(within_volume(&Vec::new()));
    assert!(within_volume(&vec![
        article("1", "Cat", "The cat sat."),
        article("2", "Cats and Dogs", "Dogs bark loudly at cats."),
    ]));
}
