use wiki_stats::article::Article;
use wiki_stats::scheduler::{
    absorb_batch, absorb_outcome, is_shard, process_file, RunError, Scheduler, ShardDecodeError,
    WorkerOutcome,
};
use wiki_stats::stats::{process_articles, StatsPackage};
use wiki_stats::strings::{chars_of, ends_with};

fn article(id: &str, title: &str, text: &str) -> Article {
    Article::new(id.to_string(), title.to_string(), text.to_string())
}

fn decisions(capacity: usize, names: &[&str]) -> Vec<(bool, bool, usize)> {
    let mut scheduler = Scheduler::new(capacity, names.len());
    let mut all = Vec::new();
    for name in names {
        let d = scheduler.next_entry(name);
        assert!(scheduler.in_flight() < scheduler.capacity());
        all.push((d.launch, d.join, scheduler.in_flight()));
    }
    assert_eq!(scheduler.remaining(), 0);
    all
}

#[test]
fn shards_are_the_entries_that_end_in_json() {
    assert!(is_shard("a.json"));
    assert!(is_shard("dir/sub/part-0001.json"));
    assert!(is_shard(".json"));
    assert!(!is_shard("a.JSON"));
    assert!(!is_shard("a.json.bak"));
    assert!(!is_shard("json"));
    assert!(!is_shard(""));
    assert!(!is_shard("dir/"));
    assert!(!is_shard("a.jsonl"));
    assert!(is_shard("übersicht.json"));
}

#[test]
fn ends_with_compares_the_tail() {
    assert!(ends_with("archive.zip", ".zip"));
    assert!(ends_with("archive.zip", ""));
    assert!(ends_with("", ""));
    assert!(!ends_with("zip", ".zip"));
    assert!(!ends_with("archive.zip", ".zi"));
    assert!(ends_with("naïve", "ïve"));
    assert_eq!(chars_of("añb"), vec!['a', 'ñ', 'b']);
}

#[test]
fn a_batch_is_joined_when_it_is_full_and_after_the_last_entry() {
    let names = ["a.json", "b.json", "readme.txt", "c.json", "d.json", "e.json"];
    assert_eq!(
        decisions(2, &names),
        vec![
            (true, false, 1),
            (true, true, 0),
            (false, false, 0),
            (true, false, 1),
            (true, true, 0),
            (true, true, 0),
        ]
    );
}

#[test]
fn with_one_worker_every_shard_is_its_own_batch() {
    assert_eq!(
        decisions(1, &["a.json", "x", "b.json"]),
        vec![(true, true, 0), (false, false, 0), (true, true, 0)]
    );
}

#[test]
fn the_last_entry_joins_even_where_nothing_is_in_flight() {
    assert_eq!(
        decisions(4, &["a.txt", "b.txt"]),
        vec![(false, false, 0), (false, true, 0)]
    );
    assert_eq!(decisions(4, &[]), vec![]);
}

#[test]
fn a_batch_that_is_not_full_waits_for_the_last_entry() {
    assert_eq!(
        decisions(3, &["a.json", "b.json", "c.txt", "d.txt"]),
        vec![
            (true, false, 1),
            (true, false, 2),
            (false, false, 2),
            (false, true, 0),
        ]
    );
}

#[test]
fn this_machine_offers_at_least_one_worker() {
    let scheduler = Scheduler::for_this_machine(5);
    assert!(scheduler.capacity() >= 1);
    assert_eq!(scheduler.capacity(), num_cpus::get());
    assert_eq!(scheduler.in_flight(), 0);
    assert_eq!(scheduler.remaining(), 5);
}

#[test]
fn a_decoded_shard_is_processed() {
    let result = process_file(
        Ok(vec![article("1", "Cat", "The cat sat.")]),
        "a.json".to_string(),
    );
    match result {
        Ok(stats) => {
            assert_eq!(stats.low_words_freq().count("cat"), 2);
            assert_eq!(stats.longest_article().path(), "a.json/1");
        }
        Err(_) => panic!("a decoded shard has statistics"),
    }
}

#[test]
fn a_shard_that_did_not_decode_is_an_error() {
    let result = process_file(
        Err("expected value at line 1 column 1".to_string()),
        "bad.json".to_string(),
    );
    match result {
        Ok(_) => panic!("a shard that did not decode has no statistics"),
        Err(e) => {
            assert_eq!(e.shard(), "bad.json");
            assert_eq!(e.detail(), "expected value at line 1 column 1");
        }
    }
}

#[test]
fn a_finished_worker_is_merged() {
    let mut total = StatsPackage::new();
    let stats = process_articles(&vec![article("1", "Cat", "The cat sat.")], "a.json");
    assert!(total.can_merge(&stats));
    assert!(absorb_outcome(&mut total, WorkerOutcome::Finished(stats)).is_ok());
    assert_eq!(total.low_words_freq().count("cat"), 2);
    assert_eq!(total.longest_article().size(), 12);
}

#[test]
fn a_malformed_shard_ends_the_run_whatever_came_before() {
    let mut total = StatsPackage::new();
    for id in ["1", "2", "3"] {
        let stats = process_articles(&vec![article(id, "Cat", "The cat sat.")], "ok.json");
        assert!(total.can_merge(&stats));
        assert!(absorb_outcome(&mut total, WorkerOutcome::Finished(stats)).is_ok());
    }
    let failed = WorkerOutcome::DecodeFailed(ShardDecodeError::new(
        "bad.json".to_string(),
        "missing field `text`".to_string(),
    ));
    match absorb_outcome(&mut total, failed) {
        Err(RunError::ShardDecode(e)) => {
            assert_eq!(e.shard(), "bad.json");
            assert_eq!(e.detail(), "missing field `text`");
        }
        _ => panic!("the run must end with the shard's error"),
    }
    assert_eq!(total.low_words_freq().count("cat"), 6);
}

#[test]
fn a_crashed_worker_ends_the_run() {
    let mut total = StatsPackage::new();
    match absorb_outcome(&mut total, WorkerOutcome::Crashed) {
        Err(RunError::WorkerFailure) => {}
        _ => panic!("the run must end with a worker failure"),
    }
    assert_eq!(total.words_freq().len(), 0);
}

fn finished(id: &str, text: &str) -> WorkerOutcome {
    WorkerOutcome::Finished(process_articles(&vec![article(id, "Cat", text)], "ok.json"))
}

fn failed(shard: &str) -> WorkerOutcome {
    WorkerOutcome::DecodeFailed(ShardDecodeError::new(
        shard.to_string(),
        "expected `,` or `]`".to_string(),
    ))
}

#[test]
fn a_batch_is_merged_in_the_order_of_launch() {
    let mut total = StatsPackage::new();
    let batch = vec![
        finished("1", "abcde"),
        finished("2", "vwxyz"),
        finished("3", "ab"),
    ];
    assert!(absorb_batch(&mut total, batch).is_ok());
    assert_eq!(total.low_words_freq().count("cat"), 3);
    assert_eq!(total.low_words_freq().count("abcde"), 1);
    assert_eq!(total.longest_article().path(), "ok.json/1");
    assert_eq!(total.longest_article().size(), 5);
    assert!(absorb_batch(&mut total, Vec::new()).is_ok());
    assert_eq!(total.low_words_freq().count("cat"), 3);
}

#[test]
fn a_batch_ends_at_its_first_failure() {
    let mut total = StatsPackage::new();
    let batch = vec![
        finished("1", "one"),
        finished("2", "two"),
        failed("bad.json"),
        finished("3", "three"),
        WorkerOutcome::Crashed,
        failed("worse.json"),
    ];
    match absorb_batch(&mut total, batch) {
        Err(RunError::ShardDecode(e)) => assert_eq!(e.shard(), "bad.json"),
        _ => panic!("the batch must end with the first error"),
    }
    assert_eq!(total.low_words_freq().count("cat"), 2);
    assert_eq!(total.low_words_freq().count("three"), 0);
}

#[test]
fn a_crash_at_the_head_of_a_batch_ends_it_at_once() {
    let mut total = StatsPackage::new();
    let batch = vec![WorkerOutcome::Crashed, finished("1", "one")];
    assert!(matches!(
        absorb_batch(&mut total, batch),
        Err(RunError::WorkerFailure)
    ));
    assert_eq!(total.words_freq().len(), 0);
}
