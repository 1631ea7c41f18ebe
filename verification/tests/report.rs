use wiki_stats::article::Article;
use wiki_stats::report::{push_decimal, render_plain, render_structured};
use wiki_stats::stats::{process_articles, StatsPackage};

fn decimal(n: u64) -> String {
    let mut out = String::from("n=");
    push_decimal(&mut out, n);
    out
}

#[test]
fn decimal_digits() {
    assert_eq!(decimal(0), "n=0");
    assert_eq!(decimal(7), "n=7");
    assert_eq!(decimal(10), "n=10");
    assert_eq!(decimal(1234567890), "n=1234567890");
    assert_eq!(decimal(u64::MAX), "n=18446744073709551615");
    assert_eq!(decimal(u32::MAX as u64), "n=4294967295");
}

#[test]
fn plain_report_of_the_empty_package() {
    assert_eq!(
        render_plain(&StatsPackage::new()),
        "\tWords frequency (as written)\n\n\tWords frequency (lowercase)\n\n\tLongest article\n\nTitle: \nPath: \nSize: 0\n\tLongest title\n\nTitle: \nPath: \nSize: 0\n"
    );
}

#[test]
fn plain_report_lists_words_then_records() {
    let stats = process_articles(
        &vec![Article::new(
            "1".to_string(),
            "Cat".to_string(),
            "The cat sat. The end".to_string(),
        )],
        "a.json",
    );
    let expected = "\tWords frequency (as written)\n\n\
Cat: 1\nThe: 2\ncat: 1\nsat: 1\nend: 1\n\
\tWords frequency (lowercase)\n\n\
cat: 2\nthe: 2\nsat: 1\nend: 1\n\
\tLongest article\n\n\
Title: Cat\nPath: a.json/1\nSize: 20\n\
\tLongest title\n\n\
Title: Cat\nPath: a.json/1\nSize: 3\n";
    assert_eq!(render_plain(&stats), expected);
}

#[test]
fn structured_report_frames_the_four_sections() {
    assert_eq!(
        render_structured("[]", "[\n  1\n]", "{}", "{\"a\": 1}"),
        "\tWords frequency (as written)\n[]\n\tWords frequency (lowercase)\n[\n  1\n]\n\tLongest article\n{}\n\tLongest title\n{\"a\": 1}"
    );
}
