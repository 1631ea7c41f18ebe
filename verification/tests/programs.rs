use wiki_stats::abbreviations::expand_abbreviations;
use wiki_stats::fields::split_on;
use wiki_stats::frequency::WordsFrequencyMap;
use wiki_stats::hosts::hosts_report;
use wiki_stats::paths::{dataset_path, stats_path};
use wiki_stats::students::{oldest_and_youngest, parse_student, parse_u8, Student};
use wiki_stats::word_count::{count_words, ranked, ranking_lines};
use wiki_stats::words::split_tokens;

#[test]
fn fields_between_marks() {
    assert_eq!(split_on("", ','), vec![""]);
    assert_eq!(split_on("a", ','), vec!["a"]);
    assert_eq!(split_on("a,b,c", ','), vec!["a", "b", "c"]);
    assert_eq!(split_on(",a,,b,", ','), vec!["", "a", "", "b", ""]);
    assert_eq!(split_on("a b", ','), vec!["a b"]);
    for text in ["", " ", "a  b", " lead", "trail ", "é ü"] {
        let expected: Vec<String> = text.split(' ').map(|p| p.to_string()).collect();
        assert_eq!(split_on(text, ' '), expected);
    }
}

#[test]
fn tokens_as_a_list() {
    assert_eq!(split_tokens("don't stop."), vec!["don't", "stop"]);
    assert_eq!(split_tokens("  "), Vec::<String>::new());
    assert_eq!(split_tokens("a,b"), vec!["a", "b"]);
}

#[test]
fn small_numbers_are_read() {
    assert_eq!(parse_u8("0"), Some(0));
    assert_eq!(parse_u8("7"), Some(7));
    assert_eq!(parse_u8("255"), Some(255));
    assert_eq!(parse_u8("+255"), Some(255));
    assert_eq!(parse_u8("007"), Some(7));
    assert_eq!(parse_u8("0000000000000000000000255"), Some(255));
    assert_eq!(parse_u8("256"), None);
    assert_eq!(parse_u8("1000"), None);
    assert_eq!(parse_u8("99999999999999999999999"), None);
    assert_eq!(parse_u8(""), None);
    assert_eq!(parse_u8("+"), None);
    assert_eq!(parse_u8("-1"), None);
    assert_eq!(parse_u8("-0"), None);
    assert_eq!(parse_u8("++1"), None);
    assert_eq!(parse_u8("1+"), None);
    assert_eq!(parse_u8(" 1"), None);
    assert_eq!(parse_u8("1 "), None);
    assert_eq!(parse_u8("12a"), None);
    assert_eq!(parse_u8("١٢"), None);
}

#[test]
fn small_numbers_agree_with_the_standard_library() {
    for text in [
        "", "0", "+0", "-0", "12", "255", "256", "+", "0255", "2 5", "25\n", "a", "+-1", "300", "٣",
    ] {
        assert_eq!(parse_u8(text), text.parse::<u8>().ok(), "{:?}", text);
    }
}

#[test]
fn a_student_is_read_from_a_line() {
    match parse_student("Constantin,0711111111,21") {
        Ok(s) => {
            assert_eq!(s.name, "Constantin");
            assert_eq!(s.phone, Some("0711111111".to_string()));
            assert_eq!(s.age, 21);
        }
        Err(_) => panic!("the line describes a student"),
    }
    match parse_student("Mihai") {
        Ok(s) => {
            assert_eq!(s.name, "Mihai");
            assert_eq!(s.phone, None);
            assert_eq!(s.age, 0);
        }
        Err(_) => panic!("missing fields are left empty"),
    }
    match parse_student("Elena,07,19,more,fields") {
        Ok(s) => assert_eq!(s.age, 19),
        Err(_) => panic!("further fields say nothing"),
    }
    match parse_student("") {
        Ok(s) => assert_eq!(s.name, ""),
        Err(_) => panic!("an empty line is a student without a name"),
    }
    assert!(parse_student("Ana,07,abc").is_err());
    assert!(parse_student("Ana,07,").is_err());
    assert!(parse_student("Ana,07, 20").is_err());
    assert!(parse_student("Ana,07,300").is_err());
}

fn student(name: &str, age: u8) -> Student {
    Student { name: name.to_string(), phone: None, age }
}

fn names(class: Vec<Student>) -> (String, u8, String, u8) {
    let e = oldest_and_youngest(class);
    (e.oldest.name, e.oldest.age, e.youngest.name, e.youngest.age)
}

#[test]
fn the_oldest_and_the_youngest() {
    assert_eq!(
        names(vec![
            student("a", 20),
            student("b", 19),
            student("c", 23),
            student("d", 18),
            student("e", 23)
        ]),
        ("c".to_string(), 23, "d".to_string(), 18)
    );
    assert_eq!(names(vec![]), (String::new(), 0, String::new(), 255));
}

#[test]
fn who_becomes_the_oldest_is_not_asked_about_the_youngest() {
    assert_eq!(
        names(vec![student("only", 20)]),
        ("only".to_string(), 20, String::new(), 255)
    );
    assert_eq!(
        names(vec![student("a", 20), student("b", 30), student("c", 25)]),
        ("b".to_string(), 30, "c".to_string(), 25)
    );
    assert_eq!(
        names(vec![student("baby", 0)]),
        (String::new(), 0, "baby".to_string(), 0)
    );
}

#[test]
fn abbreviations_are_written_out() {
    assert_eq!(
        expand_abbreviations("am fost la dl Matei pt ca m-a invitat"),
        "am fost la domnul Matei pentru ca m-a invitat "
    );
    assert_eq!(expand_abbreviations("ptr dna"), "pentru doamna ");
    assert_eq!(
        expand_abbreviations("Y'ought'n't've done it"),
        "You all ought not to have done it "
    );
    assert_eq!(expand_abbreviations(""), " ");
    assert_eq!(expand_abbreviations("a  b"), "a  b ");
    assert_eq!(expand_abbreviations("pt."), "pt. ");
    assert_eq!(expand_abbreviations("PT\npt"), "PT\npt ");
}

#[test]
fn hosts_are_reported_name_first() {
    let table = "# comment\n127.0.0.1 localhost\n\n10.0.0.7    build.example  alias\n#10.0.0.8 x\n";
    assert_eq!(
        hosts_report(table),
        vec!["localhost => 127.0.0.1", "build.example => 10.0.0.7"]
    );
    assert_eq!(hosts_report(""), Vec::<String>::new());
}

#[test]
fn a_line_without_a_name_keeps_the_last_one() {
    assert_eq!(
        hosts_report("1.1.1.1 one\n2.2.2.2\n 3.3.3.3 three\n4.4.4.4 \n"),
        vec!["one => 1.1.1.1", "one => 2.2.2.2", "3.3.3.3 => 4.4.4.4"]
    );
    assert_eq!(hosts_report("9.9.9.9"), vec![" => 9.9.9.9"]);
}

fn listed(table: &WordsFrequencyMap) -> Vec<(String, u32)> {
    table
        .entries()
        .iter()
        .map(|e| (e.word().to_string(), e.appearances()))
        .collect()
}

#[test]
fn words_are_counted_without_regard_to_case() {
    let table = count_words("The cat's hat. THE Cat; the ÉCOLE école");
    assert_eq!(
        listed(&table),
        vec![
            ("the".to_string(), 3),
            ("cat".to_string(), 2),
            ("s".to_string(), 1),
            ("hat".to_string(), 1),
            ("école".to_string(), 2),
        ]
    );
    assert_eq!(count_words("").len(), 0);
    assert_eq!(count_words("'''").len(), 0);
}

#[test]
fn the_ranking_falls() {
    let table = count_words("a b b c c c d d d d e");
    let ranking = ranked(table.entries());
    let counts: Vec<u32> = ranking.iter().map(|e| e.appearances()).collect();
    assert_eq!(counts, vec![4, 3, 2, 1, 1]);
    let mut words: Vec<String> = ranking.iter().map(|e| e.word().to_string()).collect();
    assert_eq!(&words[..3], ["d", "c", "b"]);
    words.sort();
    assert_eq!(words, vec!["a", "b", "c", "d", "e"]);
    assert!(ranked(Vec::new()).is_empty());
}

#[test]
fn the_ranking_is_set_in_a_column() {
    let table = count_words("alpha be be é é é");
    let lines = ranking_lines(&ranked(table.entries()));
    assert_eq!(lines, vec!["é     => 3", "be    => 2", "alpha => 1"]);
    let wide = count_words("éééé a a");
    assert_eq!(
        ranking_lines(&ranked(wide.entries())),
        vec!["a        => 2", "éééé     => 1"]
    );
    assert!(ranking_lines(&Vec::new()).is_empty());
}

#[test]
fn paths_with_the_wrong_ending_give_way_to_the_usual_ones() {
    assert_eq!(dataset_path(&Some("my/data.zip".to_string())), "my/data.zip");
    assert_eq!(dataset_path(&Some("my/data.tar".to_string())), "datasets/dataset.zip");
    assert_eq!(dataset_path(&Some(String::new())), "datasets/dataset.zip");
    assert_eq!(dataset_path(&None), "datasets/dataset.zip");
    assert_eq!(stats_path(&Some("out.txt".to_string())), "out.txt");
    assert_eq!(stats_path(&Some("out.json".to_string())), "stats.txt");
    assert_eq!(stats_path(&Some(".txt".to_string())), ".txt");
    assert_eq!(stats_path(&None), "stats.txt");
}
