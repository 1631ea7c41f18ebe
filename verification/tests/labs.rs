use wiki_stats::formatting::{add_integer, add_space, add_str};
use wiki_stats::life::{new_cell_state, next_state, read_initial_state, render_state, GameBoard};
use wiki_stats::lines::{lines, longest_line_by_bytes, longest_line_by_chars};
use wiki_stats::opinion::{
    appreciation_for_not_putting_the_opening_bracket_on_a_new_line, appreciation_for_snake_case,
    favorite_case_style, total_appreciation, OpinionError,
};
use wiki_stats::rot13::{rot13_encode, rotate, EncodingError};
use wiki_stats::terminal::{
    counted, lookup, not_found, parse_line, pong, split_words, times_called, Lookup, Request,
};

fn integer(x: i32) -> String {
    let mut s = String::from(">");
    add_integer(&mut s, x);
    s
}

#[test]
fn spaces_and_strings_are_appended() {
    let mut s = String::from("a");
    add_space(&mut s, 3);
    add_str(&mut s, "I 💚");
    add_space(&mut s, 0);
    add_str(&mut s, "");
    add_space(&mut s, 1);
    assert_eq!(s, "a   I 💚 ");
}

#[test]
fn integers_are_grouped_by_three() {
    assert_eq!(integer(0), ">0");
    assert_eq!(integer(7), ">7");
    assert_eq!(integer(999), ">999");
    assert_eq!(integer(1000), ">1,000");
    assert_eq!(integer(306437), ">306,437");
    assert_eq!(integer(1000000), ">1,000,000");
    assert_eq!(integer(1002003), ">1,002,003");
    assert_eq!(integer(i32::MAX), ">2,147,483,647");
    assert_eq!(integer(-1), ">-1");
    assert_eq!(integer(-1234), ">-1,234");
    assert_eq!(integer(-2147483647), ">-2,147,483,647");
}

#[test]
fn rot13_moves_letters_only() {
    assert_eq!(rotate('a'), 'n');
    assert_eq!(rotate('m'), 'z');
    assert_eq!(rotate('n'), 'a');
    assert_eq!(rotate('z'), 'm');
    assert_eq!(rotate('A'), 'N');
    assert_eq!(rotate('Z'), 'M');
    assert_eq!(rotate('5'), '5');
    assert_eq!(rotate(' '), ' ');
    assert!(matches!(rot13_encode("Hello, World!"), Ok(s) if s == "Uryyb, Jbeyq!"));
    assert!(matches!(rot13_encode(""), Ok(s) if s.is_empty()));
}

#[test]
fn rot13_twice_gives_the_text_back() {
    let text = "The quick brown fox jumps over the lazy dog. 0123456789";
    let once = match rot13_encode(text) {
        Ok(s) => s,
        Err(_) => panic!("the text is ASCII"),
    };
    assert_ne!(once, text);
    assert!(matches!(rot13_encode(&once), Ok(s) if s == text));
}

#[test]
fn rot13_names_the_first_character_beyond_ascii() {
    assert!(matches!(
        rot13_encode("abc é ü"),
        Err(EncodingError::NonASCII('é'))
    ));
    assert!(matches!(
        rot13_encode("💚"),
        Err(EncodingError::NonASCII('💚'))
    ));
}

#[test]
fn lines_end_at_line_feeds() {
    assert_eq!(lines(""), Vec::<String>::new());
    assert_eq!(lines("a"), vec!["a"]);
    assert_eq!(lines("a\n"), vec!["a"]);
    assert_eq!(lines("a\nb"), vec!["a", "b"]);
    assert_eq!(lines("a\n\nb\n"), vec!["a", "", "b"]);
    assert_eq!(lines("\n"), vec![""]);
    assert_eq!(lines("\n\n"), vec!["", ""]);
}

#[test]
fn a_carriage_return_before_a_line_feed_goes_with_it() {
    assert_eq!(lines("a\r\nb\r\n"), vec!["a", "b"]);
    assert_eq!(lines("a\rb\nc"), vec!["a\rb", "c"]);
    assert_eq!(lines("a\r\r\nb"), vec!["a\r", "b"]);
    assert_eq!(lines("a\r"), vec!["a\r"]);
    assert_eq!(lines("\r"), vec!["\r"]);
    assert_eq!(lines("\r\n"), vec![""]);
    assert_eq!(lines("x\n\r"), vec!["x", "\r"]);
}

#[test]
fn lines_agree_with_the_standard_library() {
    for text in [
        "", "a", "a\n", "\n", "\r\n", "a\r\nb", "a\rb", "a\r", "\r\r\n\r", "one\ntwo\r\n\r\nthree\r",
        "\n\n\n", "é\r\n💚\n",
    ] {
        let expected: Vec<String> = text.lines().map(|l| l.to_string()).collect();
        assert_eq!(lines(text), expected, "{:?}", text);
    }
}

#[test]
fn the_first_longest_line_wins() {
    let text = "ab\nabcd\nwxyz\nabc".to_string();
    assert_eq!(longest_line_by_bytes(&text), (4, "abcd".to_string()));
    assert_eq!(longest_line_by_chars(&text), (4, "abcd".to_string()));
    assert_eq!(longest_line_by_bytes(&String::new()), (0, String::new()));
    assert_eq!(longest_line_by_chars(&"\n\n".to_string()), (0, String::new()));
}

#[test]
fn bytes_and_characters_measure_differently() {
    let text = "ééé\nabcde".to_string();
    assert_eq!(longest_line_by_bytes(&text), (6, "ééé".to_string()));
    assert_eq!(longest_line_by_chars(&text), (5, "abcde".to_string()));
}

fn board(description: &str) -> GameBoard {
    let mut gb = GameBoard { cells: [[false; 34]; 34], size: 34 };
    read_initial_state(&mut gb, description);
    gb
}

#[test]
fn a_board_is_read_from_its_description() {
    let gb = board(" x \n  x\nxxx\n");
    assert_eq!(gb.size, 3);
    assert!(!gb.cells[1][1] && gb.cells[1][2] && !gb.cells[1][3]);
    assert!(!gb.cells[2][1] && !gb.cells[2][2] && gb.cells[2][3]);
    assert!(gb.cells[3][1] && gb.cells[3][2] && gb.cells[3][3]);
    assert!(!gb.cells[0][0] && !gb.cells[4][1] && !gb.cells[1][4]);
    let untouched = board("");
    assert_eq!(untouched.size, 34);
}

#[test]
fn short_lines_leave_the_rest_of_the_row() {
    let mut gb = GameBoard { cells: [[true; 34]; 34], size: 0 };
    read_initial_state(&mut gb, "x..\n.\n");
    assert_eq!(gb.size, 3);
    assert!(gb.cells[1][1] && !gb.cells[1][2] && !gb.cells[1][3]);
    assert!(!gb.cells[2][1] && gb.cells[2][2] && gb.cells[2][3]);
    assert!(gb.cells[3][1]);
}

#[test]
fn the_board_is_drawn_in_a_frame() {
    let gb = board(" x \n  x\nxxx\n");
    assert_eq!(render_state(&gb), "#####\n# x #\n#  x#\n#xxx#\n#####\n");
    let empty = GameBoard { cells: [[false; 34]; 34], size: 0 };
    assert_eq!(render_state(&empty), "##\n##\n");
}

#[test]
fn cells_follow_the_rule() {
    let gb = board(" x \n  x\nxxx\n");
    assert!(!new_cell_state(gb.cells, 1, 2));
    assert!(new_cell_state(gb.cells, 2, 1));
    assert!(new_cell_state(gb.cells, 2, 3));
    assert!(new_cell_state(gb.cells, 3, 2));
    assert!(new_cell_state(gb.cells, 3, 3));
    assert!(!new_cell_state(gb.cells, 3, 1));
    assert!(!new_cell_state(gb.cells, 2, 2));
}

#[test]
fn a_blinker_blinks() {
    let mut gb = board("     \n     \n xxx \n     \n     \n");
    next_state(&mut gb);
    assert_eq!(
        render_state(&gb),
        "#######\n#     #\n#  x  #\n#  x  #\n#  x  #\n#     #\n#######\n"
    );
    next_state(&mut gb);
    assert_eq!(
        render_state(&gb),
        "#######\n#     #\n#     #\n# xxx #\n#     #\n#     #\n#######\n"
    );
}

#[test]
fn a_block_stays() {
    let mut gb = board("    \n xx \n xx \n    \n");
    let before = render_state(&gb);
    next_state(&mut gb);
    assert_eq!(render_state(&gb), before);
    assert_eq!(gb.size, 4);
}

#[test]
fn his_taste() {
    assert_eq!(favorite_case_style(), Some("camelCase".to_string()));
    assert_eq!(appreciation_for_snake_case(), None);
    assert_eq!(
        appreciation_for_not_putting_the_opening_bracket_on_a_new_line(),
        None
    );
    assert!(matches!(
        total_appreciation(
            appreciation_for_snake_case(),
            appreciation_for_not_putting_the_opening_bracket_on_a_new_line()
        ),
        Err(OpinionError::PureHate)
    ));
    assert!(matches!(total_appreciation(Some(3), None), Ok(3)));
    assert!(matches!(total_appreciation(Some(255), Some(255)), Ok(510)));
    assert!(matches!(
        total_appreciation(Some(0), Some(0)),
        Err(OpinionError::PureHate)
    ));
}

#[test]
fn a_line_falls_into_words_at_spaces() {
    assert_eq!(split_words(""), Vec::<String>::new());
    assert_eq!(split_words("   "), Vec::<String>::new());
    assert_eq!(split_words("ping"), vec!["ping"]);
    assert_eq!(split_words("  count a  b c "), vec!["count", "a", "b", "c"]);
    assert_eq!(split_words("a\tb c"), vec!["a\tb", "c"]);
}

#[test]
fn a_line_is_read_as_a_request() {
    assert!(matches!(parse_line(""), Request::Nothing));
    assert!(matches!(parse_line("    "), Request::Nothing));
    assert!(matches!(parse_line("stop"), Request::Stop));
    assert!(matches!(parse_line(" stop now"), Request::Stop));
    match parse_line("count a b  c") {
        Request::Call { name, args } => {
            assert_eq!(name, "count");
            assert_eq!(args, vec!["a", "b", "c"]);
        }
        _ => panic!("the line calls a command"),
    }
    match parse_line("STOP") {
        Request::Call { name, args } => {
            assert_eq!(name, "STOP");
            assert!(args.is_empty());
        }
        _ => panic!("only the lower-case word stops the terminal"),
    }
}

#[test]
fn commands_are_found_by_name_or_suggested() {
    let names: Vec<String> = ["ping", "count", "times", "help"]
        .iter()
        .map(|s| s.to_string())
        .collect();
    assert!(matches!(lookup(&names, "ping"), Lookup::Found(0)));
    assert!(matches!(lookup(&names, "help"), Lookup::Found(3)));
    assert!(matches!(lookup(&names, "PING"), Lookup::NotFound(s) if s == "ping"));
    assert!(matches!(lookup(&names, "TiMeS"), Lookup::NotFound(s) if s == "times"));
    assert!(matches!(lookup(&names, "bm"), Lookup::NotFound(s) if s == "help"));
    assert!(matches!(lookup(&Vec::new(), "ping"), Lookup::NotFound(s) if s == "help"));
    let twice: Vec<String> = ["Ping", "pIng", "ping"].iter().map(|s| s.to_string()).collect();
    assert!(matches!(lookup(&twice, "ping"), Lookup::Found(2)));
    assert!(matches!(lookup(&twice, "PING"), Lookup::NotFound(s) if s == "ping"));
    let caps: Vec<String> = ["Ping", "pIng"].iter().map(|s| s.to_string()).collect();
    assert!(matches!(lookup(&caps, "ping"), Lookup::NotFound(s) if s == "pIng"));
    let greek: Vec<String> = vec!["ΣΟΦΙΑ".to_string()];
    assert!(matches!(lookup(&greek, "σοφια"), Lookup::NotFound(s) if s == "ΣΟΦΙΑ"));
}

#[test]
fn what_the_commands_say() {
    assert_eq!(pong(), "pong!");
    assert_eq!(counted(0), "counted 0 args");
    assert_eq!(counted(12), "counted 12 args");
    assert_eq!(times_called(1), "'times' command has been called 1 times.");
    assert_eq!(
        times_called(u32::MAX),
        "'times' command has been called 4294967295 times."
    );
    assert_eq!(not_found("pong", "help"), "Command 'pong' not found. Try 'help'.");
}
