use minigrep::contains_str;
use minigrep::run_search;
use minigrep::search;
use minigrep::search_case_insensitive;
use minigrep::split_lines;
use minigrep::Config;
use minigrep::ConfigError;

#[test]
fn case_sensitive() {
    let query = "duct";
    let contents = "\
Rust:
safe, fast, productive.
Pick three.";

    assert_eq!(vec!["safe, fast, productive."], search(query, contents));
}

#[test]
fn case_insensitive() {
    let query = "rUsT";
    let contents = "\
Rust:
safe, fast, productive.
Pick three.
Trust me.";

    assert_eq!(
        vec!["Rust:", "Trust me."],
        search_case_insensitive(query, contents)
    );
}

#[test]
#[should_panic]
fn check_num_args() {
    let args: Vec<String> = vec![String::from("arg1")];

    let _config = Config::new(&args, true).expect("Not enough args");
}

#[test]
fn new_config_test() {
    let args: Vec<String> = vec![
        String::from("/some/file"),
        String::from("needle"),
        String::from("haystack"),
    ];

    let test_config = Config::new(&args, true);

    assert!(test_config.is_ok())
}

#[test]
fn config_stores_arguments_verbatim() {
    let args: Vec<String> = vec![
        String::from("prog"),
        String::from("needle"),
        String::from("haystack"),
    ];

    let config = Config::new(&args, true).unwrap();
    assert_eq!(config.query, "needle");
    assert_eq!(config.filename, "haystack");
    assert!(config.case_sensitive);

    let config = Config::new(&args, false).unwrap();
    assert!(!config.case_sensitive);
}

#[test]
fn config_rejects_short_argument_lists() {
    let none: Vec<String> = vec![];
    let one: Vec<String> = vec![String::from("prog")];
    let two: Vec<String> = vec![String::from("prog"), String::from("needle")];

    assert!(matches!(
        Config::new(&none, true),
        Err(ConfigError::InsufficientArguments)
    ));
    assert!(matches!(
        Config::new(&one, true),
        Err(ConfigError::InsufficientArguments)
    ));
    assert!(matches!(
        Config::new(&two, false),
        Err(ConfigError::InsufficientArguments)
    ));
}

#[test]
fn empty_query_matches_every_line() {
    let contents = "one\ntwo\nthree";
    assert_eq!(vec!["one", "two", "three"], search("", contents));
    assert_eq!(vec!["one", "two", "three"], search_case_insensitive("", contents));
}

#[test]
fn empty_contents_give_no_lines() {
    assert!(search("needle", "").is_empty());
    assert!(search("", "").is_empty());
    assert!(search_case_insensitive("needle", "").is_empty());
}

#[test]
fn results_keep_source_order() {
    let contents = "alpha\nbeta\ngamma\nalbatross\nbanana\nalps";
    assert_eq!(vec!["alpha", "albatross", "alps"], search("al", contents));
}

#[test]
fn no_match_gives_empty_result() {
    let contents = "one\ntwo\nthree";
    let empty: Vec<&str> = Vec::new();
    assert_eq!(empty, search("four", contents));
    assert_eq!(empty, search_case_insensitive("four", contents));
}

#[test]
fn query_longer_than_any_line_matches_nothing() {
    let contents = "ab\ncd";
    let empty: Vec<&str> = Vec::new();
    assert_eq!(empty, search("abcde", contents));
}

#[test]
fn carriage_return_line_feed_is_one_terminator() {
    let contents = "one\r\ntwo\r\nthree";
    assert_eq!(vec!["one", "two", "three"], search("", contents));
    assert_eq!(vec!["two"], search("two", contents));
}

#[test]
fn lone_carriage_return_stays_in_its_line() {
    let contents = "a\rb\nc";
    assert_eq!(vec!["a\rb", "c"], search("", contents));
    assert_eq!(vec!["a\rb"], search("a\rb", contents));
}

#[test]
fn final_line_terminator_opens_no_line() {
    assert_eq!(vec!["one", "two"], split_lines("one\ntwo\n"));
    assert_eq!(vec!["one", "two"], split_lines("one\ntwo"));
    assert_eq!(vec![""], split_lines("\n"));
    let empty: Vec<&str> = Vec::new();
    assert_eq!(empty, split_lines(""));
}

#[test]
fn split_lines_keeps_empty_interior_lines() {
    assert_eq!(vec!["one", "", "two"], split_lines("one\n\ntwo"));
}

#[test]
fn contains_str_finds_substrings() {
    assert!(contains_str("hello", "ell"));
    assert!(contains_str("hello", "hello"));
    assert!(contains_str("hello", ""));
    assert!(contains_str("", ""));
    assert!(!contains_str("", "x"));
    assert!(!contains_str("hello", "hex"));
    assert!(!contains_str("abc", "abcd"));
}

#[test]
fn case_insensitive_keeps_original_casing() {
    let contents = "TRUST ME\ntrust me\nTrUsT mE\nnothing here";
    assert_eq!(
        vec!["TRUST ME", "trust me", "TrUsT mE"],
        search_case_insensitive("RUST", contents)
    );
}

#[test]
fn case_insensitive_folds_beyond_ascii() {
    let contents = "ÄPFEL sind gut\nBirnen auch";
    assert_eq!(
        vec!["ÄPFEL sind gut"],
        search_case_insensitive("äpfel", contents)
    );
}

#[test]
fn run_search_follows_case_policy() {
    let contents = "Rust:\nsafe, fast, productive.\nPick three.\nTrust me.";
    let args: Vec<String> = vec![
        String::from("prog"),
        String::from("rUsT"),
        String::from("poem.txt"),
    ];

    let sensitive = Config::new(&args, true).unwrap();
    let empty: Vec<&str> = Vec::new();
    assert_eq!(empty, run_search(&sensitive, contents));

    let insensitive = Config::new(&args, false).unwrap();
    assert_eq!(
        vec!["Rust:", "Trust me."],
        run_search(&insensitive, contents)
    );
}
