use minigrep::search;
use minigrep::search_case_insensitive;

#[test]
fn one_result() {
    let query = "duct";
    let contents = "\
Rust:
safe, fast, productive.
Pick three.";

    assert_eq!(vec!["safe, fast, productive."], search(query, contents));
}

#[test]
fn case_insensitive() {
    let query = "rUsT";
    let contents = "\
Rust:
safe, fast, productive.
Pick three.
Trust me.";

    assert_eq!(
        vec!["Rust:", "Trust me."],
        search_case_insensitive(query, contents)
    );
}

#[test]
fn case_sensitive_misses_mixed_case() {
    let query = "rUsT";
    let contents = "Rust:\nsafe, fast, productive.\nPick three.\nTrust me.";

    assert_eq!(Vec::<&str>::new(), search(query, contents));
}

#[test]
fn every_result_contains_the_query() {
    let query = "an";
    let contents = "banana\napple\nmango\ncherry";
    let results = search(query, contents);

    assert_eq!(vec!["banana", "mango"], results);
    for line in results {
        assert!(line.contains(query));
    }
}

#[test]
fn case_insensitive_results_superset_of_sensitive() {
    let query = "Rust";
    let contents = "Rust:\ntrust me.\nRUSTY\nRust again";
    let sensitive = search(query, contents);
    let insensitive = search_case_insensitive(query, contents);

    assert_eq!(vec!["Rust:", "Rust again"], sensitive);
    assert_eq!(vec!["Rust:", "trust me.", "RUSTY", "Rust again"], insensitive);
    for line in sensitive {
        assert!(insensitive.contains(&line));
    }
}

#[test]
fn empty_query_returns_all_lines() {
    let contents = "abc\ndef\nghi";

    assert_eq!(vec!["abc", "def", "ghi"], search("", contents));
    assert_eq!(vec!["abc", "def", "ghi"], search_case_insensitive("", contents));
}

#[test]
fn absent_query_returns_nothing() {
    let query = "xyz123";
    let contents = "abc\ndef";

    assert!(search(query, contents).is_empty());
    assert!(search_case_insensitive(query, contents).is_empty());
}

#[test]
fn empty_contents_return_nothing() {
    assert!(search("abc", "").is_empty());
    assert!(search_case_insensitive("abc", "").is_empty());
    assert!(search("", "").is_empty());
}

#[test]
fn trailing_newline_opens_no_line() {
    assert_eq!(vec!["abc", "def"], search("", "abc\ndef\n"));
}

#[test]
fn carriage_return_newline_terminates_lines() {
    assert_eq!(vec!["abc", "def"], search("", "abc\r\ndef"));
    assert_eq!(vec!["abc"], search("abc", "abc\r\nxyz"));
}

#[test]
fn lone_carriage_return_stays_in_the_line() {
    assert_eq!(vec!["ab\rcd"], search("", "ab\rcd"));
}

#[test]
fn query_spanning_lines_matches_nothing() {
    assert!(search("ab\ncd", "ab\ncd").is_empty());
}

#[test]
fn insensitive_results_keep_original_casing() {
    assert_eq!(
        vec!["HELLO world"],
        search_case_insensitive("hello", "HELLO world\ngoodbye")
    );
}
