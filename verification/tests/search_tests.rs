use minigrep::search;
use minigrep::search_case_insensitive;

#[test]
fn case_sensitive() {
    let query = "safe";
    let file_content = "\
Rust:
safe, fast, productive.
Pick three.";

    assert_eq!(vec!["safe, fast, productive."], search(query, file_content));
}

#[test]
fn case_insensitive() {
    let query = "Ree";
    let file_content = "\
Rust:
safe, fast, productive.
Pick three.";

    assert_eq!(
        vec!["Pick three."],
        search_case_insensitive(query, file_content)
    );
}

#[test]
fn exact_search_misses_other_case() {
    let file_content = "\
Rust:
safe, fast, productive.
Pick three.";

    assert_eq!(Vec::<&str>::new(), search("Ree", file_content));
    assert_eq!(Vec::<&str>::new(), search("rust", file_content));
}

#[test]
fn empty_query_returns_all_lines() {
    let file_content = "\
Rust:
safe, fast, productive.
Pick three.";

    assert_eq!(
        vec!["Rust:", "safe, fast, productive.", "Pick three."],
        search("", file_content)
    );
}

#[test]
fn empty_text_returns_nothing() {
    assert_eq!(Vec::<&str>::new(), search("safe", ""));
    assert_eq!(Vec::<&str>::new(), search("", ""));
    assert_eq!(Vec::<&str>::new(), search_case_insensitive("safe", ""));
}

#[test]
fn trailing_line_feed_closes_the_last_line() {
    assert_eq!(vec!["a", "", "b"], search("", "a\n\nb\n"));
    assert_eq!(vec![""], search("", "\n"));
    assert_eq!(vec!["a", "b"], search("", "a\nb\n"));
}

#[test]
fn case_insensitive_finds_everything_exact_finds() {
    let file_content = "\
Rust:
safe, fast, productive.
Pick three.";

    let exact = search("Rust", file_content);
    let relaxed = search_case_insensitive("Rust", file_content);
    for line in exact {
        assert!(relaxed.contains(&line));
    }
}

#[test]
fn case_insensitive_lowers_beyond_ascii() {
    let file_content = "zwei \u{c4}pfel\nein apfel";

    assert_eq!(
        vec!["zwei \u{c4}pfel"],
        search_case_insensitive("\u{e4}PFEL", file_content)
    );
}

#[test]
fn query_spanning_a_line_break_never_matches() {
    assert_eq!(Vec::<&str>::new(), search("a\nb", "a\nb"));
}

#[test]
fn results_keep_file_order() {
    let file_content = "one stop\ntwo\nthree stop\nfour stop";

    assert_eq!(
        vec!["one stop", "three stop", "four stop"],
        search("stop", file_content)
    );
}
