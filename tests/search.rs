use minigrep::{
    contains, handle_search, matches_line, report, search, search_case_insensitive,
    search_case_insensitive_with_line_numbers, search_with_line_numbers, Config, Mode, Report,
    SearchRequest,
};

#[test]
fn case_sensitive() {
    let query = "duct";
    let contents = "\
Rust:
safe, fast, productive.
Pick three.
Duct tape.";

    assert_eq!(vec!["safe, fast, productive."], search(query, contents));
}

#[test]
fn case_insensitive() {
    let query = "rUsT";
    let contents = "\
Rust:
safe, fast, productive.
Pick three.
Trust me.";

    assert_eq!(vec![] as Vec<&str>, search(query, contents));
}

#[test]
fn no_matches() {
    let query = "xyz";
    let contents = "\
Hello world
This is a test
Nothing here";

    assert_eq!(vec![] as Vec<&str>, search(query, contents));
}

#[test]
fn multiple_matches() {
    let query = "road";
    let contents = "\
Two roads diverged in a yellow wood,
And sorry I could not travel both
Two roads diverged in a wood, and I—";

    assert_eq!(
        vec!["Two roads diverged in a yellow wood,", "Two roads diverged in a wood, and I—"],
        search(query, contents)
    );
}

#[test]
fn case_insensitive_finds_mixed_case_lines() {
    let contents = "Rust:\nsafe, fast, productive.\nPick three.\nTrust me.";
    assert_eq!(vec!["Rust:", "Trust me."], search_case_insensitive("rUsT", contents));
}

#[test]
fn line_numbers_count_every_line() {
    let contents = "Rust:\nsafe, fast, productive.\nPick three.\nDuct tape.";
    assert_eq!(vec![(2, "safe, fast, productive.")], search_with_line_numbers("duct", contents));
}

#[test]
fn line_numbers_are_positions_not_ranks() {
    let contents = "a\nb\nab\nc\nba";
    assert_eq!(vec![(2, "b"), (3, "ab"), (5, "ba")], search_with_line_numbers("b", contents));
}

#[test]
fn case_insensitive_line_numbers() {
    let contents = "Rust:\nsafe, fast, productive.\nPick three.\nDuct tape.";
    assert_eq!(
        vec![(2, "safe, fast, productive."), (4, "Duct tape.")],
        search_case_insensitive_with_line_numbers("DUCT", contents)
    );
}

#[test]
fn search_keeps_order_and_only_containing_lines() {
    let contents = "one\ntwo\nthree\nfour\nfive";
    assert_eq!(vec!["one", "two", "four"], search("o", contents));
}

#[test]
fn a_line_with_several_occurrences_is_listed_once() {
    assert_eq!(vec!["aaa", "a"], search("a", "aaa\nbbb\na"));
}

#[test]
fn case_insensitive_covers_exact_matches() {
    let contents = "Rust:\nrust is here\nno match\nTRUST";
    let exact = search_with_line_numbers("rust", contents);
    let folded = search_case_insensitive_with_line_numbers("rust", contents);
    assert_eq!(vec![(2, "rust is here")], exact);
    assert_eq!(vec![(1, "Rust:"), (2, "rust is here"), (4, "TRUST")], folded);
    for m in &exact {
        assert!(folded.contains(m));
    }
}

#[test]
fn searching_twice_gives_the_same_result() {
    let contents = "Rust:\nsafe, fast, productive.\nPick three.\nTrust me.";
    assert_eq!(search("ust", contents), search("ust", contents));
    assert_eq!(search_case_insensitive("UST", contents), search_case_insensitive("UST", contents));
    assert_eq!(search_with_line_numbers("a", contents), search_with_line_numbers("a", contents));
    assert_eq!(
        search_case_insensitive_with_line_numbers("A", contents),
        search_case_insensitive_with_line_numbers("A", contents)
    );
}

#[test]
fn empty_query_matches_every_line() {
    let contents = "first\n\nthird";
    assert_eq!(vec!["first", "", "third"], search("", contents));
    assert_eq!(vec!["first", "", "third"], search_case_insensitive("", contents));
    assert_eq!(vec![(1, "first"), (2, ""), (3, "third")], search_with_line_numbers("", contents));
}

#[test]
fn empty_contents_have_no_matches() {
    assert_eq!(vec![] as Vec<&str>, search("x", ""));
    assert_eq!(vec![] as Vec<&str>, search("", ""));
    assert_eq!(vec![] as Vec<&str>, search_case_insensitive("", ""));
    assert_eq!(vec![] as Vec<(usize, &str)>, search_with_line_numbers("", ""));
}

#[test]
fn carriage_returns_before_newlines_are_not_part_of_lines() {
    assert_eq!(vec!["alpha", "beta"], search("", "alpha\r\nbeta\r\n"));
    assert_eq!(vec!["tail\r"], search("tail", "head\ntail\r"));
    assert_eq!(vec!["a\rb"], search("a\rb", "a\rb\n"));
}

#[test]
fn a_final_newline_adds_no_line() {
    assert_eq!(vec!["x", "y"], search("", "x\ny\n"));
    assert_eq!(vec!["x", "", "y", ""], search("", "x\n\ny\n\n"));
    assert_eq!(vec![""], search("", "\n"));
}

#[test]
fn case_insensitive_uses_unicode_lowercase() {
    assert_eq!(vec!["ÉCOLE normale"], search_case_insensitive("école", "ÉCOLE normale\nautre"));
    assert_eq!(vec!["İstanbul"], search_case_insensitive("i\u{307}stanbul", "İstanbul\nAnkara"));
    assert_eq!(vec![] as Vec<&str>, search("école", "ÉCOLE normale"));
}

#[test]
fn final_sigma_lowercases_by_context() {
    assert_eq!(vec!["ΑΣ"], search("Σ", "ΑΣ"));
    assert_eq!(vec![] as Vec<&str>, search_case_insensitive("Σ", "ΑΣ"));
    assert_eq!(vec!["ΑΣΑ"], search_case_insensitive("Σ", "ΑΣΑ"));
}

#[test]
fn query_may_span_non_ascii_characters() {
    assert_eq!(vec![(2, "naïve café")], search_with_line_numbers("ïve c", "plain\nnaïve café"));
}

#[test]
fn contains_finds_substrings() {
    assert!(contains("hello world", "lo w"));
    assert!(contains("hello", ""));
    assert!(contains("", ""));
    assert!(!contains("hello", "hellos"));
    assert!(!contains("", "a"));
    assert!(!contains("Hello", "hello"));
}

#[test]
fn matches_line_lowercases_when_asked() {
    assert!(matches_line("HELLO", "say hello", true));
    assert!(!matches_line("HELLO", "say hello", false));
    assert!(matches_line("Straße", "STRASSE straße", true));
}

fn args(v: &[&str]) -> Vec<String> {
    v.iter().map(|s| s.to_string()).collect()
}

#[test]
fn config_reads_query_and_filename() {
    let a = args(&["minigrep", "needle", "poem.txt"]);
    let c = Config::new(&a).ok().unwrap();
    assert_eq!("needle", c.query);
    assert_eq!("poem.txt", c.filename);
    let a = args(&["minigrep", "needle", "poem.txt", "extra"]);
    assert!(Config::new(&a).is_ok());
}

#[test]
fn config_needs_two_arguments() {
    for n in 0..3 {
        let a = args(&["minigrep", "needle", "poem.txt"][..n]);
        assert_eq!(Some("Not enough arguments"), Config::new(&a).err());
    }
}

const POEM: &str = "Rust:\nsafe, fast, productive.\nPick three.\nDuct tape.";

#[test]
fn report_lines_in_each_case_mode() {
    let exact = Mode { case_sensitive: true, line_numbers: false, count_only: false };
    match report("duct", POEM, exact) {
        Report::Lines(v) => assert_eq!(vec!["safe, fast, productive."], v),
        _ => panic!("expected lines"),
    }
    let folded = Mode { case_sensitive: false, line_numbers: false, count_only: false };
    match report("duct", POEM, folded) {
        Report::Lines(v) => assert_eq!(vec!["safe, fast, productive.", "Duct tape."], v),
        _ => panic!("expected lines"),
    }
}

#[test]
fn report_numbered_lines() {
    let exact = Mode { case_sensitive: true, line_numbers: true, count_only: false };
    match report("duct", POEM, exact) {
        Report::Numbered(v) => assert_eq!(vec![(2, "safe, fast, productive.")], v),
        _ => panic!("expected numbered lines"),
    }
    let folded = Mode { case_sensitive: false, line_numbers: true, count_only: false };
    match report("duct", POEM, folded) {
        Report::Numbered(v) => {
            assert_eq!(vec![(2, "safe, fast, productive."), (4, "Duct tape.")], v)
        }
        _ => panic!("expected numbered lines"),
    }
}

#[test]
fn report_count_takes_precedence_over_numbers() {
    let m = Mode { case_sensitive: false, line_numbers: true, count_only: true };
    match report("duct", POEM, m) {
        Report::Count(n) => assert_eq!(2, n),
        _ => panic!("expected a count"),
    }
    let m = Mode { case_sensitive: true, line_numbers: false, count_only: true };
    match report("duct", POEM, m) {
        Report::Count(n) => assert_eq!(1, n),
        _ => panic!("expected a count"),
    }
}

#[test]
fn web_search_answers_with_matches_and_count() {
    let req = SearchRequest {
        query: "road".to_string(),
        content: "Two roads diverged\nAnd sorry".to_string(),
    };
    let resp = handle_search(&req);
    assert_eq!(vec!["Two roads diverged".to_string()], resp.matches);
    assert_eq!(1, resp.count);
}

#[test]
fn web_search_is_case_sensitive() {
    let req = SearchRequest { query: "ROAD".to_string(), content: "Two roads".to_string() };
    let resp = handle_search(&req);
    assert!(resp.matches.is_empty());
    assert_eq!(0, resp.count);
}

#[test]
fn index_page_posts_to_the_search_endpoint() {
    let page = minigrep::get_index_html();
    assert!(page.contains("<!DOCTYPE html>"));
    assert!(page.contains("/api/search"));
}
