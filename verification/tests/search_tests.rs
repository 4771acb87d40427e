use minigrep::search::{search, search_case_insensitive, MatchingItem};

#[test]
fn case_sensitive() {
    let query = "duct";
    let lines = [
        "Rust:".to_string(),
        "safe, fast, productive.".to_string(),
        "Pick three.".to_string(),
        "Duct tape.".to_string(),
    ];
    let expected = vec![MatchingItem {
        start_index: 15,
        end_index: 18,
        line_index: 1,
    }];
    let actual = search(query, &lines);
    assert_eq!(actual, expected);
    assert_eq!(query, lines[1].get(15..=18).unwrap());
}

#[test]
fn case_insensitive() {
    let query = "rUsT";
    let lines = [
        "Rust:".to_string(),
        "safe, fast, productive.".to_string(),
        "Pick three.".to_string(),
        "Trust me.".to_string(),
    ];
    let expected = vec![
        MatchingItem {
            start_index: 0,
            end_index: 3,
            line_index: 0,
        },
        MatchingItem {
            start_index: 1,
            end_index: 4,
            line_index: 3,
        },
    ];
    let actual = search_case_insensitive(query, &lines);
    assert_eq!(actual, expected);
    assert_eq!("Rust", lines[0].get(0..=3).unwrap());
    assert_eq!("rust", lines[3].get(1..=4).unwrap());
}

#[test]
fn empty_query_yields_no_matches() {
    let lines = ["anything at all".to_string(), "".to_string()];
    assert_eq!(search("", &lines), vec![]);
    assert_eq!(search_case_insensitive("", &lines), vec![]);
}

#[test]
fn empty_lines_yield_no_matches() {
    let lines: Vec<String> = Vec::new();
    assert_eq!(search("query", &lines), vec![]);
    assert_eq!(search_case_insensitive("query", &lines), vec![]);
}

#[test]
fn overlapping_matches_are_all_reported() {
    let lines = ["aaa".to_string()];
    let expected = vec![
        MatchingItem {
            start_index: 0,
            end_index: 1,
            line_index: 0,
        },
        MatchingItem {
            start_index: 1,
            end_index: 2,
            line_index: 0,
        },
    ];
    assert_eq!(search("aa", &lines), expected);
}

#[test]
fn query_longer_than_line_yields_no_matches() {
    let lines = ["ab".to_string()];
    assert_eq!(search("abc", &lines), vec![]);
}

#[test]
fn case_fold_is_idempotent_on_lowercase_input() {
    let query = "rust";
    let lines = [
        "rust is lovely".to_string(),
        "trust the borrow checker".to_string(),
        "no match here".to_string(),
    ];
    let sensitive = search(query, &lines);
    let insensitive = search_case_insensitive(query, &lines);
    assert_eq!(sensitive, insensitive);
    assert_eq!(sensitive.len(), 2);
}

#[test]
fn matches_are_ordered_by_line_then_start() {
    let lines = [
        "abab".to_string(),
        "no".to_string(),
        "ab".to_string(),
    ];
    let actual = search("ab", &lines);
    let expected = vec![
        MatchingItem {
            start_index: 0,
            end_index: 1,
            line_index: 0,
        },
        MatchingItem {
            start_index: 2,
            end_index: 3,
            line_index: 0,
        },
        MatchingItem {
            start_index: 0,
            end_index: 1,
            line_index: 2,
        },
    ];
    assert_eq!(actual, expected);
}
