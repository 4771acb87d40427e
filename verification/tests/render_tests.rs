use colored::Colorize;
use minigrep::render::{grep_lines, render, replace_segment};
use minigrep::search::{search, MatchingItem};

#[test]
fn replace_segment_splices_exactly() {
    let replaced = replace_segment("abcdef", 1, 3, "XY");
    assert_eq!(replaced, "aXYef");
    let replaced = replace_segment("abc", 0, 2, "longer");
    assert_eq!(replaced, "longer");
}

#[test]
fn render_keeps_only_matched_lines_in_order() {
    colored::control::set_override(false);
    let lines = [
        "Rust:".to_string(),
        "safe, fast, productive.".to_string(),
        "Pick three.".to_string(),
        "Trust me.".to_string(),
    ];
    let matches = vec![
        MatchingItem {
            start_index: 0,
            end_index: 3,
            line_index: 0,
        },
        MatchingItem {
            start_index: 1,
            end_index: 4,
            line_index: 3,
        },
    ];
    let output = render(&lines, &matches);
    assert_eq!(output, vec!["Rust:".to_string(), "Trust me.".to_string()]);
}

#[test]
fn scenario_case_sensitive_grep() {
    colored::control::set_override(false);
    let lines = [
        "Rust:".to_string(),
        "safe, fast, productive.".to_string(),
        "Pick three.".to_string(),
        "Duct tape.".to_string(),
    ];
    let output = grep_lines("duct", &lines, false).unwrap();
    assert_eq!(output, vec!["safe, fast, productive.".to_string()]);
}

#[test]
fn scenario_case_sensitive_grep_colorized() {
    colored::control::set_override(true);
    let lines = [
        "Rust:".to_string(),
        "safe, fast, productive.".to_string(),
        "Pick three.".to_string(),
        "Duct tape.".to_string(),
    ];
    let output = grep_lines("duct", &lines, false).unwrap();
    assert_eq!(output.len(), 1);
    let expected = format!("safe, fast, pro{}ive.", "duct".red().bold());
    assert_eq!(output[0], expected);
    assert!(output[0].contains('\u{1b}'));
}

#[test]
fn scenario_case_insensitive_grep() {
    colored::control::set_override(false);
    let lines = [
        "Rust:".to_string(),
        "safe, fast, productive.".to_string(),
        "Pick three.".to_string(),
        "Trust me.".to_string(),
    ];
    let output = grep_lines("rUsT", &lines, true).unwrap();
    assert_eq!(output, vec!["Rust:".to_string(), "Trust me.".to_string()]);
}

#[test]
fn scenario_no_matches_renders_nothing() {
    colored::control::set_override(false);
    let lines = [
        "Rust:".to_string(),
        "safe, fast, productive.".to_string(),
    ];
    let output = grep_lines("monotonous", &lines, false).unwrap();
    assert_eq!(output, Vec::<String>::new());
}

#[test]
fn scenario_overlapping_matches_shift_correction() {
    colored::control::set_override(true);
    let lines = ["aaa".to_string()];
    let matches = search("aa", &lines);
    assert_eq!(matches.len(), 2);
    let output = render(&lines, &matches);

    // Replay the drift-corrected replacements by hand (all text is ASCII,
    // so byte and character positions agree).
    let mut line = "aaa".to_string();
    let mut shift = 0usize;
    for m in [(0usize, 1usize), (1usize, 2usize)] {
        let (start, end) = (m.0 + shift, m.1 + shift);
        let matching_text = line[start..=end].to_string();
        let colored_text = matching_text.red().bold().to_string();
        shift += colored_text.len() - matching_text.len();
        line.replace_range(start..=end, &colored_text);
    }
    assert_eq!(output, vec![line]);
}

#[test]
fn render_with_no_matches_yields_nothing() {
    colored::control::set_override(false);
    let lines = ["one".to_string(), "two".to_string()];
    let output = render(&lines, &Vec::new());
    assert_eq!(output, Vec::<String>::new());
}

#[test]
fn line_with_several_matches_appears_once() {
    colored::control::set_override(false);
    let lines = ["aba".to_string(), "b".to_string()];
    let matches = search("a", &lines);
    assert_eq!(matches.len(), 2);
    let output = render(&lines, &matches);
    assert_eq!(output, vec!["aba".to_string()]);
}

#[test]
fn case_insensitive_grep_rejects_length_changing_fold() {
    colored::control::set_override(false);
    // The uppercase dotted I lower-cases to two characters, so the match
    // coordinates of the lower-cased line do not fit the original line.
    let lines = ["\u{130}".to_string()];
    let output = grep_lines("i\u{307}", &lines, true);
    assert!(output.is_none());
}
