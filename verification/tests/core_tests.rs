use minigrep::config::Config;
use minigrep::error::RunError;
use minigrep::rectangle::Rectangle;
use minigrep::shirts::{ShirtColor, ShirtsInventory, TotalOccurrences};

#[test]
fn test_add() {
    assert_eq!(3, minigrep::add(&[1, 2]), "1 + 2 should be 3");
}

#[test]
fn test_add_many() {
    assert_eq!(6, minigrep::add(&[1, 2, 3]));
    assert_eq!(-7, minigrep::add(&[-7]));
    assert_eq!(0, minigrep::add(&[5, -5, 10, -10]));
}

#[test]
fn test_rectangle_can_hold() {
    let rectangle1 = Rectangle {
        width: 10,
        height: 10,
    };
    let rectangle2 = Rectangle {
        width: 5,
        height: 5,
    };
    let rectangle3 = Rectangle {
        width: 15,
        height: 15,
    };
    assert!(rectangle1.can_hold(&rectangle2));
    assert!(!rectangle1.can_hold(&rectangle3));
}

#[test]
pub fn test_rectangle_equalities() {
    let rectangle1 = Rectangle {
        width: 10,
        height: 10,
    };
    let rectangle2 = Rectangle {
        width: 10,
        height: 10,
    };
    let rectangle3 = Rectangle {
        width: 15,
        height: 15,
    };
    assert_eq!(rectangle1, rectangle2);
    assert_ne!(rectangle1, rectangle3);
}

#[test]
fn test_total_occurrences() {
    let numbers: Vec<i32> = vec![1, 2, 3, 3, 3];
    assert_eq!(numbers.total_occurrences(1), 1);
    assert_eq!(numbers.total_occurrences(2), 1);
    assert_eq!(numbers.total_occurrences(3), 3);
    assert_eq!(numbers.total_occurrences(4), 0);
}

#[test]
fn test_most_stocked() {
    let store = ShirtsInventory {
        shirts: vec![ShirtColor::Blue, ShirtColor::Red, ShirtColor::Blue],
    };
    assert_eq!(ShirtColor::Blue, store.most_stocked());
    let store = ShirtsInventory {
        shirts: vec![ShirtColor::Blue, ShirtColor::Red],
    };
    assert_eq!(ShirtColor::Red, store.most_stocked());
    let empty = ShirtsInventory { shirts: Vec::new() };
    assert_eq!(ShirtColor::Red, empty.most_stocked());
}

#[test]
fn test_giveaway() {
    let store = ShirtsInventory {
        shirts: vec![ShirtColor::Blue, ShirtColor::Red, ShirtColor::Blue],
    };
    assert_eq!(ShirtColor::Red, store.giveaway(Some(ShirtColor::Red)));
    assert_eq!(ShirtColor::Blue, store.giveaway(None));
}

#[test]
fn test_config_build() {
    let arguments = vec![
        "minigrep".to_string(),
        "the".to_string(),
        "poem.txt".to_string(),
    ];
    let config = Config::build(&arguments, true).unwrap();
    assert_eq!(config.query, "the");
    assert_eq!(config.file_path, "poem.txt");
    assert!(config.ignore_case);
}

#[test]
fn test_config_build_missing_arguments() {
    let arguments = vec!["minigrep".to_string(), "the".to_string()];
    let error = Config::build(&arguments, false).unwrap_err();
    assert_eq!(error, "Usage: minigrep <query> <file_path>");
    let error = Config::build(&Vec::new(), false).unwrap_err();
    assert_eq!(error, "Usage: minigrep <query> <file_path>");
}

#[test]
fn test_run_error_message() {
    let error = RunError::InputOutputError("file missing".to_string());
    assert_eq!(error.message(), "file missing");
    let error = RunError::Other("anything else".to_string());
    assert_eq!(error.message(), "anything else");
}
