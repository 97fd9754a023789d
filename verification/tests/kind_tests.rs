//! The severity keyword vocabulary: parsing and display.

use rust_to_dejagnu::errors::RustcErrorKind;
use std::str::FromStr;

#[test]
fn from_str_help_returns_help() {
    assert_eq!(RustcErrorKind::from_str("help").unwrap(), RustcErrorKind::Help);
    assert_eq!(RustcErrorKind::from_str("help:").unwrap(), RustcErrorKind::Help);
}

#[test]
fn from_str_error_returns_error() {
    assert_eq!(RustcErrorKind::from_str("error").unwrap(), RustcErrorKind::Error);
}

#[test]
fn from_str_note_returns_note() {
    assert_eq!(RustcErrorKind::from_str("note").unwrap(), RustcErrorKind::Note);
}

#[test]
fn from_str_suggestion_returns_suggestion() {
    assert_eq!(RustcErrorKind::from_str("suggestion").unwrap(), RustcErrorKind::Suggestion);
}

#[test]
fn from_str_warning_returns_warning() {
    assert_eq!(RustcErrorKind::from_str("warning").unwrap(), RustcErrorKind::Warning);
}

#[test]
fn from_str_warn_returns_warning() {
    assert_eq!(RustcErrorKind::from_str("warn").unwrap(), RustcErrorKind::Warning);
}

#[test]
fn from_str_unrecognized_returns_err() {
    assert!(RustcErrorKind::from_str("unrecognized").is_err());
}

#[test]
fn from_str_empty_string_returns_err() {
    assert!(RustcErrorKind::from_str("").is_err());
}

#[test]
fn from_str_is_case_insensitive() {
    assert_eq!(RustcErrorKind::from_str("ERROR").unwrap(), RustcErrorKind::Error);
    assert_eq!(RustcErrorKind::from_str("WaRnInG").unwrap(), RustcErrorKind::Warning);
}

#[test]
fn display_help_outputs_correct_string() {
    assert_eq!(RustcErrorKind::Help.display_string(), "help message");
}

#[test]
fn display_error_outputs_correct_string() {
    assert_eq!(RustcErrorKind::Error.display_string(), "error");
}

#[test]
fn display_note_outputs_correct_string() {
    assert_eq!(RustcErrorKind::Note.display_string(), "note");
}

#[test]
fn display_suggestion_outputs_correct_string() {
    assert_eq!(RustcErrorKind::Suggestion.display_string(), "suggestion");
}

#[test]
fn display_warning_outputs_correct_string() {
    assert_eq!(RustcErrorKind::Warning.display_string(), "warning");
}
