//! Header directives: recognition, the `edition` rewrite, and pass-through of
//! everything else.

use rust_to_dejagnu::header::{is_header_line, parse_additional_options};
use rust_to_dejagnu::transform::transform_code;
use rust_to_dejagnu::ConvertError;

#[test]
fn header_lines_are_recognised() {
    assert!(is_header_line("//@ edition:2021"));
    assert!(is_header_line("   //@ compile-flags: -O"));
    assert!(!is_header_line("// plain comment"));
    assert!(!is_header_line("fn main() {}"));
}

#[test]
fn edition_header_is_collected_and_rendered() {
    let hs = parse_additional_options("fn main() {}\n//@ edition:2021\n").unwrap();
    assert_eq!(hs.len(), 1);
    assert_eq!(hs[0].line_number, 2);
    assert_eq!(hs[0].directive, "edition");
    assert_eq!(hs[0].dejagnu_header, "// { dg-additional-options \"-frust-edition=2021\" }");
}

#[test]
fn unsupported_header_keys_are_not_collected() {
    let hs = parse_additional_options("//@ compile-flags: --edition 2021\n").unwrap();
    assert!(hs.is_empty());
}

#[test]
fn unsupported_header_passes_through_and_edition_is_replaced() {
    let src = "//@ compile-flags: --edition 2021\n//@ edition:2021\nfn main() {}\n";
    let out = transform_code(src, None).unwrap();
    let lines: Vec<&str> = out.lines().collect();
    assert_eq!(lines[0], "//@ compile-flags: --edition 2021");
    assert_eq!(lines[1], "// { dg-additional-options \"-frust-edition=2021\" }");
    assert_eq!(lines[2], "fn main() {}");
}

#[test]
fn revisioned_edition_header_is_recognised() {
    let hs = parse_additional_options("//@[future] edition:2024\n").unwrap();
    assert_eq!(hs.len(), 1);
    assert_eq!(hs[0].dejagnu_header, "// { dg-additional-options \"-frust-edition=2024\" }");
}

#[test]
fn unclosed_revision_bracket_is_fatal() {
    let r = parse_additional_options("//@[foo edition:2021\n");
    assert_eq!(r.unwrap_err(), ConvertError::UnclosedRevisionBracket { line: 1 });
    let r2 = transform_code("fn main() {}\n//@[foo edition:2021\n", None);
    assert_eq!(r2, Err(ConvertError::UnclosedRevisionBracket { line: 2 }));
}

#[test]
fn indented_edition_header_is_replaced_whole() {
    let out = transform_code("   //@ edition:2018\n", None).unwrap();
    assert_eq!(out, "// { dg-additional-options \"-frust-edition=2018\" }\n");
}

#[test]
fn annotation_errors_are_reported_before_header_errors() {
    // Both a chained annotation without an anchor and a malformed header:
    // the annotation pass runs first.
    let src = "//~| ERROR a\n//@[foo edition:2021\n";
    assert_eq!(transform_code(src, None), Err(ConvertError::ChainWithoutAnchor { line: 1 }));
}
