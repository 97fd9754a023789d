//! The whole rewrite pipeline: annotations resolved, codes recovered from a
//! transcript, one output line per input line.

use rust_to_dejagnu::errors::{load_error, Error, RustcErrorKind};
use rust_to_dejagnu::transform::transform_code;
use rust_to_dejagnu::ConvertError;

#[test]
fn test_transform() {
    let dg_msg = "// { dg-error \"\" \"\" { target *-*-* } .-1 }\n";
    let rust_msg = "//~^ ERROR expected one of `:`, `@`, or `|`, found `)`";
    assert_eq!(transform_code(rust_msg, None).unwrap(), dg_msg);
}

#[test]
fn offset_zero_keeps_code_before_the_sigil() {
    let out = transform_code("let x: u8 = 256; //~ ERROR literal out of range", None).unwrap();
    assert_eq!(out, "let x: u8 = 256; // { dg-error \"\" \"\" { target *-*-* } }\n");
}

#[test]
fn caret_adjustment_replaces_the_comment_line() {
    let out = transform_code("fn foo() {\n//~^ ERROR bad", None).unwrap();
    assert_eq!(out, "fn foo() {\n// { dg-error \"\" \"\" { target *-*-* } .-1 }\n");
}

#[test]
fn caret_annotation_resolves_one_line_up() {
    let errs = load_error("fn foo() {\n//~^ ERROR bad", None).unwrap();
    assert_eq!(errs.len(), 1);
    assert_eq!(errs[0].line_num, 1);
    assert_eq!(errs[0].relative_line_num, -1);
    assert_eq!(errs[0].kind, Some(RustcErrorKind::Error));
    assert_eq!(errs[0].msg, "bad");
}

#[test]
fn chain_resolves_to_the_recorded_anchor() {
    let errs = load_error("fn f() {}\n//~^ ERROR a\n//~| ERROR b\n", None).unwrap();
    assert_eq!(errs.len(), 2);
    assert_eq!(errs[0].line_num, 1);
    assert_eq!(errs[0].relative_line_num, -1);
    assert_eq!(errs[0].msg, "a");
    assert_eq!(errs[1].line_num, 1);
    assert_eq!(errs[1].relative_line_num, -2);
    assert_eq!(errs[1].msg, "b");
}

#[test]
fn chain_inherits_the_target_of_a_zero_caret_anchor() {
    // The chain inherits the anchor's resolved target, not the anchor's own
    // comment line: after a zero-caret annotation on line 1, a chained
    // annotation on line 2 still describes line 1.
    let errs = load_error("x //~ ERROR a\n//~| ERROR b\n", None).unwrap();
    assert_eq!(errs.len(), 2);
    assert_eq!(errs[0].line_num, 1);
    assert_eq!(errs[0].relative_line_num, 0);
    assert_eq!(errs[1].line_num, 1);
    assert_eq!(errs[1].relative_line_num, -1);
}

#[test]
fn chain_inherits_the_target_of_a_multi_caret_anchor() {
    let errs = load_error("a\nb\nc //~^^ ERROR up\n//~| ERROR same\n", None).unwrap();
    assert_eq!(errs.len(), 2);
    assert_eq!(errs[0].line_num, 1);
    assert_eq!(errs[0].relative_line_num, -2);
    assert_eq!(errs[1].line_num, 1);
    assert_eq!(errs[1].relative_line_num, -3);
}

#[test]
fn consecutive_chains_share_one_anchor() {
    let errs = load_error("fn f() {}\n//~^ ERROR a\n//~| ERROR b\n//~| ERROR c\n", None).unwrap();
    assert_eq!(errs.len(), 3);
    assert_eq!(errs[2].line_num, 1);
    assert_eq!(errs[2].relative_line_num, -3);
}

#[test]
fn missing_chain_anchor_is_fatal() {
    let r = transform_code("fn f() {}\n//~| ERROR b\n", None);
    assert_eq!(r, Err(ConvertError::ChainWithoutAnchor { line: 2 }));
}

#[test]
fn empty_annotation_is_fatal() {
    let r = transform_code("fn f() {} //~", None);
    assert_eq!(r, Err(ConvertError::EmptyAnnotation { line: 1 }));
    let r = transform_code("fn f() {} //~^   ", None);
    assert_eq!(r, Err(ConvertError::EmptyAnnotation { line: 1 }));
}

#[test]
fn carets_past_the_top_are_fatal() {
    let r = transform_code("//~^^ ERROR too high", None);
    assert_eq!(r, Err(ConvertError::CaretsPastFileStart { line: 1 }));
}

#[test]
fn one_caret_on_the_first_line_is_allowed() {
    // The resolver records a target one above the first line rather than
    // refusing it; the rendered directive still lands on the comment's line.
    let errs = load_error("//~^ ERROR x", None).unwrap();
    assert_eq!(errs[0].line_num, 0);
    assert_eq!(errs[0].relative_line_num, -1);
}

#[test]
fn line_count_is_preserved() {
    let src = "fn main() {\n    let x = 1; //~ ERROR nope\n//~^ NOTE here\n}\n//@ edition:2018\n";
    let out = transform_code(src, None).unwrap();
    assert_eq!(out.lines().count(), src.lines().count());
}

#[test]
fn line_count_is_preserved_without_trailing_newline() {
    let src = "a\nb\nc //~ ERROR x";
    let out = transform_code(src, None).unwrap();
    assert_eq!(out.lines().count(), 3);
}

#[test]
fn cross_reference_by_message_renders_the_code() {
    let src = "fn main() {\n    let a = 1;\n}\n\nuse y; //~ ERROR cannot find type `Foo`\n";
    let stderr = "error[E0412]: cannot find type `Foo`\n  --> src/lib.rs:5:10:\n";
    let out = transform_code(src, Some(stderr)).unwrap();
    assert_eq!(
        out.lines().nth(4).unwrap(),
        "use y; // { dg-error \".E0412.\" \"\" { target *-*-* } }"
    );
}

#[test]
fn cross_reference_by_line_number_renders_the_code() {
    let src = "fn main() {\n    let v: i32 = \"s\"; //~ ERROR totally different text\n}\n";
    let stderr = "error[E0308]: mismatched types\n  --> src/main.rs:2:18\n";
    let out = transform_code(src, Some(stderr)).unwrap();
    assert_eq!(
        out.lines().nth(1).unwrap(),
        "    let v: i32 = \"s\"; // { dg-error \".E0308.\" \"\" { target *-*-* } }"
    );
}

#[test]
fn non_conforming_code_leaves_the_annotation_bare() {
    let src = "use y; //~ ERROR cannot find type `Foo`\n";
    let stderr = "error[X123]: cannot find type `Foo`\n  --> src/lib.rs:1:8:\n";
    let out = transform_code(src, Some(stderr)).unwrap();
    assert_eq!(out.lines().next().unwrap(), "use y; // { dg-error \"\" \"\" { target *-*-* } }");
}

#[test]
fn match_policy_is_line_or_message() {
    // Deliberate design decision: a record enriches an annotation when either
    // its line number or its message matches, so abbreviated inline messages
    // still pick up their code through the line number, and moved lines still
    // pick it up through the message.
    let src = "use y; //~ ERROR cannot find type `Foo`\n";
    // Message matches, line (9) does not.
    let stderr = "error[E0412]: cannot find type `Foo`\n  --> src/lib.rs:9:10\n";
    let out = transform_code(src, Some(stderr)).unwrap();
    assert!(out.contains(".E0412."));
    // Neither line nor message matches: no code.
    let stderr2 = "error[E0412]: something else entirely\n  --> src/lib.rs:9:10\n";
    let out2 = transform_code(src, Some(stderr2)).unwrap();
    assert!(!out2.contains("E0412"));
}

#[test]
fn first_matching_record_supplies_the_code() {
    // Deliberate design decision: when several records match the same
    // annotation, the first one in the transcript wins and later ones do not
    // overwrite it.
    let src = "use y; //~ ERROR who knows\n";
    let stderr =
        "error[E0001]: one\n  --> f.rs:1:2\nerror[E0002]: two\n  --> f.rs:1:3\n";
    let out = transform_code(src, Some(stderr)).unwrap();
    assert!(out.contains(".E0001."));
    assert!(!out.contains("E0002"));
}

#[test]
fn malformed_report_blocks_are_dropped_silently() {
    let src = "use y; //~ ERROR mismatch\n";
    // No locator after the error line: no record is read.
    let stderr = "error[E0001]: mismatch\nnothing else\n";
    let out = transform_code(src, Some(stderr)).unwrap();
    assert_eq!(out.lines().next().unwrap(), "use y; // { dg-error \"\" \"\" { target *-*-* } }");
}

#[test]
fn severity_tags_follow_the_keyword() {
    let out = transform_code("a //~ HELP h\nb //~ NOTE n\nc //~ SUGGESTION s\nd //~ WARN w\n", None)
        .unwrap();
    let lines: Vec<&str> = out.lines().collect();
    assert_eq!(lines[0], "a // { help \"\" \"\" { target *-*-* } }");
    assert_eq!(lines[1], "b // { dg-note \"\" \"\" { target *-*-* } }");
    assert_eq!(lines[2], "c // { suggestion \"\" \"\" { target *-*-* } }");
    assert_eq!(lines[3], "d // { dg-warning \"\" \"\" { target *-*-* } }");
}

#[test]
fn unknown_keyword_belongs_to_the_message() {
    let errs = load_error("x //~ bogus words here", None).unwrap();
    assert_eq!(errs[0].kind, None);
    assert_eq!(errs[0].msg, "bogus words here");
    // An annotation without a recognised severity is reported as an error.
    let out = transform_code("x //~ bogus words here", None).unwrap();
    assert_eq!(out.lines().next().unwrap(), "x // { dg-error \"\" \"\" { target *-*-* } }");
}

#[test]
fn message_is_trimmed() {
    let errs = load_error("x //~ ERROR   spaced out   ", None).unwrap();
    assert_eq!(errs[0].msg, "spaced out");
}

#[test]
fn revision_list_is_recognised_and_skipped() {
    let out = transform_code("fn f() {}\n//[rev-a,rev_b]~^ ERROR x", None).unwrap();
    assert_eq!(out.lines().nth(1).unwrap(), "// { dg-error \"\" \"\" { target *-*-* } .-1 }");
}

#[test]
fn crlf_input_is_rewritten_with_plain_newlines() {
    let out = transform_code("fn g() {}\r\n//~^ ERROR m\r\n", None).unwrap();
    assert_eq!(out, "fn g() {}\n// { dg-error \"\" \"\" { target *-*-* } .-1 }\n");
}

#[test]
fn empty_input_stays_empty() {
    assert_eq!(transform_code("", None).unwrap(), "");
}

#[test]
fn rerun_on_rewritten_text_is_out_of_contract() {
    // Once rewritten, the sigil grammar no longer matches: a second run finds
    // no annotations at all and merely passes the text through.  The tool is
    // not meant to be applied to its own output.
    let first = transform_code("fn foo() {}\n//~^ ERROR bad\n//@ edition:2015\n", None).unwrap();
    assert!(load_error(&first, None).unwrap().is_empty());
    let second = transform_code(&first, None).unwrap();
    assert_eq!(second, first);
}

#[test]
fn dejagnu_string_renders_a_full_directive() {
    let e = Error {
        line_num: 5,
        relative_line_num: 0,
        kind: Some(RustcErrorKind::Error),
        msg: String::from("mismatched types"),
        error_code: Some(String::from("E0308")),
    };
    assert_eq!(e.dejagnu_string(), "// { dg-error \".E0308.\" \"\" { target *-*-* } }");
    let e2 = Error {
        line_num: 7,
        relative_line_num: -2,
        kind: None,
        msg: String::from("m"),
        error_code: None,
    };
    assert_eq!(e2.dejagnu_string(), "// { dg-error \"\" \"\" { target *-*-* } .-2 }");
}

#[test]
fn from_word_reads_a_keyword() {
    assert_eq!(RustcErrorKind::from_word("Error"), Some(RustcErrorKind::Error));
    assert_eq!(RustcErrorKind::from_word("warning:"), Some(RustcErrorKind::Warning));
    assert_eq!(RustcErrorKind::from_word("nope"), None);
}
