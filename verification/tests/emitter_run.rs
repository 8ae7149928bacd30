//! Tests for the multi-file emitter: headers, separators, and per-file
//! error reporting.

use tailr::emitter::{emit_tail, format_header, FileInput};
use tailr::error::CliError;
use tailr::position::{Anchor, PositionSpec, Unit};

fn last_lines(count: u64) -> PositionSpec {
    PositionSpec { unit: Unit::Lines, anchor: Anchor::FromEnd(count) }
}

fn file(path: &str, content: &[u8]) -> FileInput {
    FileInput { path: path.to_string(), content: Ok(content.to_vec()) }
}

fn failed(path: &str, cause: &str) -> FileInput {
    FileInput { path: path.to_string(), content: Err(cause.to_string()) }
}

#[test]
fn header_format() {
    assert_eq!(format_header("file.txt"), "==> file.txt <==".to_string());
}

#[test]
fn single_file_has_no_header() {
    let files = vec![file("a.txt", b"x\ny\nz\n")];
    let (out, errs) = emit_tail(&files, &last_lines(2), false);
    assert_eq!(out, b"y\nz\n".to_vec());
    assert!(errs.is_empty());
}

#[test]
fn two_files_get_headers_and_one_separator() {
    let files = vec![file("a.txt", b"1\n2\n"), file("b.txt", b"3\n4\n")];
    let (out, errs) = emit_tail(&files, &last_lines(1), false);
    assert_eq!(out, b"==> a.txt <==\n2\n\n==> b.txt <==\n4\n".to_vec());
    assert!(errs.is_empty());
}

#[test]
fn quiet_suppresses_headers() {
    let files = vec![file("a.txt", b"1\n2\n"), file("b.txt", b"3\n4\n")];
    let (out, errs) = emit_tail(&files, &last_lines(1), true);
    assert_eq!(out, b"2\n4\n".to_vec());
    assert!(errs.is_empty());
}

#[test]
fn missing_file_is_reported_and_skipped() {
    let files = vec![
        file("good.txt", b"hello\nworld\n"),
        failed("missing.txt", "No such file or directory (os error 2)"),
    ];
    let (out, errs) = emit_tail(&files, &last_lines(10), false);
    assert_eq!(out, b"==> good.txt <==\nhello\nworld\n\n".to_vec());
    assert_eq!(
        errs,
        vec!["missing.txt: No such file or directory (os error 2)".to_string()]
    );
}

#[test]
fn failed_file_first_still_emits_the_rest() {
    let files = vec![
        failed("gone.txt", "No such file or directory (os error 2)"),
        file("there.txt", b"a\nb\n"),
    ];
    let (out, errs) = emit_tail(&files, &last_lines(1), false);
    assert_eq!(out, b"==> there.txt <==\nb\n".to_vec());
    assert_eq!(errs.len(), 1);
}

#[test]
fn all_files_failed_emits_nothing() {
    let files = vec![
        failed("a.txt", "No such file or directory (os error 2)"),
        failed("b.txt", "permission denied"),
    ];
    let (out, errs) = emit_tail(&files, &last_lines(10), false);
    assert!(out.is_empty());
    assert_eq!(
        errs,
        vec![
            "a.txt: No such file or directory (os error 2)".to_string(),
            "b.txt: permission denied".to_string(),
        ]
    );
}

#[test]
fn byte_mode_run_over_two_files() {
    let spec = PositionSpec { unit: Unit::Bytes, anchor: Anchor::FromEnd(2) };
    let files = vec![file("a.txt", b"abcde"), file("b.txt", b"xyz")];
    let (out, errs) = emit_tail(&files, &spec, false);
    assert_eq!(out, b"==> a.txt <==\nde\n==> b.txt <==\nyz".to_vec());
    assert!(errs.is_empty());
}

#[test]
fn invalid_count_error_message() {
    let err = PositionSpec::parse(Unit::Bytes, "12x").unwrap_err();
    assert_eq!(
        err,
        CliError::InvalidCount { unit: Unit::Bytes, text: "12x".to_string() }
    );
    assert_eq!(err.message(), "illegal byte count -- 12x".to_string());
    let err = PositionSpec::parse(Unit::Lines, "").unwrap_err();
    assert_eq!(err.message(), "illegal line count -- ".to_string());
}

#[test]
fn parse_with_unit_succeeds_on_good_input() {
    let spec = PositionSpec::parse(Unit::Lines, "+4").unwrap();
    assert_eq!(spec, PositionSpec { unit: Unit::Lines, anchor: Anchor::FromStart(3) });
    let spec = PositionSpec::parse(Unit::Bytes, "12").unwrap();
    assert_eq!(spec, PositionSpec { unit: Unit::Bytes, anchor: Anchor::FromEnd(12) });
}

#[test]
fn io_error_message_is_path_then_cause() {
    let err = CliError::Io { path: "f.txt".to_string(), cause: "permission denied".to_string() };
    assert_eq!(err.message(), "f.txt: permission denied".to_string());
}
