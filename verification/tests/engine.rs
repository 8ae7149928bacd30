//! Scenario tests for the position parser and the boundary locator.

use tailr::locator::{locate_boundary, tail_slice};
use tailr::position::{parse_position, Anchor, PositionSpec, Unit};

fn lines_spec(anchor: Anchor) -> PositionSpec {
    PositionSpec { unit: Unit::Lines, anchor }
}

fn bytes_spec(anchor: Anchor) -> PositionSpec {
    PositionSpec { unit: Unit::Bytes, anchor }
}

#[test]
fn parse_unsigned_is_from_end() {
    assert_eq!(parse_position("10"), Some(Anchor::FromEnd(10)));
    assert_eq!(parse_position("3"), Some(Anchor::FromEnd(3)));
    assert_eq!(parse_position("007"), Some(Anchor::FromEnd(7)));
    assert_eq!(parse_position("0"), Some(Anchor::FromEnd(0)));
}

#[test]
fn parse_minus_equals_bare() {
    assert_eq!(parse_position("-3"), parse_position("3"));
    assert_eq!(parse_position("-0"), Some(Anchor::FromEnd(0)));
    assert_eq!(parse_position("-10"), Some(Anchor::FromEnd(10)));
}

#[test]
fn parse_plus_is_from_start_one_based() {
    assert_eq!(parse_position("+4"), Some(Anchor::FromStart(3)));
    assert_eq!(parse_position("+1"), Some(Anchor::FromStart(0)));
    assert_eq!(parse_position("+0"), Some(Anchor::FromStart(0)));
}

#[test]
fn parse_rejects_malformed() {
    assert_eq!(parse_position(""), None);
    assert_eq!(parse_position("+"), None);
    assert_eq!(parse_position("-"), None);
    assert_eq!(parse_position("abc"), None);
    assert_eq!(parse_position("12a"), None);
    assert_eq!(parse_position("--3"), None);
    assert_eq!(parse_position("+-3"), None);
    assert_eq!(parse_position("3.5"), None);
    assert_eq!(parse_position(" 3"), None);
}

#[test]
fn parse_magnitude_limit() {
    assert_eq!(
        parse_position("9223372036854775807"),
        Some(Anchor::FromEnd(9223372036854775807))
    );
    assert_eq!(parse_position("9223372036854775808"), None);
}

#[test]
fn default_is_last_ten_lines() {
    assert_eq!(
        PositionSpec::default(),
        lines_spec(Anchor::FromEnd(10))
    );
}

#[test]
fn last_two_lines_of_five() {
    let data = b"a\nb\nc\nd\ne\n";
    let out = tail_slice(data, &lines_spec(Anchor::FromEnd(2)));
    assert_eq!(out, b"d\ne\n".to_vec());
}

#[test]
fn from_fourth_line_of_five() {
    let data = b"a\nb\nc\nd\ne\n";
    let anchor = parse_position("+4").unwrap();
    assert_eq!(anchor, Anchor::FromStart(3));
    let out = tail_slice(data, &lines_spec(anchor));
    assert_eq!(out, b"d\ne\n".to_vec());
}

#[test]
fn last_two_bytes_of_five() {
    let data = b"abcde";
    let out = tail_slice(data, &bytes_spec(Anchor::FromEnd(2)));
    assert_eq!(out, b"de".to_vec());
}

#[test]
fn empty_file_from_end_emits_nothing() {
    let data = b"";
    assert_eq!(tail_slice(data, &lines_spec(Anchor::FromEnd(5))), Vec::<u8>::new());
    assert_eq!(tail_slice(data, &bytes_spec(Anchor::FromEnd(5))), Vec::<u8>::new());
    assert_eq!(tail_slice(data, &lines_spec(Anchor::FromEnd(1))), Vec::<u8>::new());
}

#[test]
fn zero_count_from_end_emits_nothing() {
    let data = b"a\nb\nc\n";
    assert_eq!(tail_slice(data, &lines_spec(Anchor::FromEnd(0))), Vec::<u8>::new());
    assert_eq!(tail_slice(data, &bytes_spec(Anchor::FromEnd(0))), Vec::<u8>::new());
}

#[test]
fn zero_index_from_start_emits_everything() {
    let data = b"a\nb\nc\n";
    assert_eq!(tail_slice(data, &lines_spec(Anchor::FromStart(0))), data.to_vec());
    assert_eq!(tail_slice(data, &bytes_spec(Anchor::FromStart(0))), data.to_vec());
}

#[test]
fn from_start_past_last_line_emits_nothing() {
    let data = b"a\nb\nc\n";
    assert_eq!(tail_slice(data, &lines_spec(Anchor::FromStart(3))), Vec::<u8>::new());
    assert_eq!(tail_slice(data, &lines_spec(Anchor::FromStart(7))), Vec::<u8>::new());
    let unterminated = b"a\nb\nc";
    assert_eq!(
        tail_slice(unterminated, &lines_spec(Anchor::FromStart(3))),
        Vec::<u8>::new()
    );
}

#[test]
fn trailing_newline_does_not_open_a_line() {
    let terminated = b"a\nb\nc\n";
    assert_eq!(tail_slice(terminated, &lines_spec(Anchor::FromEnd(1))), b"c\n".to_vec());
    let unterminated = b"a\nb\nc";
    assert_eq!(tail_slice(unterminated, &lines_spec(Anchor::FromEnd(1))), b"c".to_vec());
    assert_eq!(tail_slice(unterminated, &lines_spec(Anchor::FromEnd(2))), b"b\nc".to_vec());
}

#[test]
fn count_past_all_lines_emits_whole_file() {
    let data = b"a\nb\nc\n";
    assert_eq!(tail_slice(data, &lines_spec(Anchor::FromEnd(3))), data.to_vec());
    assert_eq!(tail_slice(data, &lines_spec(Anchor::FromEnd(100))), data.to_vec());
}

#[test]
fn byte_index_clamped_to_file_size() {
    let data = b"abcde";
    assert_eq!(tail_slice(data, &bytes_spec(Anchor::FromStart(3))), b"de".to_vec());
    assert_eq!(tail_slice(data, &bytes_spec(Anchor::FromStart(99))), Vec::<u8>::new());
    assert_eq!(tail_slice(data, &bytes_spec(Anchor::FromEnd(99))), data.to_vec());
}

#[test]
fn boundary_offsets_are_exact() {
    let data = b"a\nb\nc\nd\ne\n";
    assert_eq!(locate_boundary(data, &lines_spec(Anchor::FromEnd(2))), 6);
    assert_eq!(locate_boundary(data, &lines_spec(Anchor::FromStart(3))), 6);
    assert_eq!(locate_boundary(b"abcde", &bytes_spec(Anchor::FromEnd(2))), 3);
    assert_eq!(locate_boundary(b"abcde", &bytes_spec(Anchor::FromStart(2))), 2);
}

#[test]
fn newline_only_file() {
    let data = b"\n\n\n";
    assert_eq!(tail_slice(data, &lines_spec(Anchor::FromEnd(1))), b"\n".to_vec());
    assert_eq!(tail_slice(data, &lines_spec(Anchor::FromEnd(2))), b"\n\n".to_vec());
    assert_eq!(tail_slice(data, &lines_spec(Anchor::FromEnd(4))), data.to_vec());
    assert_eq!(tail_slice(data, &lines_spec(Anchor::FromStart(2))), b"\n".to_vec());
}

#[test]
fn resolving_twice_gives_same_offset() {
    let data = b"one\ntwo\nthree\nfour";
    for spec in [
        lines_spec(Anchor::FromEnd(2)),
        lines_spec(Anchor::FromStart(1)),
        bytes_spec(Anchor::FromEnd(7)),
        bytes_spec(Anchor::FromStart(4)),
    ] {
        let first = locate_boundary(data, &spec);
        let second = locate_boundary(data, &spec);
        assert_eq!(first, second);
    }
}

#[test]
fn emitted_line_count_is_min_of_count_and_total() {
    let data = b"a\nb\nc\nd\ne\n";
    for count in 0..8u64 {
        let out = tail_slice(data, &lines_spec(Anchor::FromEnd(count)));
        let emitted_lines = out.iter().filter(|b| **b == b'\n').count() as u64;
        assert_eq!(emitted_lines, count.min(5));
    }
}
