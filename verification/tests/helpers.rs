//! Tests for the small verified helpers: permission rendering, line-ending
//! handling, and counted line formatting.

use tailr::eol::{is_newline, trim_newline, LinesWithEol};
use tailr::fmt_num::{print_line_and_count, usize_to_dec};
use tailr::perms::get_permissions;

#[test]
fn test_permissions() {
    assert_eq!(get_permissions(0o644), "rw-r--r--".to_string());
}

#[test]
fn permissions_all_and_none() {
    assert_eq!(get_permissions(0o777), "rwxrwxrwx".to_string());
    assert_eq!(get_permissions(0o000), "---------".to_string());
    assert_eq!(get_permissions(0o755), "rwxr-xr-x".to_string());
    assert_eq!(get_permissions(0o420), "r---w----".to_string());
}

#[test]
fn newline_characters() {
    assert!(is_newline('\n'));
    assert!(is_newline('\r'));
    assert!(!is_newline(' '));
    assert!(!is_newline('a'));
}

#[test]
fn trim_trailing_newlines_only() {
    assert_eq!(trim_newline("abc\n"), "abc");
    assert_eq!(trim_newline("abc\r\n"), "abc");
    assert_eq!(trim_newline("abc"), "abc");
    assert_eq!(trim_newline("\n\n"), "");
    assert_eq!(trim_newline("a\nb\n"), "a\nb");
    assert_eq!(trim_newline(""), "");
}

#[test]
fn lines_keep_their_endings() {
    let mut it = b"ab\ncd\n".to_vec().lines_with_eol();
    assert_eq!(it.next(), Some(b"ab\n".to_vec()));
    assert_eq!(it.next(), Some(b"cd\n".to_vec()));
    assert_eq!(it.next(), None);
}

#[test]
fn last_line_without_ending_is_kept() {
    let mut it = b"ab\ncd".to_vec().lines_with_eol();
    assert_eq!(it.next(), Some(b"ab\n".to_vec()));
    assert_eq!(it.next(), Some(b"cd".to_vec()));
    assert_eq!(it.next(), None);
}

#[test]
fn empty_buffer_has_no_lines() {
    let mut it = Vec::<u8>::new().lines_with_eol();
    assert_eq!(it.next(), None);
}

#[test]
fn decimal_rendering() {
    assert_eq!(usize_to_dec(0), "0".to_string());
    assert_eq!(usize_to_dec(7), "7".to_string());
    assert_eq!(usize_to_dec(10), "10".to_string());
    assert_eq!(usize_to_dec(907), "907".to_string());
    assert_eq!(usize_to_dec(123456), "123456".to_string());
}

#[test]
fn counted_line_formats_like_a_four_column_count() {
    assert_eq!(print_line_and_count("foo\n", Some(3)), format!("{:4} foo\n", 3));
    assert_eq!(print_line_and_count("foo\n", Some(3)), "   3 foo\n".to_string());
    assert_eq!(print_line_and_count("foo\n", Some(12345)), "12345 foo\n".to_string());
    assert_eq!(print_line_and_count("bar", Some(1000)), "1000 bar".to_string());
    assert_eq!(print_line_and_count("foo\n", None), "foo\n".to_string());
}
