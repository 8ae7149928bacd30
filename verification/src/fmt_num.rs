//! Decimal rendering of counts, and the counted-line format used when each
//! output line is preceded by the number of times it occurred.

use vstd::prelude::*;
use vstd::string::StrSliceExecFns;
use vstd::string::StringExecFns;

verus! {

/// The character for the decimal digit `d`.
pub open spec fn dec_digit_char(d: nat) -> char
    recommends
        d < 10,
{
    if d == 0 {
        '0'
    } else if d == 1 {
        '1'
    } else if d == 2 {
        '2'
    } else if d == 3 {
        '3'
    } else if d == 4 {
        '4'
    } else if d == 5 {
        '5'
    } else if d == 6 {
        '6'
    } else if d == 7 {
        '7'
    } else if d == 8 {
        '8'
    } else {
        '9'
    }
}

/// The decimal digit string of `n`, most significant digit first, without
/// leading zeros (a single `0` for zero).
pub open spec fn dec_chars(n: nat) -> Seq<char>
    decreases n,
{
    if n < 10 {
        seq![dec_digit_char(n)]
    } else {
        dec_chars(n / 10).push(dec_digit_char(n % 10))
    }
}

/// `k` space characters.
pub open spec fn spaces(k: nat) -> Seq<char>
    decreases k,
{
    if k == 0 {
        Seq::<char>::empty()
    } else {
        spaces((k - 1) as nat).push(' ')
    }
}

/// `s` padded on the left with spaces to at least four columns.
pub open spec fn pad_left4(s: Seq<char>) -> Seq<char> {
    if s.len() >= 4 {
        s
    } else {
        spaces((4 - s.len()) as nat) + s
    }
}

/// A line as it is printed when a count precedes it: the count right-aligned
/// in four columns, one space, then the line itself; without a count, the
/// line alone.
pub open spec fn counted_line_chars(line: Seq<char>, count: Option<usize>) -> Seq<char> {
    match count {
        None => line,
        Some(c) => pad_left4(dec_chars(c as nat)) + seq![' '] + line,
    }
}

/// The single-character string for the decimal digit `d`.
fn digit_str(d: usize) -> (r: &'static str)
    requires
        d < 10,
    ensures
        r@ == seq![dec_digit_char(d as nat)],
{
    let r: &'static str = if d == 0 {
        "0"
    } else if d == 1 {
        "1"
    } else if d == 2 {
        "2"
    } else if d == 3 {
        "3"
    } else if d == 4 {
        "4"
    } else if d == 5 {
        "5"
    } else if d == 6 {
        "6"
    } else if d == 7 {
        "7"
    } else if d == 8 {
        "8"
    } else {
        "9"
    };
    proof {
        reveal_strlit("0");
        reveal_strlit("1");
        reveal_strlit("2");
        reveal_strlit("3");
        reveal_strlit("4");
        reveal_strlit("5");
        reveal_strlit("6");
        reveal_strlit("7");
        reveal_strlit("8");
        reveal_strlit("9");
        assert(r@ =~= seq![dec_digit_char(d as nat)]);
    }
    r
}

/// Render `n` in decimal.
pub fn usize_to_dec(n: usize) -> (s: String)
    ensures
        s@ == dec_chars(n as nat),
    decreases n,
{
    let d = n % 10;
    if n < 10 {
        String::from_str(digit_str(d))
    } else {
        let mut s = usize_to_dec(n / 10);
        s.append(digit_str(d));
        s
    }
}

/// Format one output line, preceded when asked for by its occurrence count,
/// right-aligned in four columns and followed by a single space.
pub fn print_line_and_count(line: &str, count: Option<usize>) -> (r: String)
    ensures
        r@ == counted_line_chars(line@, count),
{
    match count {
        None => String::from_str(line),
        Some(c) => {
            let digits = usize_to_dec(c);
            let ndig = digits.as_str().unicode_len();
            let mut r = String::new();
            let mut p: usize = 0;
            let pad: usize = if ndig >= 4 {
                0
            } else {
                4 - ndig
            };
            proof {
                reveal_strlit(" ");
            }
            while p < pad
                invariant
                    p <= pad,
                    r@ == spaces(p as nat),
                    " "@ == seq![' '],
                decreases pad - p,
            {
                r.append(" ");
                p = p + 1;
            }
            proof {
                if ndig >= 4 {
                    assert(r@ =~= Seq::<char>::empty());
                    assert(pad_left4(digits@) == digits@);
                } else {
                    assert(pad_left4(digits@) == spaces((4 - digits@.len()) as nat) + digits@);
                }
            }
            r.append(digits.as_str());
            r.append(" ");
            r.append(line);
            proof {
                assert(r@ =~= counted_line_chars(line@, count));
            }
            r
        },
    }
}

} // verus!
