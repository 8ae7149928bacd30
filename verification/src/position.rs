//! The position specification: which unit is being counted (bytes or lines)
//! and where the count is anchored (at the start or at the end of the file).

use vstd::prelude::*;
use vstd::string::StrSliceExecFns;
use vstd::string::StringExecFns;

use crate::error::CliError;

verus! {

/// The widest magnitude a count specification may carry; digit strings with
/// a larger value fail to parse, as a count read into a signed 64-bit
/// machine word would.
pub const MAX_COUNT_MAGNITUDE: u64 = 0x7fff_ffff_ffff_ffff;

/// The unit a position specification counts: raw bytes or newline-delimited
/// lines.
#[derive(Clone, Copy, Debug, PartialEq, Eq, Structural)]
pub enum Unit {
    Bytes,
    Lines,
}

/// Where a position specification is anchored.
///
/// `FromStart(index)` is the 0-based index of the first unit to emit;
/// `FromEnd(count)` is the number of trailing units to emit.
#[derive(Clone, Copy, Debug, PartialEq, Eq, Structural)]
pub enum Anchor {
    FromStart(u64),
    FromEnd(u64),
}

/// A fully normalized position specification, parsed once per run and shared
/// read-only across all input files.
#[derive(Clone, Copy, Debug, PartialEq, Eq, Structural)]
pub struct PositionSpec {
    pub unit: Unit,
    pub anchor: Anchor,
}

impl Default for PositionSpec {
    /// When no count option is supplied at all, a run behaves as if
    /// "the last 10 lines" had been asked for.
    fn default() -> (r: PositionSpec)
        ensures
            r == (PositionSpec { unit: Unit::Lines, anchor: Anchor::FromEnd(10u64) }),
    {
        PositionSpec { unit: Unit::Lines, anchor: Anchor::FromEnd(10) }
    }
}

/// Whether `c` is a decimal digit.
pub open spec fn is_dec_digit(c: char) -> bool {
    48 <= c as int <= 57
}

/// The value of a decimal digit character.
pub open spec fn digit_val(c: char) -> nat {
    (c as int - 48) as nat
}

/// Whether every character of `t` is a decimal digit.
pub open spec fn all_dec_digits(t: Seq<char>) -> bool {
    forall|i: int| 0 <= i < t.len() ==> is_dec_digit(#[trigger] t[i])
}

/// The value of a decimal digit string, most significant digit first.
pub open spec fn digits_value(t: Seq<char>) -> nat
    decreases t.len(),
{
    if t.len() == 0 {
        0
    } else {
        10 * digits_value(t.drop_last()) + digit_val(t.last())
    }
}

/// The digit portion of a count string: everything after one optional
/// leading sign.
pub open spec fn spec_digits(t: Seq<char>) -> Seq<char> {
    if t.len() > 0 && (t[0] == '+' || t[0] == '-') {
        t.skip(1)
    } else {
        t
    }
}

/// Whether a count string selects the start-anchored form: exactly when it
/// carries a leading `+`. No sign, or a leading `-`, selects the end-anchored
/// form.
pub open spec fn spec_from_start(t: Seq<char>) -> bool {
    t.len() > 0 && t[0] == '+'
}

/// Whether a count string parses: a non-empty, all-decimal digit portion
/// whose value fits the accepted magnitude.
pub open spec fn spec_parses(t: Seq<char>) -> bool {
    &&& spec_digits(t).len() > 0
    &&& all_dec_digits(spec_digits(t))
    &&& digits_value(spec_digits(t)) <= MAX_COUNT_MAGNITUDE
}

/// The normalized anchor a count string denotes. A leading `+` gives the
/// 1-based starting unit `K`, normalized to the 0-based index
/// `max(K - 1, 0)`; otherwise the digits give the trailing count directly.
pub open spec fn spec_parsed_anchor(t: Seq<char>) -> Anchor
    recommends
        spec_parses(t),
{
    let v = digits_value(spec_digits(t));
    if spec_from_start(t) {
        Anchor::FromStart(
            if v == 0 {
                0u64
            } else {
                (v - 1) as u64
            },
        )
    } else {
        Anchor::FromEnd(v as u64)
    }
}

/// What a count string parses to: the normalized anchor for a string the
/// grammar admits, nothing otherwise.
pub open spec fn spec_parse_position(t: Seq<char>) -> Option<Anchor> {
    if spec_parses(t) {
        Some(spec_parsed_anchor(t))
    } else {
        None
    }
}

/// Law: a bare count and the same count with an explicit leading `-` parse
/// alike; both mean "the last so-many units".
pub proof fn lemma_minus_equals_bare(t: Seq<char>)
    requires
        t.len() == 0 || (t[0] != '+' && t[0] != '-'),
    ensures
        spec_parse_position(seq!['-'] + t) == spec_parse_position(t),
{
    let m = seq!['-'] + t;
    assert(m[0] == '-');
    assert(m.skip(1) =~= t);
    assert(spec_digits(m) == t);
    assert(spec_digits(t) == t);
}

/// A longer digit string never has a smaller value: appending digits can
/// only grow it.
proof fn lemma_digits_value_take_monotone(t: Seq<char>, i: int, j: int)
    requires
        0 <= i <= j <= t.len(),
    ensures
        digits_value(t.take(i)) <= digits_value(t.take(j)),
    decreases j - i,
{
    if i < j {
        lemma_digits_value_take_monotone(t, i, j - 1);
        assert(t.take(j).drop_last() =~= t.take(j - 1));
    }
}

/// Parse a count string into a normalized anchor: an optional leading sign
/// (`+` selects the start-anchored form, `-` or no sign the end-anchored
/// form) followed by an unsigned decimal integer. Returns `None` exactly
/// when the digit portion is missing, holds a non-digit, or overflows the
/// accepted magnitude.
#[verifier::loop_isolation(false)]
pub fn parse_position(text: &str) -> (r: Option<Anchor>)
    ensures
        r == spec_parse_position(text@),
{
    let n = text.unicode_len();
    let mut start: usize = 0;
    let mut from_start = false;
    if n > 0 {
        let c0 = text.get_char(0);
        if c0 == '+' {
            from_start = true;
            start = 1;
        } else if c0 == '-' {
            start = 1;
        }
    }
    let ghost d = text@.skip(start as int);
    proof {
        assert(d =~= spec_digits(text@));
    }
    if start == n {
        return None;
    }
    let mut i: usize = start;
    let mut val: u64 = 0;
    proof {
        assert(d.take(0) =~= Seq::<char>::empty());
    }
    while i < n
        invariant
            start <= i <= n,
            all_dec_digits(d.take(i - start)),
            val as nat == digits_value(d.take(i - start)),
            val <= MAX_COUNT_MAGNITUDE,
        decreases n - i,
    {
        let c = text.get_char(i);
        let cu = c as u32;
        proof {
            assert(d[i - start] == text@[i as int]);
            assert(d.take(i + 1 - start).drop_last() =~= d.take(i - start));
            assert(d.take(i + 1 - start).last() == d[i - start]);
        }
        if cu < 48 || cu > 57 {
            proof {
                assert(!is_dec_digit(d[i - start]));
            }
            return None;
        }
        let dig = (cu - 48) as u64;
        let wide: u128 = (val as u128) * 10 + (dig as u128);
        if wide > MAX_COUNT_MAGNITUDE as u128 {
            proof {
                assert(digits_value(d.take(i + 1 - start)) > MAX_COUNT_MAGNITUDE);
                lemma_digits_value_take_monotone(d, i + 1 - start, d.len() as int);
                assert(d.take(d.len() as int) =~= d);
            }
            return None;
        }
        val = wide as u64;
        i = i + 1;
    }
    proof {
        assert(d.take(n - start) =~= d);
    }
    Some(
        if from_start {
            Anchor::FromStart(
                if val == 0 {
                    0
                } else {
                    val - 1
                },
            )
        } else {
            Anchor::FromEnd(val)
        },
    )
}

impl PositionSpec {
    /// Parse a count string supplied for `unit` into a full specification.
    /// Succeeds exactly on the strings the grammar admits; a malformed
    /// string gives the fatal `InvalidCount` error, carrying the unit kind
    /// and the offending raw text.
    pub fn parse(unit: Unit, text: &str) -> (r: Result<PositionSpec, CliError>)
        ensures
            spec_parses(text@) ==> r == Ok::<PositionSpec, CliError>(
                (PositionSpec { unit, anchor: spec_parsed_anchor(text@) }),
            ),
            !spec_parses(text@) ==> (r matches Err(e) && e matches CliError::InvalidCount {
                unit: u,
                text: t,
            } && u == unit && t@ == text@),
    {
        match parse_position(text) {
            Some(anchor) => Ok(PositionSpec { unit, anchor }),
            None => Err(CliError::InvalidCount { unit, text: String::from_str(text) }),
        }
    }
}

} // verus!
