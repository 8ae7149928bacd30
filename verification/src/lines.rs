//! The mathematical model of line structure: newline counting, the offset
//! just past a given number of newlines, and the start of the last `count`
//! lines of a byte sequence. The boundary locator is specified and proved
//! against these functions.

use vstd::prelude::*;

verus! {

/// The newline byte, `b'\n'`.
pub open spec fn is_nl(b: u8) -> bool {
    b == 10u8
}

/// How many newline bytes a byte sequence holds.
pub open spec fn newline_count(s: Seq<u8>) -> nat
    decreases s.len(),
{
    if s.len() == 0 {
        0
    } else {
        newline_count(s.drop_last()) + (if is_nl(s.last()) {
            1nat
        } else {
            0nat
        })
    }
}

/// How many lines a byte sequence holds: every newline terminates a line,
/// and trailing bytes after the last newline form one final unterminated
/// line.
pub open spec fn total_lines(s: Seq<u8>) -> nat {
    newline_count(s) + (if s.len() > 0 && !is_nl(s.last()) {
        1nat
    } else {
        0nat
    })
}

/// The offset just past the `k`-th newline of `s`, scanning forward: 0 when
/// `k == 0`, and `s.len()` when `s` holds fewer than `k` newlines. This is
/// where the `(k+1)`-th line starts.
pub open spec fn offset_after_newlines(s: Seq<u8>, k: nat) -> nat
    decreases s.len(),
{
    if k == 0 {
        0
    } else if s.len() == 0 {
        0
    } else {
        1 + offset_after_newlines(
            s.skip(1),
            if is_nl(s[0]) {
                (k - 1) as nat
            } else {
                k
            },
        )
    }
}

/// The byte sequence with one final newline removed, if there is one.
/// Scanning for the last `count` lines logically begins before a final
/// trailing newline, so that a file ending in `\n` is not treated as having
/// one more empty line.
pub open spec fn strip_trailing_newline(s: Seq<u8>) -> Seq<u8> {
    if s.len() > 0 && is_nl(s.last()) {
        s.drop_last()
    } else {
        s
    }
}

/// The offset just past the `count`-th newline of `s`, scanning backward
/// from the end: 0 when `s` holds fewer than `count` newlines. Meaningful
/// for `count >= 1`.
pub open spec fn last_lines_start(s: Seq<u8>, count: nat) -> nat
    recommends
        count >= 1,
    decreases s.len(),
{
    if s.len() == 0 {
        0
    } else if is_nl(s.last()) {
        if count <= 1 {
            s.len()
        } else {
            last_lines_start(s.drop_last(), (count - 1) as nat)
        }
    } else {
        last_lines_start(s.drop_last(), count)
    }
}

/// The offset at which the last `count` lines of `s` start; `s.len()` when
/// `count == 0` (emit nothing), and 0 when the whole sequence holds at most
/// `count` lines (emit everything).
pub open spec fn tail_lines_offset(s: Seq<u8>, count: nat) -> nat {
    if count == 0 {
        s.len()
    } else {
        last_lines_start(strip_trailing_newline(s), count)
    }
}

/// Pushing one byte adds one newline to the count exactly when that byte is
/// a newline.
pub proof fn lemma_newline_count_push(s: Seq<u8>, b: u8)
    ensures
        newline_count(s.push(b)) == newline_count(s) + (if is_nl(b) {
            1nat
        } else {
            0nat
        }),
{
    assert(s.push(b).drop_last() =~= s);
}

/// `offset_after_newlines` never runs past the end of the sequence.
pub proof fn lemma_offset_after_newlines_le_len(s: Seq<u8>, k: nat)
    ensures
        offset_after_newlines(s, k) <= s.len(),
    decreases s.len(),
{
    if k != 0 && s.len() != 0 {
        let k2: nat = if is_nl(s[0]) {
            (k - 1) as nat
        } else {
            k
        };
        lemma_offset_after_newlines_le_len(s.skip(1), k2);
    }
}

/// `newline_count` can also be unfolded from the front.
pub proof fn lemma_newline_count_skip1(s: Seq<u8>)
    requires
        s.len() > 0,
    ensures
        newline_count(s) == newline_count(s.skip(1)) + (if is_nl(s[0]) {
            1nat
        } else {
            0nat
        }),
    decreases s.len(),
{
    if s.len() == 1 {
        assert(s.skip(1) =~= Seq::<u8>::empty());
        assert(s.drop_last() =~= Seq::<u8>::empty());
        assert(s.last() == s[0]);
    } else {
        let dl = s.drop_last();
        lemma_newline_count_skip1(dl);
        assert(dl[0] == s[0]);
        assert(dl.skip(1) =~= s.skip(1).drop_last());
        assert(s.skip(1).last() == s.last());
    }
}

/// `total_lines` can be unfolded from the front: the first byte either
/// closes the first line or belongs to it.
pub proof fn lemma_total_lines_skip1(s: Seq<u8>)
    requires
        s.len() > 1,
    ensures
        total_lines(s) == total_lines(s.skip(1)) + (if is_nl(s[0]) {
            1nat
        } else {
            0nat
        }),
{
    lemma_newline_count_skip1(s);
    assert(s.skip(1).len() == s.len() - 1);
    assert(s.skip(1).last() == s.last());
}

/// A nonempty byte sequence holds at least one line.
pub proof fn lemma_total_lines_pos(s: Seq<u8>)
    requires
        s.len() > 0,
    ensures
        total_lines(s) >= 1,
{
    if is_nl(s.last()) {
        assert(newline_count(s) >= 1);
    }
}

/// When the whole sequence holds fewer than `count` newlines, the backward
/// scan reaches the beginning: the last `count` lines start at offset 0.
pub proof fn lemma_last_lines_start_all(s: Seq<u8>, count: nat)
    requires
        count >= 1,
        newline_count(s) < count,
    ensures
        last_lines_start(s, count) == 0,
    decreases s.len(),
{
    if s.len() != 0 {
        if is_nl(s.last()) {
            lemma_last_lines_start_all(s.drop_last(), (count - 1) as nat);
        } else {
            lemma_last_lines_start_all(s.drop_last(), count);
        }
    }
}

/// When the sequence holds at least `count` newlines, the backward scan
/// stops just past a newline, and exactly `count - 1` newlines remain in the
/// suffix it cuts off.
pub proof fn lemma_last_lines_start_found(s: Seq<u8>, count: nat)
    requires
        count >= 1,
        newline_count(s) >= count,
    ensures
        1 <= last_lines_start(s, count) <= s.len(),
        is_nl(s[last_lines_start(s, count) - 1]),
        newline_count(s.skip(last_lines_start(s, count) as int)) == count - 1,
    decreases s.len(),
{
    if is_nl(s.last()) {
        if count <= 1 {
            assert(s.skip(s.len() as int) =~= Seq::<u8>::empty());
        } else {
            lemma_last_lines_start_found(s.drop_last(), (count - 1) as nat);
            let q = last_lines_start(s.drop_last(), (count - 1) as nat);
            assert(s.drop_last()[q - 1] == s[q - 1]);
            assert(s.skip(q as int) =~= s.drop_last().skip(q as int).push(s.last()));
            lemma_newline_count_push(s.drop_last().skip(q as int), s.last());
        }
    } else {
        assert(newline_count(s.drop_last()) == newline_count(s));
        lemma_last_lines_start_found(s.drop_last(), count);
        let q = last_lines_start(s.drop_last(), count);
        assert(s.drop_last()[q - 1] == s[q - 1]);
        assert(s.skip(q as int) =~= s.drop_last().skip(q as int).push(s.last()));
        lemma_newline_count_push(s.drop_last().skip(q as int), s.last());
    }
}

/// Asking to start past every line the sequence has puts the boundary at the
/// very end: nothing is left to emit.
pub proof fn lemma_offset_past_all_lines(s: Seq<u8>, k: nat)
    requires
        k >= total_lines(s),
    ensures
        offset_after_newlines(s, k) == s.len(),
    decreases s.len(),
{
    if s.len() > 0 {
        lemma_total_lines_pos(s);
        let k2: nat = if is_nl(s[0]) {
            (k - 1) as nat
        } else {
            k
        };
        if s.len() > 1 {
            lemma_total_lines_skip1(s);
            lemma_offset_past_all_lines(s.skip(1), k2);
        } else {
            assert(s.skip(1) =~= Seq::<u8>::empty());
            assert(offset_after_newlines(s.skip(1), k2) == 0);
        }
        assert(offset_after_newlines(s, k) == 1 + offset_after_newlines(s.skip(1), k2));
    }
}

/// `last_lines_start` never runs past the end of the sequence.
pub proof fn lemma_last_lines_start_le_len(s: Seq<u8>, count: nat)
    ensures
        last_lines_start(s, count) <= s.len(),
    decreases s.len(),
{
    if s.len() != 0 {
        if is_nl(s.last()) {
            if count > 1 {
                lemma_last_lines_start_le_len(s.drop_last(), (count - 1) as nat);
            }
        } else {
            lemma_last_lines_start_le_len(s.drop_last(), count);
        }
    }
}

} // verus!
