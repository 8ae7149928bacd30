//! The boundary locator: given a file's bytes and a position specification,
//! compute the byte offset at which emission starts. One resolution function
//! per unit/anchor case, selected by a single dispatch.

use vstd::prelude::*;

use crate::lines::is_nl;
use crate::lines::last_lines_start;
use crate::lines::lemma_last_lines_start_all;
use crate::lines::lemma_last_lines_start_found;
use crate::lines::lemma_last_lines_start_le_len;
use crate::lines::lemma_newline_count_push;
use crate::lines::lemma_offset_after_newlines_le_len;
use crate::lines::lemma_offset_past_all_lines;
use crate::lines::newline_count;
use crate::lines::offset_after_newlines;
use crate::lines::strip_trailing_newline;
use crate::lines::tail_lines_offset;
use crate::lines::total_lines;
use crate::position::Anchor;
use crate::position::PositionSpec;
use crate::position::Unit;

verus! {

/// The byte offset at which emission starts for content `s` under
/// specification `p`. Everything from this offset to the end of the file is
/// emitted.
pub open spec fn boundary(s: Seq<u8>, p: PositionSpec) -> nat {
    match p.unit {
        Unit::Bytes => match p.anchor {
            Anchor::FromStart(index) => if index as nat <= s.len() {
                index as nat
            } else {
                s.len()
            },
            Anchor::FromEnd(count) => if count as nat <= s.len() {
                (s.len() - count) as nat
            } else {
                0
            },
        },
        Unit::Lines => match p.anchor {
            Anchor::FromStart(index) => offset_after_newlines(s, index as nat),
            Anchor::FromEnd(count) => tail_lines_offset(s, count as nat),
        },
    }
}

/// The boundary is always a valid offset into the content.
pub proof fn lemma_boundary_le_len(s: Seq<u8>, p: PositionSpec)
    ensures
        boundary(s, p) <= s.len(),
{
    match p.unit {
        Unit::Bytes => {},
        Unit::Lines => match p.anchor {
            Anchor::FromStart(index) => {
                lemma_offset_after_newlines_le_len(s, index as nat);
            },
            Anchor::FromEnd(count) => {
                if count != 0 {
                    lemma_last_lines_start_le_len(strip_trailing_newline(s), count as nat);
                }
            },
        },
    }
}

/// Bytes anchored at the start: an absolute seek to `min(index, file_size)`,
/// no scanning.
pub fn locate_bytes_from_start(file_size: usize, index: u64) -> (off: usize)
    ensures
        off as nat == if index as nat <= file_size as nat {
            index as nat
        } else {
            file_size as nat
        },
{
    if index <= file_size as u64 {
        index as usize
    } else {
        file_size
    }
}

/// Bytes anchored at the end: an absolute seek to
/// `file_size - min(count, file_size)`, no scanning.
pub fn locate_bytes_from_end(file_size: usize, count: u64) -> (off: usize)
    ensures
        off as nat == if count as nat <= file_size as nat {
            (file_size - count) as nat
        } else {
            0nat
        },
{
    if count <= file_size as u64 {
        file_size - count as usize
    } else {
        0
    }
}

/// Lines anchored at the start: scan forward counting newlines until `index`
/// of them have been consumed or the content ends.
pub fn locate_lines_from_start(data: &[u8], index: u64) -> (off: usize)
    ensures
        off as nat == offset_after_newlines(data@, index as nat),
{
    let mut i: usize = 0;
    let mut remaining: u64 = index;
    proof {
        assert(data@.skip(0) =~= data@);
    }
    while i < data.len() && remaining > 0
        invariant
            i <= data.len(),
            offset_after_newlines(data@, index as nat) == i + offset_after_newlines(
                data@.skip(i as int),
                remaining as nat,
            ),
        decreases data.len() - i,
    {
        let b = data[i];
        proof {
            let rest = data@.skip(i as int);
            assert(rest.len() == data@.len() - i);
            assert(rest[0] == data@[i as int]);
            assert(rest.skip(1) =~= data@.skip(i + 1));
        }
        if b == 10u8 {
            remaining = remaining - 1;
        }
        i = i + 1;
    }
    proof {
        if remaining == 0 {
            assert(offset_after_newlines(data@.skip(i as int), 0) == 0);
        } else {
            assert(data@.skip(i as int) =~= Seq::<u8>::empty());
        }
    }
    i
}

/// Lines anchored at the end: scan backward from just before any final
/// trailing newline, counting newlines, until `count` of them have been seen
/// or the beginning of the content is reached.
pub fn locate_lines_from_end(data: &[u8], count: u64) -> (off: usize)
    ensures
        off as nat == tail_lines_offset(data@, count as nat),
{
    if count == 0 {
        return data.len();
    }
    let mut end: usize = data.len();
    if end > 0 && data[end - 1] == 10u8 {
        end = end - 1;
    }
    let ghost t = strip_trailing_newline(data@);
    proof {
        assert(t =~= data@.take(end as int));
    }
    let mut j: usize = end;
    let mut seen: u64 = 0;
    proof {
        assert(t.take(j as int) =~= t);
    }
    while j > 0
        invariant
            j <= end <= data.len(),
            seen < count,
            t == strip_trailing_newline(data@),
            t == data@.take(end as int),
            last_lines_start(t, count as nat) == last_lines_start(
                t.take(j as int),
                (count - seen) as nat,
            ),
        decreases j,
    {
        let b = data[j - 1];
        proof {
            let pre = t.take(j as int);
            assert(pre.len() == j);
            assert(pre.last() == data@[j - 1]);
            assert(pre.drop_last() =~= t.take(j - 1));
        }
        if b == 10u8 {
            if seen + 1 == count {
                proof {
                    assert(last_lines_start(t.take(j as int), (count - seen) as nat) == j);
                }
                return j;
            }
            seen = seen + 1;
        }
        j = j - 1;
    }
    proof {
        assert(t.take(0) =~= Seq::<u8>::empty());
        assert(last_lines_start(Seq::<u8>::empty(), (count - seen) as nat) == 0);
    }
    0
}

/// Resolve the boundary for content `data` under specification `pos`: the
/// offset at which emission starts, exactly `boundary(data@, *pos)`.
pub fn locate_boundary(data: &[u8], pos: &PositionSpec) -> (off: usize)
    ensures
        off as nat == boundary(data@, *pos),
{
    match pos.unit {
        Unit::Bytes => match pos.anchor {
            Anchor::FromStart(index) => locate_bytes_from_start(data.len(), index),
            Anchor::FromEnd(count) => locate_bytes_from_end(data.len(), count),
        },
        Unit::Lines => match pos.anchor {
            Anchor::FromStart(index) => locate_lines_from_start(data, index),
            Anchor::FromEnd(count) => locate_lines_from_end(data, count),
        },
    }
}

/// Law: for every content and every end-anchored line count, the suffix that
/// emission starts at holds exactly `min(count, total_lines)` lines.
pub proof fn lemma_tail_lines_emit_count(s: Seq<u8>, count: u64)
    ensures
        total_lines(
            s.skip(
                boundary(s, (PositionSpec { unit: Unit::Lines, anchor: Anchor::FromEnd(count) }))
                    as int,
            ),
        ) == if count as nat <= total_lines(s) {
            count as nat
        } else {
            total_lines(s)
        },
{
    if count == 0 {
        assert(s.skip(s.len() as int) =~= Seq::<u8>::empty());
    } else if s.len() == 0 {
        assert(s.skip(0) =~= s);
    } else {
        let t = strip_trailing_newline(s);
        assert(total_lines(s) == newline_count(t) + 1);
        if newline_count(t) < count as nat {
            lemma_last_lines_start_all(t, count as nat);
            assert(s.skip(0) =~= s);
        } else {
            lemma_last_lines_start_found(t, count as nat);
            let q = last_lines_start(t, count as nat);
            if is_nl(s.last()) {
                assert(s.skip(q as int) =~= t.skip(q as int).push(s.last()));
                lemma_newline_count_push(t.skip(q as int), s.last());
            } else {
                assert(q < s.len());
                assert(s.skip(q as int) == t.skip(q as int));
                assert(s.skip(q as int).last() == s.last());
            }
        }
    }
}

/// Law: a start-anchored line index at or past the number of lines in the
/// content puts the boundary at the very end, so emission is empty.
pub proof fn lemma_from_start_past_end(s: Seq<u8>, index: u64)
    requires
        index as nat >= total_lines(s),
    ensures
        boundary(s, (PositionSpec { unit: Unit::Lines, anchor: Anchor::FromStart(index) }))
            == s.len(),
        s.skip(s.len() as int) == Seq::<u8>::empty(),
{
    lemma_offset_past_all_lines(s, index as nat);
    assert(s.skip(s.len() as int) =~= Seq::<u8>::empty());
}

/// Law: in either unit, an end-anchored count of zero emits nothing, and a
/// start-anchored index of zero emits the whole content.
pub proof fn lemma_zero_counts(s: Seq<u8>, unit: Unit)
    ensures
        boundary(s, (PositionSpec { unit, anchor: Anchor::FromEnd(0u64) })) == s.len(),
        boundary(s, (PositionSpec { unit, anchor: Anchor::FromStart(0u64) })) == 0,
        s.skip(s.len() as int) == Seq::<u8>::empty(),
        s.skip(0) == s,
{
    assert(s.skip(s.len() as int) =~= Seq::<u8>::empty());
    assert(s.skip(0) =~= s);
}

/// Law: the boundary is a function of the content and the specification
/// alone, so resolving it twice on unmodified content yields the same
/// offset.
pub proof fn lemma_resolve_idempotent(s: Seq<u8>, p: PositionSpec, off1: nat, off2: nat)
    requires
        off1 == boundary(s, p),
        off2 == boundary(s, p),
    ensures
        off1 == off2,
{
}

/// The bytes a single file contributes to the output: everything from the
/// resolved boundary to the end of the content, verbatim.
pub fn tail_slice(data: &[u8], pos: &PositionSpec) -> (out: Vec<u8>)
    ensures
        out@ == data@.skip(boundary(data@, *pos) as int),
{
    let off = locate_boundary(data, pos);
    proof {
        lemma_boundary_le_len(data@, *pos);
    }
    let mut out: Vec<u8> = Vec::new();
    let mut k: usize = off;
    while k < data.len()
        invariant
            off <= k <= data.len(),
            off as nat == boundary(data@, *pos),
            out@ == data@.subrange(off as int, k as int),
        decreases data.len() - k,
    {
        out.push(data[k]);
        proof {
            assert(data@.subrange(off as int, k + 1 as int) =~= data@.subrange(
                off as int,
                k as int,
            ).push(data@[k as int]));
        }
        k = k + 1;
    }
    proof {
        assert(data@.subrange(off as int, data@.len() as int) =~= data@.skip(off as int));
    }
    out
}

} // verus!
