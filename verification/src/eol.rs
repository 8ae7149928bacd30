//! End-of-line helpers: splitting a buffer into lines that keep their
//! endings, testing and trimming line-ending characters.

use vstd::prelude::*;
use vstd::string::StrSliceExecFns;

use crate::lines::offset_after_newlines;
use crate::locator::locate_lines_from_start;

verus! {

/// Whether `c` ends a line: newline or carriage return.
pub open spec fn spec_is_newline(c: char) -> bool {
    c == '\n' || c == '\r'
}

/// Whether `c` ends a line: newline or carriage return.
pub fn is_newline(c: char) -> (r: bool)
    ensures
        r == spec_is_newline(c),
{
    c == '\n' || c == '\r'
}

/// The length of `s` with every trailing line-ending character removed.
pub open spec fn trimmed_len(s: Seq<char>) -> nat
    decreases s.len(),
{
    if s.len() > 0 && spec_is_newline(s.last()) {
        trimmed_len(s.drop_last())
    } else {
        s.len()
    }
}

/// The trimmed length never exceeds the length.
proof fn lemma_trimmed_len_le(s: Seq<char>)
    ensures
        trimmed_len(s) <= s.len(),
    decreases s.len(),
{
    if s.len() > 0 && spec_is_newline(s.last()) {
        lemma_trimmed_len_le(s.drop_last());
    }
}

/// `s` with every trailing line-ending character removed.
pub fn trim_newline(s: &str) -> (r: &str)
    ensures
        r@ == s@.subrange(0, trimmed_len(s@) as int),
{
    let n = s.unicode_len();
    let mut p: usize = n;
    proof {
        assert(s@.take(n as int) =~= s@);
    }
    loop
        invariant
            p <= n,
            n == s@.len(),
            trimmed_len(s@.take(p as int)) == trimmed_len(s@),
        ensures
            p as nat == trimmed_len(s@),
            p <= n == s@.len(),
        decreases p,
    {
        proof {
            lemma_trimmed_len_le(s@.take(p as int));
        }
        if p == 0 {
            proof {
                assert(s@.take(0) =~= Seq::<char>::empty());
            }
            break;
        }
        let c = s.get_char(p - 1);
        proof {
            assert(s@.take(p as int).last() == s@[p - 1]);
        }
        if !(c == '\n' || c == '\r') {
            break;
        }
        proof {
            assert(s@.take(p as int).drop_last() =~= s@.take(p - 1));
        }
        p = p - 1;
    }
    s.substring_char(0, p)
}

/// Lines of a byte buffer, each kept together with its line ending. The next
/// line runs from the cursor up to and including the next newline, or to the
/// end of the buffer.
pub struct EolPreservingLines {
    pub buf: Vec<u8>,
    pub pos: usize,
}

impl EolPreservingLines {
    /// Well-formed: the cursor never lies beyond the buffer.
    pub open spec fn wf(&self) -> bool {
        self.pos <= self.buf@.len()
    }

    /// The next line with its ending, advancing the cursor past it; `None`
    /// once the buffer is exhausted.
    pub fn next(&mut self) -> (r: Option<Vec<u8>>)
        requires
            old(self).wf(),
        ensures
            final(self).wf(),
            final(self).buf == old(self).buf,
            old(self).pos == old(self).buf@.len() ==> r is None && final(self).pos == old(
                self,
            ).pos,
            old(self).pos < old(self).buf@.len() ==> {
                &&& final(self).pos == old(self).pos + offset_after_newlines(
                    old(self).buf@.skip(old(self).pos as int),
                    1,
                )
                &&& old(self).pos < final(self).pos <= old(self).buf@.len()
                &&& (r matches Some(l) && l@ == old(self).buf@.subrange(
                    old(self).pos as int,
                    final(self).pos as int,
                ))
            },
    {
        if self.pos == self.buf.len() {
            return None;
        }
        let rest: &[u8] = &self.buf.as_slice()[self.pos..self.buf.len()];
        proof {
            assert(rest@ =~= self.buf@.skip(self.pos as int));
        }
        let rel = locate_lines_from_start(rest, 1);
        proof {
            crate::lines::lemma_offset_after_newlines_le_len(rest@, 1);
            assert(offset_after_newlines(rest@, 1) >= 1) by {
                assert(rest@.len() > 0);
            }
        }
        let end = self.pos + rel;
        let mut line: Vec<u8> = Vec::new();
        let mut k = self.pos;
        while k < end
            invariant
                self.pos <= k <= end <= self.buf@.len(),
                line@ == self.buf@.subrange(self.pos as int, k as int),
            decreases end - k,
        {
            line.push(self.buf[k]);
            proof {
                assert(self.buf@.subrange(self.pos as int, k + 1 as int) =~= self.buf@.subrange(
                    self.pos as int,
                    k as int,
                ).push(self.buf@[k as int]));
            }
            k = k + 1;
        }
        self.pos = end;
        Some(line)
    }
}

/// Splitting a buffer into its lines with their endings kept.
pub trait LinesWithEol: Sized + View<V = Seq<u8>> {
    /// Wrap the buffer for line-by-line traversal from its start.
    fn lines_with_eol(self) -> (r: EolPreservingLines)
        ensures
            r.buf@ == self@,
            r.pos == 0,
    ;
}

impl LinesWithEol for Vec<u8> {
    fn lines_with_eol(self) -> (r: EolPreservingLines)
        ensures
            r.buf@ == self@,
            r.pos == 0,
    {
        EolPreservingLines { buf: self, pos: 0 }
    }
}

} // verus!
