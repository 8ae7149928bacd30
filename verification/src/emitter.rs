//! The tail emitter: drive one-or-many files through the boundary locator
//! and assemble the output, with per-file headers and separators for
//! multi-file runs. A file whose content could not be read contributes an
//! error line instead of output, and the run carries on.

use vstd::prelude::*;
use vstd::string::StringExecFns;
use vstd::utf8::encode_utf8;

use crate::error::message_chars;
use crate::error::CliError;
use crate::locator::boundary;
use crate::locator::lemma_boundary_le_len;
use crate::locator::tail_slice;
use crate::position::PositionSpec;

verus! {

/// One input file of a run: its path as given on the command line, and
/// either its content or the reason it could not be read.
pub struct FileInput {
    pub path: String,
    pub content: Result<Vec<u8>, String>,
}

/// The header line identifying a file, without its trailing newline.
pub open spec fn header_chars(p: Seq<char>) -> Seq<char> {
    "==> "@ + p + " <=="@
}

/// The bytes of the full header line, newline included.
pub open spec fn header_line_bytes(p: Seq<char>) -> Seq<u8> {
    encode_utf8(header_chars(p) + "\n"@)
}

/// Whether per-file headers are shown: only when more than one file was
/// given and headers were not suppressed.
pub open spec fn show_headers(n_files: nat, suppress_headers: bool) -> bool {
    n_files > 1 && !suppress_headers
}

/// The bytes one file contributes to the output: nothing for a file that
/// could not be read; otherwise an optional header line, the content from
/// the resolved boundary to the end, and a blank separator line after every
/// shown file but the last.
pub open spec fn file_chunk(f: FileInput, p: PositionSpec, show: bool, is_last: bool) -> Seq<u8> {
    match f.content {
        Ok(data) => {
            let hdr = if show {
                header_line_bytes(f.path@)
            } else {
                Seq::<u8>::empty()
            };
            let sep = if show && !is_last {
                seq![10u8]
            } else {
                Seq::<u8>::empty()
            };
            hdr + data@.skip(boundary(data@, p) as int) + sep
        },
        Err(_) => Seq::<u8>::empty(),
    }
}

/// The error line a failed file contributes, rendered as the I/O error for
/// its path.
pub open spec fn file_error_line(f: FileInput) -> Seq<char> {
    match f.content {
        Ok(_) => Seq::<char>::empty(),
        Err(cause) => message_chars(CliError::Io { path: f.path, cause }),
    }
}

/// The output of a run over the first `n` files, in argument order.
pub open spec fn run_output_prefix(
    fs: Seq<FileInput>,
    p: PositionSpec,
    show: bool,
    n: int,
) -> Seq<u8>
    decreases n,
{
    if n <= 0 {
        Seq::<u8>::empty()
    } else {
        run_output_prefix(fs, p, show, n - 1) + file_chunk(fs[n - 1], p, show, n == fs.len())
    }
}

/// The output of a whole run.
pub open spec fn run_output(fs: Seq<FileInput>, p: PositionSpec, suppress_headers: bool) -> Seq<
    u8,
> {
    run_output_prefix(fs, p, show_headers(fs.len(), suppress_headers), fs.len() as int)
}

/// The error lines of a run over the first `n` files: one per file whose
/// content could not be read, in argument order.
pub open spec fn error_lines_prefix(fs: Seq<FileInput>, n: int) -> Seq<Seq<char>>
    decreases n,
{
    if n <= 0 {
        Seq::<Seq<char>>::empty()
    } else {
        error_lines_prefix(fs, n - 1) + (match fs[n - 1].content {
            Ok(_) => Seq::<Seq<char>>::empty(),
            Err(_) => seq![file_error_line(fs[n - 1])],
        })
    }
}

/// The error lines of a whole run.
pub open spec fn error_lines(fs: Seq<FileInput>) -> Seq<Seq<char>> {
    error_lines_prefix(fs, fs.len() as int)
}

/// Format the header line identifying a file, `==> <path> <==`.
pub fn format_header(path: &str) -> (h: String)
    ensures
        h@ == header_chars(path@),
{
    let mut h = String::from_str("==> ");
    h.append(path);
    h.append(" <==");
    h
}

/// Append every byte of `src` to `out`.
fn append_bytes(out: &mut Vec<u8>, src: &[u8])
    ensures
        final(out)@ == old(out)@ + src@,
{
    let mut k: usize = 0;
    proof {
        assert(out@ + src@.subrange(0, 0) =~= out@);
    }
    while k < src.len()
        invariant
            k <= src.len(),
            out@ == old(out)@ + src@.subrange(0, k as int),
        decreases src.len() - k,
    {
        out.push(src[k]);
        proof {
            assert(old(out)@ + src@.subrange(0, k + 1 as int) =~= (old(out)@ + src@.subrange(
                0,
                k as int,
            )).push(src@[k as int]));
        }
        k = k + 1;
    }
    proof {
        assert(src@.subrange(0, src@.len() as int) =~= src@);
    }
}

/// Run the emitter over the files of one invocation, in argument order:
/// resolve each readable file's boundary and collect its output, and collect
/// one error line for each file that could not be read. Per-file failures
/// are never fatal: the output and the error lines of a run are exactly
/// those of its readable and its failed files.
#[verifier::loop_isolation(false)]
pub fn emit_tail(files: &Vec<FileInput>, pos: &PositionSpec, suppress_headers: bool) -> (r: (
    Vec<u8>,
    Vec<String>,
))
    ensures
        r.0@ == run_output(files@, *pos, suppress_headers),
        r.1@.len() == error_lines(files@).len(),
        forall|k: int| 0 <= k < r.1@.len() ==> r.1@[k]@ == error_lines(files@)[k],
{
    let show = files.len() > 1 && !suppress_headers;
    let mut out: Vec<u8> = Vec::new();
    let mut errs: Vec<String> = Vec::new();
    let mut i: usize = 0;
    while i < files.len()
        invariant
            i <= files.len(),
            out@ == run_output_prefix(files@, *pos, show, i as int),
            errs@.len() == error_lines_prefix(files@, i as int).len(),
            forall|k: int|
                0 <= k < errs@.len() ==> errs@[k]@ == error_lines_prefix(files@, i as int)[k],
        decreases files.len() - i,
    {
        let f = &files[i];
        match &f.content {
            Ok(data) => {
                if show {
                    let mut h = format_header(f.path.as_str());
                    h.append("\n");
                    append_bytes(&mut out, h.as_str().as_bytes());
                }
                let chunk = tail_slice(data.as_slice(), pos);
                append_bytes(&mut out, chunk.as_slice());
                if show && i + 1 < files.len() {
                    out.push(10u8);
                }
            },
            Err(cause) => {
                let e = CliError::Io { path: f.path.clone(), cause: cause.clone() };
                errs.push(e.message());
            },
        }
        proof {
            assert(out@ == run_output_prefix(files@, *pos, show, i + 1)) by {
                let chunk = file_chunk(files@[i as int], *pos, show, i + 1 == files@.len());
                assert(run_output_prefix(files@, *pos, show, i + 1) == run_output_prefix(
                    files@,
                    *pos,
                    show,
                    i as int,
                ) + chunk);
                match files@[i as int].content {
                    Ok(data) => {
                        if show && i + 1 < files@.len() {
                            assert(out@ =~= run_output_prefix(files@, *pos, show, i as int)
                                + chunk);
                        } else {
                            assert(chunk =~= (if show {
                                header_line_bytes(files@[i as int].path@)
                            } else {
                                Seq::<u8>::empty()
                            }) + data@.skip(boundary(data@, *pos) as int));
                            assert(out@ =~= run_output_prefix(files@, *pos, show, i as int)
                                + chunk);
                        }
                    },
                    Err(_) => {
                        assert(chunk =~= Seq::<u8>::empty());
                        assert(out@ =~= run_output_prefix(files@, *pos, show, i as int) + chunk);
                    },
                }
            }
        }
        i = i + 1;
    }
    (out, errs)
}

} // verus!
