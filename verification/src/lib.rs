//! Tail boundary resolution: given a file's bytes and a compact position
//! specification ("last N lines", "last N bytes", "starting at line/byte K"),
//! determine the byte offset at which output must begin, and assemble the
//! output for a run over one or many files.
//!
//! The crate also carries a few small verified helpers for the surrounding
//! utilities: permission-string rendering, end-of-line-preserving line
//! splitting, and counted line formatting.

pub mod emitter;
pub mod eol;
pub mod error;
pub mod fmt_num;
pub mod lines;
pub mod locator;
pub mod perms;
pub mod position;
