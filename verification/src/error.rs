//! The two error kinds of the engine: a malformed count specification, which
//! is fatal and aborts before any file is touched, and a per-file I/O
//! failure, which is reported and skipped.

use vstd::prelude::*;
use vstd::string::StringExecFns;

use crate::position::Unit;

verus! {

/// The word naming a count unit in messages.
pub open spec fn unit_word(u: Unit) -> Seq<char> {
    match u {
        Unit::Bytes => "byte"@,
        Unit::Lines => "line"@,
    }
}

/// What can go wrong in a run.
#[derive(Debug, PartialEq, Eq)]
pub enum CliError {
    /// The count specification string is malformed. Fatal: the run aborts
    /// before opening any file.
    InvalidCount { unit: Unit, text: String },
    /// A file could not be opened or read. Non-fatal: reported for that file
    /// and processing continues with the next one.
    Io { path: String, cause: String },
}

/// The one-line message an error renders to.
pub open spec fn message_chars(e: CliError) -> Seq<char> {
    match e {
        CliError::InvalidCount { unit, text } => "illegal "@ + unit_word(unit) + " count -- "@
            + text@,
        CliError::Io { path, cause } => path@ + ": "@ + cause@,
    }
}

impl CliError {
    /// Render the error as the one-line message the program prints.
    pub fn message(&self) -> (r: String)
        ensures
            r@ == message_chars(*self),
    {
        match self {
            CliError::InvalidCount { unit, text } => {
                let mut r = String::from_str("illegal ");
                match unit {
                    Unit::Bytes => r.append("byte"),
                    Unit::Lines => r.append("line"),
                }
                r.append(" count -- ");
                r.append(text.as_str());
                r
            },
            CliError::Io { path, cause } => {
                let mut r = path.clone();
                r.append(": ");
                r.append(cause.as_str());
                r
            },
        }
    }
}

} // verus!
