//! The resolved configuration.
//!
//! Parsing the command line is the surrounding program's job; it hands
//! the resolved values over, and this configuration is read-only from
//! then on.

use vstd::prelude::*;

verus! {

/// The immutable configuration of one filter run.
pub struct Args {
    /// Input designator: a file path, or `-` for standard input.
    pub in_file: String,
    /// Output path; absent means standard output.
    pub out_file: Option<String>,
    /// Whether each record carries the count prefix.
    pub count: bool,
}

/// Assemble the configuration from the values the command-line surface
/// resolved.
pub fn get_args(in_file: String, out_file: Option<String>, count: bool) -> (args: Args)
    ensures
        args.in_file == in_file,
        args.out_file == out_file,
        args.count == count,
{
    Args { in_file, out_file, count }
}

} // verus!
