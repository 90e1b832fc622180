//! A verified lexical scanner for a small scripting language.
//!
//! The scanner turns raw source text into an ordered sequence of typed
//! tokens terminated by a single end-of-input marker, together with a
//! sequence of recoverable lexical diagnostics.  The whole tokenization is
//! specified by the mathematical model in [`model`], and the executable
//! scanner in [`scanner`] is proved to return exactly what the model says.

pub mod laws;
pub mod model;
pub mod scanner;
pub mod token;

use vstd::prelude::*;

verus! {

/// Picks the source-file path out of a program's argument list: the first
/// argument after the program name.
pub fn parse_file_path(args: &[String]) -> (r: &str)
    requires
        args@.len() >= 2,
    ensures
        r@ == args@[1]@,
{
    let file_path: &str = args[1].as_str();
    file_path
}

} // verus!
