//! Command-line options, as plain values.
//!
//! The surrounding program parses its arguments into this struct; the
//! library only reads it. Paths are carried as plain strings here.

use vstd::prelude::*;
use vstd::string::StringExecFns;

verus! {

/// The options the program runs under: input and output paths, whether to
/// derive the output name, whether to loop-process at all, whether to
/// answer prompts with yes, the one-based layer to extract, the fade-out
/// duration in seconds and the number of loop repetitions.
pub struct CliOpts {
    pub input: String,
    pub output: String,
    pub automatic_name: bool,
    pub process: bool,
    pub yes: bool,
    pub layer: usize,
    pub fade: usize,
    pub loops: usize,
}

/// The output file name derived from the input file's stem: the stem with
/// an `.mp3` extension appended.
pub fn automatic_output_name(stem: &str) -> (name: String)
    ensures
        name@ == stem@ + ".mp3"@,
{
    let mut name = stem.to_owned();
    name.append(".mp3");
    name
}

} // verus!
