//! Extraction of a looped, faded audio layer from decoded PCM.
//!
//! The core of the library is the loop processor: given per-channel sample
//! buffers and a loop region `[start, end)`, it builds an output buffer that
//! plays the intro once, repeats the loop body a requested number of times,
//! and closes with a linearly faded copy of the body's leading samples.
//! Container decoding and lossy encoding are outside collaborators; the
//! library works on plain sample sequences only.
#![verifier::loop_isolation(false)]

pub mod decode;
pub mod fade;
pub mod markers;
pub mod opts;
pub mod process;
pub mod prompt;
