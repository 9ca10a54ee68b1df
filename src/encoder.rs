//! The port through which the library runs the video encoder.

use vstd::prelude::*;
use crate::text::{views, extend_strings};

verus! {

/// Why a run of the encoder failed: it could not be started, it exited
/// with an error, it was interrupted, or its output could not be read.
#[derive(Debug)]
pub struct EncodeError {
    pub message: String,
}

/// Runs the encoder. The production implementation spawns a process; tests
/// use mocks that compute an output from the arguments.
pub trait Encoder {
    /// Runs the encoder with `args` and returns what it wrote to its
    /// standard output.
    fn run(&self, args: Vec<String>) -> Result<Vec<u8>, EncodeError>;

    /// Runs the encoder with `args` followed by `output_file` (see
    /// `with_output_file`) and returns the contents of that file.
    fn run_with_output_file(&self, args: Vec<String>, output_file: &str) -> Result<Vec<u8>, EncodeError>;
}

/// The arguments of a run that writes to `output_file`: `args`, then the
/// path.
pub fn with_output_file(args: &Vec<String>, output_file: &str) -> (r: Vec<String>)
    ensures
        views(r@) == views(args@).push(output_file@),
{
    let mut r: Vec<String> = Vec::new();
    extend_strings(&mut r, args);
    let ghost before = r@;
    r.push(String::from_str(output_file));
    assert(views(r@) == views(before).push(output_file@));
    r
}

} // verus!
