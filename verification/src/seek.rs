//! Sources of audio samples that can jump to a sample.
use vstd::prelude::*;

verus! {

/// Outcome of a seek: an error message on failure.
pub type SeekResult = Result<(), String>;

/// A sample source that can continue from a given sample.
pub trait Seekable {
    fn seek(&mut self, sample: u64) -> SeekResult;
}

} // verus!
