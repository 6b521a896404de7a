//! Errors reported by the SDL layer.
use vstd::prelude::*;

verus! {

/// An error message from SDL.
#[derive(Debug)]
pub struct SdlError(pub String);

impl From<String> for SdlError {
    fn from(message: String) -> (r: Self) {
        SdlError(message)
    }
}

impl vstd::std_specs::convert::FromSpecImpl<String> for SdlError {
    open spec fn obeys_from_spec() -> bool {
        true
    }

    open spec fn from_spec(message: String) -> Self {
        SdlError(message)
    }
}

} // verus!
