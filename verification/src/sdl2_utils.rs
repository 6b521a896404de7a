//! Platform tweaks for the SDL window.
use vstd::prelude::*;

verus! {

/// Turns on momentum scrolling for trackpads.  Only macOS has such a
/// setting; on other platforms there is nothing to change.
pub fn enable_momentum_scroll() {
}

} // verus!
