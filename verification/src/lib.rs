//! Verified core of a taiko rhythm game: score (TJA) grammar, judging state,
//! and the small data structures the game and its tools are built on.
use vstd::prelude::*;

pub mod analyze;
pub mod branch_context;
pub mod errors;
pub mod game_manager;
pub mod measure;
pub mod ring_buffer;
pub mod sdl2_utils;
pub mod seek;
pub mod structs;
pub mod text_encoding;
pub mod tja;
pub mod utils;
pub mod value_with_update_time;

verus! {

} // verus!
