//! Score items with nothing attached, as the score parser produces them.
use vstd::prelude::*;

use crate::structs::typed;

verus! {

pub type SingleNote = typed::SingleNote<()>;

pub type RendaKind = typed::RendaKind<()>;

pub type UnlimitedRenda = typed::UnlimitedRenda<()>;

pub type QuotaRenda = typed::QuotaRenda<()>;

} // verus!
