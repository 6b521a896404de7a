//! Score items parameterised by what the game attaches to them.
use std::fmt::Debug;
use vstd::prelude::*;

use crate::structs::{NoteSize, QuotaRendaKind, SingleNoteKind};

verus! {

/// The data that a stage of the program attaches to each kind of score item.
pub trait AdditionalInfo {
    type Note: Debug + Clone;
    type SingleNote: Debug + Clone;
    type RendaContent: Debug + Clone;
    type UnlimitedRenda: Debug + Clone;
    type QuotaRenda: Debug + Clone;
    type Branch: Debug + Clone;
}

/// What plain score items carry: nothing.
#[derive(Clone, Copy, Debug, Default)]
pub struct NoInfo;

impl AdditionalInfo for () {
    type Note = NoInfo;
    type SingleNote = NoInfo;
    type RendaContent = NoInfo;
    type UnlimitedRenda = NoInfo;
    type QuotaRenda = NoInfo;
    type Branch = NoInfo;
}

#[derive(Clone, Copy, Debug)]
pub struct SingleNote<T: AdditionalInfo> {
    pub kind: SingleNoteKind,
    pub info: T::SingleNote,
}

#[derive(Clone, Debug)]
pub enum RendaKind<T: AdditionalInfo> {
    Unlimited(UnlimitedRenda<T>),
    Quota(QuotaRenda<T>),
}

#[derive(Clone, Copy, Debug)]
pub struct UnlimitedRenda<T: AdditionalInfo> {
    pub size: NoteSize,
    pub info: T::UnlimitedRenda,
}

#[derive(Clone, Copy, Debug)]
pub struct QuotaRenda<T: AdditionalInfo> {
    pub kind: QuotaRendaKind,
    pub quota: u64,
    pub info: T::QuotaRenda,
}

} // verus!
