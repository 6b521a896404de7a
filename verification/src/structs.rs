//! The vocabulary of a score: note kinds, branches, bar lines.
use vstd::prelude::*;

pub mod just;
pub mod typed;

verus! {

#[derive(Clone, Copy, Debug)]
pub struct LevelUra(pub Level, pub bool);

#[derive(Clone, Copy, Debug)]
pub enum Level {
    Easy,
    Normal,
    Hard,
    Oni,
}

#[derive(Clone, Copy, Debug)]
pub struct SingleNoteKind {
    pub color: NoteColor,
    pub size: NoteSize,
}

#[derive(Clone, Copy, Debug, PartialEq, Eq, Structural)]
pub enum NoteColor {
    Don,
    Ka,
}

#[derive(Clone, Copy, Debug)]
pub enum NoteSize {
    Small,
    Large,
}

#[derive(Clone, Copy, Debug)]
pub enum QuotaRendaKind {
    Balloon,
    Potato,
}

#[derive(Clone, Copy, Debug)]
pub enum BarLineKind {
    Normal,
    Branch,
}

#[derive(Clone, Copy, Debug, PartialEq, Eq, Structural)]
pub enum BranchType {
    Normal,
    Expert,
    Master,
}

impl Default for BranchType {
    /// Scores start on the normal branch.
    fn default() -> (r: Self)
        ensures
            r == BranchType::Normal,
    {
        BranchType::Normal
    }
}

#[derive(Clone, Copy, Debug)]
pub enum BranchEventKind {
    LevelHold(BranchType),
    Section,
}

} // verus!
