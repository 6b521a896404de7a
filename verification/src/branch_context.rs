//! Where the score parser stands with respect to `#BRANCHSTART` blocks.
//!
//! Inside a block, the first branch written (`#N`, `#E` or `#M`) fixes the
//! measures and the tempo changes of the block; the branches that follow
//! replay its tempo changes at the same relative positions and only
//! contribute notes.  A later branch written a second time in one block is
//! ignored that second time.  The first branch is not counted as written:
//! written again later in the block, it is read like a later branch.  `S`
//! is the parser state the block starts and ends from, `E` a tempo element
//! of the first branch.
use vstd::prelude::*;

use crate::structs::BranchType;

verus! {

/// Which branches of the current block have been written.
#[derive(Clone, Copy, Debug, Default)]
pub struct FilledBranches {
    pub normal: bool,
    pub expert: bool,
    pub master: bool,
}

impl FilledBranches {
    /// Whether `branch` has been written.
    pub open spec fn spec_get(self, branch: BranchType) -> bool {
        match branch {
            BranchType::Normal => self.normal,
            BranchType::Expert => self.expert,
            BranchType::Master => self.master,
        }
    }

    /// Marks `branch` as written and says whether it already was.
    pub fn mark(&mut self, branch: BranchType) -> (was: bool)
        ensures
            was == old(self).spec_get(branch),
            *final(self) == (FilledBranches {
                normal: old(self).normal || branch == BranchType::Normal,
                expert: old(self).expert || branch == BranchType::Expert,
                master: old(self).master || branch == BranchType::Master,
            }),
    {
        match branch {
            BranchType::Normal => {
                let was = self.normal;
                self.normal = true;
                was
            },
            BranchType::Expert => {
                let was = self.expert;
                self.expert = true;
                was
            },
            BranchType::Master => {
                let was = self.master;
                self.master = true;
                was
            },
        }
    }
}

/// The first branch of a block: its measures and their tempo elements,
/// each measure as its note count and the elements with the number of
/// notes that precede them.
#[derive(Debug)]
pub struct FirstBranchContext<S, E> {
    pub branch_type: BranchType,
    pub initial_state: S,
    pub shared_elements: Vec<(usize, Vec<(usize, E)>)>,
}

/// A later branch of a block, replaying the first branch's measures.
#[derive(Debug)]
pub struct SubsequentBranchContext<S, E> {
    pub branch_type: BranchType,
    pub initial_state: S,
    pub end_state: S,
    pub shared_elements: Vec<(usize, Vec<(usize, E)>)>,
    pub measure_index: usize,
    pub filled_branch: FilledBranches,
}

#[derive(Debug)]
pub enum BranchContext<S, E> {
    /// Not in a block.
    Outside,
    /// After `#BRANCHSTART`, before the first branch.
    Started,
    First(FirstBranchContext<S, E>),
    Subsequent(SubsequentBranchContext<S, E>),
    /// A branch already written in this block.
    Duplicate(SubsequentBranchContext<S, E>),
}

/// How the elements of a measure are read.
#[derive(Clone, Copy, Debug, PartialEq, Eq, Structural)]
pub enum MeasureMode {
    /// The measure is dropped.
    Skip,
    /// Notes and tempo elements are taken as flagged.
    Read { notes: bool, tempo: bool },
}

/// What closing a block leaves to do.
#[derive(Debug)]
pub enum BranchEnd<S> {
    /// There was no block to close.
    NotStarted,
    /// The block had no branch.
    Empty,
    /// The state reached by the first branch stays.
    Keep,
    /// The state reached by the first branch is restored.
    Restore(S),
}

/// Whether a tempo element recorded after `position` of the first branch's
/// `total` notes is due once `note_index` of this measure's `notes_count`
/// notes have been read, comparing `position / total <= note_index /
/// notes_count` by cross-multiplying with saturation.
pub open spec fn shared_element_due_spec(position: usize, total: usize, notes_count: usize, note_index: usize) -> bool {
    let lhs = if position * notes_count > usize::MAX {
        usize::MAX as int
    } else {
        position * notes_count
    };
    let rhs = if total * note_index > usize::MAX {
        usize::MAX as int
    } else {
        total * note_index
    };
    lhs <= rhs
}

/// Law: a shared element due after some notes of a measure is still due
/// after more of them.
pub proof fn lemma_due_stays_due(
    position: usize,
    total: usize,
    notes_count: usize,
    note_index: usize,
    later: usize,
)
    requires
        shared_element_due_spec(position, total, notes_count, note_index),
        note_index <= later,
    ensures
        shared_element_due_spec(position, total, notes_count, later),
{
    assert(total * note_index <= total * later) by (nonlinear_arith)
        requires
            note_index <= later,
    ;
}

/// See [`shared_element_due_spec`].
pub fn shared_element_due(position: usize, total: usize, notes_count: usize, note_index: usize) -> (r: bool)
    ensures
        r == shared_element_due_spec(position, total, notes_count, note_index),
{
    let lhs = match position.checked_mul(notes_count) {
        Some(v) => v,
        None => usize::MAX,
    };
    let rhs = match total.checked_mul(note_index) {
        Some(v) => v,
        None => usize::MAX,
    };
    lhs <= rhs
}

/// The branch being written, if inside a branch.
pub open spec fn spec_current_branch<S, E>(context: &BranchContext<S, E>) -> Option<BranchType> {
    match context {
        BranchContext::Outside | BranchContext::Started => None,
        BranchContext::First(c) => Some(c.branch_type),
        BranchContext::Subsequent(c) | BranchContext::Duplicate(c) => Some(c.branch_type),
    }
}

/// How the current measure is read: nothing of a duplicate branch; only
/// tempo before the first branch or past the first branch's measures; only
/// notes in a later branch (its tempo is replayed from the first one).
pub open spec fn mode_of<S, E>(context: &BranchContext<S, E>) -> MeasureMode {
    match context {
        BranchContext::Outside => MeasureMode::Read { notes: true, tempo: true },
        BranchContext::Started => MeasureMode::Read { notes: false, tempo: true },
        BranchContext::First(_) => MeasureMode::Read { notes: true, tempo: true },
        BranchContext::Subsequent(c) => if c.measure_index < c.shared_elements@.len() {
            MeasureMode::Read { notes: true, tempo: false }
        } else {
            MeasureMode::Read { notes: false, tempo: true }
        },
        BranchContext::Duplicate(_) => MeasureMode::Skip,
    }
}

impl<S, E> BranchContext<S, E> {
    /// The branch being written, if inside a branch.
    pub fn current_branch(&self) -> (r: Option<BranchType>)
        ensures
            r == spec_current_branch(self),
    {
        match self {
            BranchContext::Outside | BranchContext::Started => None,
            BranchContext::First(c) => Some(c.branch_type),
            BranchContext::Subsequent(c) | BranchContext::Duplicate(c) => Some(c.branch_type),
        }
    }

    /// How the current measure is read (see [`mode_of`]).
    pub fn measure_mode(&self) -> (r: MeasureMode)
        ensures
            r == mode_of(self),
    {
        match self {
            BranchContext::Outside => MeasureMode::Read { notes: true, tempo: true },
            BranchContext::Started => MeasureMode::Read { notes: false, tempo: true },
            BranchContext::First(_) => MeasureMode::Read { notes: true, tempo: true },
            BranchContext::Subsequent(c) => if c.measure_index < c.shared_elements.len() {
                MeasureMode::Read { notes: true, tempo: false }
            } else {
                MeasureMode::Read { notes: false, tempo: true }
            },
            BranchContext::Duplicate(_) => MeasureMode::Skip,
        }
    }
}

/// The context after switching to `branch_type` from a later branch: the
/// measures start over, and a branch already written becomes a duplicate.
pub open spec fn switched<S, E>(branch_type: BranchType, context: SubsequentBranchContext<S, E>) -> BranchContext<S, E> {
    let next = SubsequentBranchContext {
        branch_type,
        measure_index: 0,
        filled_branch: FilledBranches {
            normal: context.filled_branch.normal || branch_type == BranchType::Normal,
            expert: context.filled_branch.expert || branch_type == BranchType::Expert,
            master: context.filled_branch.master || branch_type == BranchType::Master,
        },
        ..context
    };
    if context.filled_branch.spec_get(branch_type) {
        BranchContext::Duplicate(next)
    } else {
        BranchContext::Subsequent(next)
    }
}

/// See [`switched`].
pub fn switch_subsequent<S, E>(branch_type: BranchType, context: SubsequentBranchContext<S, E>) -> (r:
    BranchContext<S, E>)
    ensures
        r == switched(branch_type, context),
{
    let mut context = context;
    context.branch_type = branch_type;
    context.measure_index = 0;
    if context.filled_branch.mark(branch_type) {
        BranchContext::Duplicate(context)
    } else {
        BranchContext::Subsequent(context)
    }
}

/// Law: in a block, a later branch written a second time is a duplicate,
/// and switching never forgets a branch already written.
pub proof fn lemma_switch_twice_is_duplicate<S, E>(
    context: SubsequentBranchContext<S, E>,
    branch_type: BranchType,
    other: BranchType,
)
    ensures
        match switched(branch_type, context) {
            BranchContext::Subsequent(next) | BranchContext::Duplicate(next) => {
                &&& switched(branch_type, next) is Duplicate
                &&& context.filled_branch.spec_get(other) ==> next.filled_branch.spec_get(other)
            },
            _ => false,
        },
{
}

/// Switches to `branch_type` (`#N`, `#E`, `#M`) given the parser state
/// `current` at that point.  Outside a block nothing changes.  The first
/// branch starts from `current`; the second records `current` as the state
/// the block ends in.  Returns the new context and whether the parser
/// state must go back to the block's initial state.
pub fn switch_branch<S, E>(context: BranchContext<S, E>, branch_type: BranchType, current: S) -> (r: (
    BranchContext<S, E>,
    bool,
))
    ensures
        match context {
            BranchContext::Outside => r.0 is Outside && !r.1,
            BranchContext::Started => {
                &&& !r.1
                &&& r.0 matches BranchContext::First(f)
                &&& f.branch_type == branch_type
                &&& f.initial_state == current
                &&& f.shared_elements@.len() == 0
            },
            BranchContext::First(c) => {
                &&& r.1
                &&& r.0 == switched(
                    branch_type,
                    SubsequentBranchContext {
                        branch_type: c.branch_type,
                        initial_state: c.initial_state,
                        end_state: current,
                        shared_elements: c.shared_elements,
                        measure_index: 0,
                        filled_branch: FilledBranches { normal: false, expert: false, master: false },
                    },
                )
            },
            BranchContext::Subsequent(c) | BranchContext::Duplicate(c) => {
                &&& r.1
                &&& r.0 == switched(branch_type, c)
            },
        },
{
    match context {
        BranchContext::Outside => (BranchContext::Outside, false),
        BranchContext::Started => (
            BranchContext::First(
                FirstBranchContext { branch_type, initial_state: current, shared_elements: Vec::new() },
            ),
            false,
        ),
        BranchContext::First(c) => {
            let next = SubsequentBranchContext {
                branch_type,
                initial_state: c.initial_state,
                end_state: current,
                shared_elements: c.shared_elements,
                measure_index: 0,
                filled_branch: FilledBranches { normal: false, expert: false, master: false },
            };
            (switch_subsequent(branch_type, next), true)
        },
        BranchContext::Subsequent(c) => (switch_subsequent(branch_type, c), true),
        BranchContext::Duplicate(c) => (switch_subsequent(branch_type, c), true),
    }
}

/// Closes a block (`#BRANCHEND`, or a `#BRANCHSTART` inside a block).
/// Afterwards the parser is outside any block.
pub fn end_branch<S, E>(context: BranchContext<S, E>) -> (r: BranchEnd<S>)
    ensures
        match context {
            BranchContext::Outside => r is NotStarted,
            BranchContext::Started => r is Empty,
            BranchContext::First(_) => r is Keep,
            BranchContext::Subsequent(c) | BranchContext::Duplicate(c) => r == BranchEnd::Restore(
                c.end_state,
            ),
        },
{
    match context {
        BranchContext::Outside => BranchEnd::NotStarted,
        BranchContext::Started => BranchEnd::Empty,
        BranchContext::First(_) => BranchEnd::Keep,
        BranchContext::Subsequent(c) => BranchEnd::Restore(c.end_state),
        BranchContext::Duplicate(c) => BranchEnd::Restore(c.end_state),
    }
}

} // verus!
