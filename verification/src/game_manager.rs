//! Judging state of a running game: what each hit does to the notes, the
//! judge counts, the combo and the gauge.
//!
//! The gauge is kept as an integer.  All gauge amounts the game ever adds
//! (see [`gauge_good_delta`]) are whole numbers, and the gauge is clamped to
//! `0..=10000`, so integer arithmetic gives exactly the values the game
//! computes.
pub mod play;

pub use play::{branch_at, check_note_wrapper, GameManager};

use std::collections::VecDeque;
use std::convert::Infallible;
use vstd::prelude::*;
use vstd::std_specs::cmp::PartialOrdSpec;
use vstd::std_specs::vecdeque::spec_iter;

use crate::structs::typed;
use crate::structs::{BranchType, NoteColor, NoteSize, SingleNoteKind};

verus! {

/// Marks score items as they are during a game.
#[derive(Debug)]
pub struct OfGameState(pub Infallible);

impl typed::AdditionalInfo for OfGameState {
    type Note = typed::NoInfo;
    type SingleNote = SingleNoteInfo;
    type RendaContent = RendaState;
    type UnlimitedRenda = typed::NoInfo;
    type QuotaRenda = QuotaRendaState;
    type Branch = BranchState;
}

pub type SingleNote = typed::SingleNote<OfGameState>;

pub type RendaKind = typed::RendaKind<OfGameState>;

pub type UnlimitedRenda = typed::UnlimitedRenda<OfGameState>;

pub type QuotaRenda = typed::QuotaRenda<OfGameState>;

/// Gauge change for each judge of one note.
#[derive(Clone, Copy, Debug, Default)]
pub struct GaugeDelta {
    pub good: i64,
    pub ok: i64,
    pub bad: i64,
}

impl GaugeDelta {
    /// The change for `judge`.
    pub open spec fn spec_get(self, judge: Judge) -> i64 {
        match judge {
            Judge::Good => self.good,
            Judge::Okay => self.ok,
            Judge::Bad => self.bad,
        }
    }

    /// The change for `judge`.
    pub fn get(&self, judge: Judge) -> (r: i64)
        ensures
            r == self.spec_get(judge),
    {
        match judge {
            Judge::Good => self.good,
            Judge::Okay => self.ok,
            Judge::Bad => self.bad,
        }
    }

    /// The deltas derived from the delta of a good: an ok gives half of it
    /// (rounded toward zero), a bad takes twice it away.
    pub fn from_good(good: i64) -> (r: Self)
        requires
            0 <= good <= 1_000_000_000,
        ensures
            r.good == good,
            r.ok == good / 2,
            r.bad == -2 * good,
    {
        GaugeDelta { good, ok: good / 2, bad: -2 * good }
    }
}

#[derive(Default, Debug, Clone)]
pub struct SingleNoteInfo {
    pub judge: Option<JudgeOrPassed>,
    pub gauge_delta: GaugeDelta,
}

impl SingleNoteInfo {
    /// A note stays on screen unless it was hit (a passed note keeps scrolling).
    pub fn visible(&self) -> (r: bool)
        ensures
            r == !(self.judge matches Some(JudgeOrPassed::Judge(_))),
    {
        !matches!(self.judge, Some(JudgeOrPassed::Judge(..)))
    }
}

#[derive(Default, Debug, Clone)]
pub struct RendaState {
    pub count: u64,
}

#[derive(Default, Debug, Clone)]
pub struct QuotaRendaState {
    pub finished: bool,
}

#[derive(Default, Debug, Clone)]
pub struct BranchState {
    pub determined_branch: Option<BranchType>,
}

impl typed::SingleNote<OfGameState> {
    /// Whether a hit of `color` is the right color for this note; no color never is.
    pub fn corresponds(&self, color: &Option<NoteColor>) -> (r: bool)
        ensures
            r == (*color == Some(self.kind.color)),
    {
        match color {
            Some(c) => self.kind.color == *c,
            None => false,
        }
    }
}

#[derive(Clone, Copy, Debug)]
pub enum JudgeOrPassed {
    Judge(Judge),
    Passed,
}

#[derive(Clone, Copy, Debug)]
pub enum Judge {
    Good,
    Okay,
    Bad,
}

impl From<Judge> for JudgeOrPassed {
    fn from(judge: Judge) -> (r: Self) {
        JudgeOrPassed::Judge(judge)
    }
}

impl vstd::std_specs::convert::FromSpecImpl<Judge> for JudgeOrPassed {
    open spec fn obeys_from_spec() -> bool {
        true
    }

    open spec fn from_spec(judge: Judge) -> Self {
        JudgeOrPassed::Judge(judge)
    }
}

/// The judge that counts for a judged note; a note that passed unhit counts as bad.
pub open spec fn judge_of(judge: JudgeOrPassed) -> Judge {
    match judge {
        JudgeOrPassed::Judge(judge) => judge,
        JudgeOrPassed::Passed => Judge::Bad,
    }
}

impl From<JudgeOrPassed> for Judge {
    fn from(judge: JudgeOrPassed) -> (r: Self) {
        match judge {
            JudgeOrPassed::Judge(judge) => judge,
            _ => Judge::Bad,
        }
    }
}

impl vstd::std_specs::convert::FromSpecImpl<JudgeOrPassed> for Judge {
    open spec fn obeys_from_spec() -> bool {
        true
    }

    open spec fn from_spec(judge: JudgeOrPassed) -> Self {
        judge_of(judge)
    }
}

/// Where a note lies relative to a hit: within the good window, within the
/// ok window, left behind, or still ahead.
#[derive(Clone, Copy, Debug, PartialEq, Eq, Structural)]
pub enum NoteTiming {
    Good,
    Okay,
    Past,
    Future,
}

/// Where a note lies relative to a hit for a bad judge: within the bad
/// window, left behind, or still ahead.
#[derive(Clone, Copy, Debug, PartialEq, Eq, Structural)]
pub enum BadTiming {
    Bad,
    Past,
    Future,
}

/// What a note check tells the walk along the timeline: the note is behind
/// (the walk may start after it next time), go on, stop with a result, or stop.
#[derive(Debug)]
pub enum JudgeOnTimeline<T> {
    Past,
    Continue,
    BreakWith(T),
    Break,
}

/// The highest gauge value.
pub const GAUGE_MAX: i64 = 10000;

/// `x` clamped to `lo..=hi`.
pub open spec fn clamp_int(x: int, lo: int, hi: int) -> int {
    if x < lo {
        lo
    } else if x > hi {
        hi
    } else {
        x
    }
}

#[derive(Clone, Copy, Default, Debug)]
pub struct GameState {
    pub score: i64,
    pub good_count: i64,
    pub ok_count: i64,
    pub bad_count: i64,
    pub renda_count: i64,
    pub combo: i64,
    pub gauge: i64,
}

impl GameState {
    /// The count kept for `judge`.
    pub open spec fn judge_count(self, judge: Judge) -> i64 {
        match judge {
            Judge::Good => self.good_count,
            Judge::Okay => self.ok_count,
            Judge::Bad => self.bad_count,
        }
    }

    /// The count kept for `judge`, for modification.
    pub fn judge_count_mut(&mut self, judge: Judge) -> (r: &mut i64)
        ensures
            *r == old(self).judge_count(judge),
            *final(self) == match judge {
                Judge::Good => GameState { good_count: *final(r), ..*old(self) },
                Judge::Okay => GameState { ok_count: *final(r), ..*old(self) },
                Judge::Bad => GameState { bad_count: *final(r), ..*old(self) },
            },
    {
        match judge {
            Judge::Good => &mut self.good_count,
            Judge::Okay => &mut self.ok_count,
            Judge::Bad => &mut self.bad_count,
        }
    }

    /// The state after one note is judged `judge`: its count goes up, a bad
    /// breaks the combo and anything else extends it, and the note's gauge
    /// change for the judge is applied within `0..=GAUGE_MAX`.
    pub open spec fn after_judge(self, delta: GaugeDelta, judge: JudgeOrPassed) -> GameState {
        let j = judge_of(judge);
        let counted = match j {
            Judge::Good => GameState { good_count: (self.good_count + 1) as i64, ..self },
            Judge::Okay => GameState { ok_count: (self.ok_count + 1) as i64, ..self },
            Judge::Bad => GameState { bad_count: (self.bad_count + 1) as i64, ..self },
        };
        GameState {
            combo: match j {
                Judge::Bad => 0,
                _ => (self.combo + 1) as i64,
            },
            gauge: clamp_int(self.gauge + delta.spec_get(j), 0, GAUGE_MAX as int) as i64,
            ..counted
        }
    }

    /// Records `judge` on `note`.  Only the first judge of a note counts: a
    /// note that already had a judge gets the new one written but the state
    /// does not change.
    pub fn update_with_judge(&mut self, note: &mut SingleNote, judge: JudgeOrPassed)
        requires
            old(note).info.judge is None ==> old(self).judge_count(judge_of(judge)) < i64::MAX,
            old(note).info.judge is None && !(judge_of(judge) is Bad) ==> old(self).combo
                < i64::MAX,
        ensures
            final(note).kind == old(note).kind,
            final(note).info.gauge_delta == old(note).info.gauge_delta,
            final(note).info.judge == Some(judge),
            *final(self) == if old(note).info.judge is None {
                old(self).after_judge(old(note).info.gauge_delta, judge)
            } else {
                *old(self)
            },
    {
        let was_none = note.info.judge.is_none();
        note.info.judge = Some(judge);
        if was_none {
            let j = Judge::from(judge);
            let count = self.judge_count_mut(j);
            *count = *count + 1;
            match j {
                Judge::Bad => self.combo = 0,
                _ => self.combo = self.combo + 1,
            }
            let delta = note.info.gauge_delta.get(j);
            let raised = self.gauge as i128 + delta as i128;
            let clamped: i128 = if raised < 0 {
                0
            } else if raised > GAUGE_MAX as i128 {
                GAUGE_MAX as i128
            } else {
                raised
            };
            self.gauge = clamped as i64;
        }
    }

    /// One drumroll hit of `color` on a drumroll of kind `kind` whose hit
    /// count is `state`.  An unlimited drumroll takes any color; a balloon or
    /// potato takes only don and stops counting once its quota is reached.
    /// Returns the kind of the note that flies off when the hit counts.
    pub fn hit_renda(
        &mut self,
        kind: &mut RendaKind,
        state: &mut RendaState,
        color: Option<NoteColor>,
    ) -> (r: Option<SingleNoteKind>)
        requires
            old(self).renda_count < i64::MAX,
            old(state).count < u64::MAX,
        ensures
            (*final(self), *final(kind), *final(state), r) == renda_hit(
                *old(self),
                *old(kind),
                *old(state),
                color,
            ),
    {
        match (kind, color) {
            (typed::RendaKind::Unlimited(renda_u), Some(color)) => {
                self.renda_count = self.renda_count + 1;
                state.count = state.count + 1;
                Some(SingleNoteKind { color, size: renda_u.size })
            },
            (typed::RendaKind::Quota(renda_q), Some(NoteColor::Don)) => {
                if !renda_q.info.finished {
                    self.renda_count = self.renda_count + 1;
                    state.count = state.count + 1;
                    if state.count >= renda_q.quota {
                        renda_q.info.finished = true;
                    }
                    Some(SingleNoteKind { color: NoteColor::Don, size: NoteSize::Small })
                } else {
                    None
                }
            },
            _ => None,
        }
    }

    /// A hit of `color` reaching an unjudged note of that color on the branch
    /// being played judges it good or ok by `timing`; a note left behind
    /// unjudged is judged passed; an upcoming note stops the search.
    pub fn check_single_note(
        &mut self,
        note: &mut SingleNote,
        color: &Option<NoteColor>,
        branch_matches: bool,
        timing: NoteTiming,
    ) -> (r: JudgeOnTimeline<Judge>)
        requires
            old(self).good_count < i64::MAX,
            old(self).ok_count < i64::MAX,
            old(self).bad_count < i64::MAX,
            old(self).combo < i64::MAX,
        ensures
            (*final(self), *final(note), r) == single_check(
                *old(self),
                *old(note),
                *color,
                branch_matches,
                timing,
            ),
    {
        match timing {
            NoteTiming::Good | NoteTiming::Okay => {
                if note.info.judge.is_none() && note.corresponds(color) && branch_matches {
                    let judge = match timing {
                        NoteTiming::Good => Judge::Good,
                        _ => Judge::Okay,
                    };
                    self.update_with_judge(note, JudgeOrPassed::Judge(judge));
                    JudgeOnTimeline::BreakWith(judge)
                } else {
                    JudgeOnTimeline::Continue
                }
            },
            NoteTiming::Past => {
                if note.info.judge.is_none() && branch_matches {
                    self.update_with_judge(note, JudgeOrPassed::Passed);
                }
                JudgeOnTimeline::Past
            },
            NoteTiming::Future => JudgeOnTimeline::Break,
        }
    }

    /// A hit of `color` close enough to a note of that color that is unjudged
    /// or was passed judges it bad (a passed note keeps its counts); a note
    /// left behind is skipped; an upcoming note stops the search.
    pub fn check_single_note_bad(
        &mut self,
        note: &mut SingleNote,
        color: &Option<NoteColor>,
        branch_matches: bool,
        timing: BadTiming,
    ) -> (r: JudgeOnTimeline<()>)
        requires
            old(self).bad_count < i64::MAX,
        ensures
            (*final(self), *final(note), r) == bad_check(
                *old(self),
                *old(note),
                *color,
                branch_matches,
                timing,
            ),
    {
        match timing {
            BadTiming::Bad => {
                if matches!(note.info.judge, None | Some(JudgeOrPassed::Passed))
                    && note.corresponds(color) && branch_matches {
                    self.update_with_judge(note, JudgeOrPassed::Judge(Judge::Bad));
                    JudgeOnTimeline::BreakWith(())
                } else {
                    JudgeOnTimeline::Continue
                }
            },
            BadTiming::Past => JudgeOnTimeline::Past,
            BadTiming::Future => JudgeOnTimeline::Break,
        }
    }
}

/// Law: whatever the state before and whatever the judge, the gauge after
/// a judge is within `0..=GAUGE_MAX`, and a good never lowers it when its
/// gauge change is not negative.
pub proof fn lemma_gauge_stays_in_range(game: GameState, delta: GaugeDelta, judge: JudgeOrPassed)
    ensures
        0 <= game.after_judge(delta, judge).gauge <= GAUGE_MAX,
        judge == JudgeOrPassed::Judge(Judge::Good) && delta.good >= 0 && 0 <= game.gauge
            <= GAUGE_MAX ==> game.after_judge(delta, judge).gauge >= game.gauge,
{
}

/// `note` with `judge` written on it.
pub open spec fn judged(note: SingleNote, judge: JudgeOrPassed) -> SingleNote {
    typed::SingleNote {
        kind: note.kind,
        info: SingleNoteInfo { judge: Some(judge), gauge_delta: note.info.gauge_delta },
    }
}

/// A hit of `color` at `timing` of `note`: reaching an unjudged note of
/// that color on the branch being played judges it good or ok; a note left
/// behind unjudged is judged passed; an upcoming note stops the search.
/// Gives the state, the note and what the walk along the notes does next.
pub open spec fn single_check(
    game: GameState,
    note: SingleNote,
    color: Option<NoteColor>,
    branch_matches: bool,
    timing: NoteTiming,
) -> (GameState, SingleNote, JudgeOnTimeline<Judge>) {
    let fresh = note.info.judge is None;
    match timing {
        NoteTiming::Good | NoteTiming::Okay => {
            let judge = if timing is Good {
                Judge::Good
            } else {
                Judge::Okay
            };
            if fresh && color == Some(note.kind.color) && branch_matches {
                (
                    game.after_judge(note.info.gauge_delta, JudgeOrPassed::Judge(judge)),
                    judged(note, JudgeOrPassed::Judge(judge)),
                    JudgeOnTimeline::BreakWith(judge),
                )
            } else {
                (game, note, JudgeOnTimeline::Continue)
            }
        },
        NoteTiming::Past => if fresh && branch_matches {
            (
                game.after_judge(note.info.gauge_delta, JudgeOrPassed::Passed),
                judged(note, JudgeOrPassed::Passed),
                JudgeOnTimeline::Past,
            )
        } else {
            (game, note, JudgeOnTimeline::Past)
        },
        NoteTiming::Future => (game, note, JudgeOnTimeline::Break),
    }
}

/// A hit of `color` at `timing` of `note` for a bad judge: close enough to
/// a note of that color that is unjudged or was passed, on the branch being
/// played, it judges it bad (a passed note keeps its counts); a note left
/// behind is skipped; an upcoming note stops the search.
pub open spec fn bad_check(
    game: GameState,
    note: SingleNote,
    color: Option<NoteColor>,
    branch_matches: bool,
    timing: BadTiming,
) -> (GameState, SingleNote, JudgeOnTimeline<()>) {
    let open = note.info.judge is None || note.info.judge == Some(JudgeOrPassed::Passed);
    match timing {
        BadTiming::Bad => if open && color == Some(note.kind.color) && branch_matches {
            (
                if note.info.judge is None {
                    game.after_judge(note.info.gauge_delta, JudgeOrPassed::Judge(Judge::Bad))
                } else {
                    game
                },
                judged(note, JudgeOrPassed::Judge(Judge::Bad)),
                JudgeOnTimeline::BreakWith(()),
            )
        } else {
            (game, note, JudgeOnTimeline::Continue)
        },
        BadTiming::Past => (game, note, JudgeOnTimeline::Past),
        BadTiming::Future => (game, note, JudgeOnTimeline::Break),
    }
}

/// One drumroll hit of `color` on a drumroll of kind `kind` whose hit count
/// is `state`.  An unlimited drumroll takes any color; a balloon or potato
/// takes only don and stops counting once its quota is reached.  Gives the
/// state, the drumroll, its count and the kind of the note that flies off
/// when the hit counts.
pub open spec fn renda_hit(
    game: GameState,
    kind: RendaKind,
    state: RendaState,
    color: Option<NoteColor>,
) -> (GameState, RendaKind, RendaState, Option<SingleNoteKind>) {
    let counted = GameState { renda_count: (game.renda_count + 1) as i64, ..game };
    let next = RendaState { count: (state.count + 1) as u64 };
    match (kind, color) {
        (typed::RendaKind::Unlimited(u), Some(c)) => (
            counted,
            kind,
            next,
            Some(SingleNoteKind { color: c, size: u.size }),
        ),
        (typed::RendaKind::Quota(q), Some(NoteColor::Don)) => if !q.info.finished {
            (
                counted,
                typed::RendaKind::Quota(
                    typed::QuotaRenda {
                        info: QuotaRendaState { finished: next.count >= q.quota },
                        ..q
                    },
                ),
                next,
                Some(SingleNoteKind { color: NoteColor::Don, size: NoteSize::Small }),
            )
        } else {
            (game, kind, state, None)
        },
        _ => (game, kind, state, None),
    }
}

/// Number of entries of `branches` that play on `branch`: those of that
/// branch and those common to all branches.
pub open spec fn notes_on_branch(branches: Seq<Option<BranchType>>, branch: BranchType) -> nat
    decreases branches.len(),
{
    if branches.len() == 0 {
        0
    } else {
        notes_on_branch(branches.drop_last(), branch) + if branches.last() is None
            || branches.last() == Some(branch) {
            1nat
        } else {
            0nat
        }
    }
}

/// The largest number of single notes that one play through the score can meet.
pub open spec fn max_combo(branches: Seq<Option<BranchType>>) -> nat {
    let n = notes_on_branch(branches, BranchType::Normal);
    let e = notes_on_branch(branches, BranchType::Expert);
    let m = notes_on_branch(branches, BranchType::Master);
    if n >= e && n >= m {
        n
    } else if e >= m {
        e
    } else {
        m
    }
}

/// `13113 / n` rounded to the nearest integer, halves away from zero; 0 when `n` is 0.
pub open spec fn good_delta_for(n: nat) -> nat {
    if n == 0 {
        0
    } else {
        ((2 * 13113 + n) / (2 * n)) as nat
    }
}

/// The gauge gain of a good, given for each single note of the score the
/// branch it belongs to (`None` for notes common to all branches): 13113
/// spread over the longest combo that a play can reach, rounded.
pub fn gauge_good_delta(single_note_branches: &Vec<Option<BranchType>>) -> (r: i64)
    ensures
        r == good_delta_for(max_combo(single_note_branches@)),
        0 <= r <= 13113,
{
    let mut normal: usize = 0;
    let mut expert: usize = 0;
    let mut master: usize = 0;
    let mut i: usize = 0;
    while i < single_note_branches.len()
        invariant
            i <= single_note_branches@.len(),
            normal == notes_on_branch(single_note_branches@.take(i as int), BranchType::Normal),
            expert == notes_on_branch(single_note_branches@.take(i as int), BranchType::Expert),
            master == notes_on_branch(single_note_branches@.take(i as int), BranchType::Master),
            normal <= i,
            expert <= i,
            master <= i,
        decreases single_note_branches@.len() - i,
    {
        proof {
            assert(single_note_branches@.take(i + 1).drop_last() =~= single_note_branches@.take(
                i as int,
            ));
        }
        match single_note_branches[i] {
            Some(BranchType::Normal) => normal += 1,
            Some(BranchType::Expert) => expert += 1,
            Some(BranchType::Master) => master += 1,
            None => {
                normal += 1;
                expert += 1;
                master += 1;
            },
        }
        i += 1;
    }
    proof {
        assert(single_note_branches@.take(i as int) =~= single_note_branches@);
    }
    let n: usize = if normal >= expert && normal >= master {
        normal
    } else if expert >= master {
        expert
    } else {
        master
    };
    if n == 0 {
        0
    } else {
        let n = n as u128;
        let rounded = (2 * 13113 + n) / (2 * n);
        proof {
            assert((2 * 13113 + n) / (2 * n) <= 13113) by (nonlinear_arith)
                requires
                    n >= 1,
            ;
        }
        rounded as i64
    }
}

/// The branch a result `v` leads to: master from `m` on, expert from `e` on,
/// normal below.
pub fn branch_by_candidate<T: PartialOrd>(v: T, e: T, m: T) -> (r: BranchType)
    ensures
        T::obeys_partial_cmp_spec() ==> r == if v.partial_cmp_spec(&m) matches Some(
            std::cmp::Ordering::Greater | std::cmp::Ordering::Equal,
        ) {
            BranchType::Master
        } else if v.partial_cmp_spec(&e) matches Some(
            std::cmp::Ordering::Greater | std::cmp::Ordering::Equal,
        ) {
            BranchType::Expert
        } else {
            BranchType::Normal
        },
{
    if v >= m {
        BranchType::Master
    } else if v >= e {
        BranchType::Expert
    } else {
        BranchType::Normal
    }
}

/// Drops the items at the front of `vec` for as long as `filter_out` holds
/// of them, and returns an iterator over the items that remain.
pub fn filter_out_and_iter<T, F>(vec: &mut VecDeque<T>, filter_out: F) -> (r:
    std::collections::vec_deque::Iter<'_, T>)
    where
        F: Fn(&&T) -> bool,
    requires
        forall|x: &&T| #[trigger] call_requires(filter_out, (x,)),
    ensures
        exists|k: int|
            {
                &&& 0 <= k <= old(vec)@.len()
                &&& final(vec)@ == old(vec)@.skip(k)
                &&& forall|i: int|
                    0 <= i < k ==> #[trigger] call_ensures(filter_out, (&&old(vec)@[i],), true)
                &&& k < old(vec)@.len() ==> call_ensures(filter_out, (&&old(vec)@[k],), false)
            },
        r == spec_iter(&*final(vec)),
{
    let ghost before = vec@;
    let ghost mut dropped: int = 0;
    while vec.len() > 0 && filter_out(&&vec[0])
        invariant
            forall|x: &&T| #[trigger] call_requires(filter_out, (x,)),
            0 <= dropped <= before.len(),
            vec@ == before.skip(dropped),
            forall|i: int| 0 <= i < dropped ==> #[trigger] call_ensures(filter_out, (&&before[i],), true),
        ensures
            0 <= dropped <= before.len(),
            vec@ == before.skip(dropped),
            forall|i: int| 0 <= i < dropped ==> #[trigger] call_ensures(filter_out, (&&before[i],), true),
            dropped < before.len() ==> call_ensures(filter_out, (&&before[dropped],), false),
        decreases vec@.len(),
    {
        vec.pop_front();
        proof {
            dropped = dropped + 1;
        }
    }
    vec.iter()
}

/// Whether a note check ends the walk along the timeline.
pub open spec fn stops_walk<U>(outcome: JudgeOnTimeline<U>) -> bool {
    outcome is Break || outcome is BreakWith
}

/// Where the walk's start pointer ends up: one past the last note found
/// behind, or where it was if none was.
pub open spec fn pointer_after_walk<U>(start: int, outcomes: Seq<JudgeOnTimeline<U>>) -> int
    decreases outcomes.len(),
{
    if outcomes.len() == 0 {
        start
    } else if outcomes.last() is Past {
        start + outcomes.len()
    } else {
        pointer_after_walk(start, outcomes.drop_last())
    }
}

/// Law: a walk never moves its start pointer back, nor past the notes it
/// looked at.
pub proof fn lemma_walk_pointer_moves_forward<U>(start: int, outcomes: Seq<JudgeOnTimeline<U>>)
    ensures
        start <= pointer_after_walk(start, outcomes) <= start + outcomes.len(),
    decreases outcomes.len(),
{
    if outcomes.len() > 0 && !(outcomes.last() is Past) {
        lemma_walk_pointer_moves_forward(start, outcomes.drop_last());
    }
}

/// What the walk returns: the result of the check that stopped it, if it stopped with one.
pub open spec fn walk_result<U>(outcomes: Seq<JudgeOnTimeline<U>>) -> Option<U> {
    if outcomes.len() > 0 && outcomes.last() is BreakWith {
        Some(outcomes.last()->BreakWith_0)
    } else {
        None
    }
}

/// Whether the `j`-th check of a walk could have stopped it: only the
/// last check may stop a walk.
pub open spec fn stops_only_at_end<U>(outcomes: Seq<JudgeOnTimeline<U>>, j: int) -> bool {
    stops_walk(outcomes[j]) ==> j == outcomes.len() - 1
}

/// Walks `vec` from `*pointer` on, handing each item to `f`, until a check
/// stops the walk or the items run out.  `*pointer` moves past every item
/// found behind, so the next walk starts after them.  The `j`-th outcome
/// is what `f` answered for item `*pointer + j`, which it changed to its
/// final value.
pub fn check_on_timeline<T, U, F>(vec: &mut [T], pointer: &mut usize, f: F) -> (r: Option<U>)
    where
        F: FnMut(&mut T) -> JudgeOnTimeline<U>,
    requires
        *old(pointer) <= old(vec)@.len(),
        forall|item: &mut T| call_requires(f, (item,)),
    ensures
        final(vec)@.len() == old(vec)@.len(),
        exists|outcomes: Seq<JudgeOnTimeline<U>>|
            {
                let start = *old(pointer) as int;
                &&& start + outcomes.len() <= old(vec)@.len()
                &&& start + outcomes.len() < old(vec)@.len() ==> outcomes.len() > 0 && stops_walk(
                    outcomes.last(),
                )
                &&& forall|i: int|
                    0 <= i < old(vec)@.len() && !(start <= i < start + outcomes.len())
                        ==> #[trigger] final(vec)@[i] == old(vec)@[i]
                &&& *final(pointer) == pointer_after_walk(start, outcomes)
                &&& r == #[trigger] walk_result(outcomes)
                &&& forall|j: int|
                    0 <= j < outcomes.len() ==> #[trigger] stops_only_at_end(outcomes, j) && exists|
                        a: &mut T,
                    |
                        *a == old(vec)@[start + j] && *final(a) == final(vec)@[start + j]
                            && call_ensures(f, (a,), outcomes[j])
            },
{
    let ghost start = *pointer as int;
    let ghost mut outcomes: Seq<JudgeOnTimeline<U>> = Seq::empty();
    let mut check = f;
    let mut i: usize = *pointer;
    let len = vec.len();
    let mut result: Option<U> = None;
    let mut stopped = false;
    while i < len && !stopped
        invariant
            check == f,
            len == vec@.len(),
            vec@.len() == old(vec)@.len(),
            start == *old(pointer) as int,
            start <= i <= len,
            i == start + outcomes.len(),
            forall|item: &mut T| call_requires(f, (item,)),
            !stopped ==> forall|j: int| 0 <= j < outcomes.len() ==> !stops_walk(#[trigger] outcomes[j]),
            stopped ==> outcomes.len() > 0 && stops_walk(outcomes.last()),
            forall|k: int|
                0 <= k < vec@.len() && !(start <= k < i) ==> #[trigger] vec@[k] == old(vec)@[k],
            *pointer == pointer_after_walk(start, outcomes),
            result == walk_result(outcomes),
            forall|j: int|
                0 <= j < outcomes.len() ==> #[trigger] stops_only_at_end(outcomes, j) && exists|
                    a: &mut T,
                |
                    *a == old(vec)@[start + j] && *final(a) == vec@[start + j] && call_ensures(
                        f,
                        (a,),
                        outcomes[j],
                    ),
        decreases len - i,
    {
        let ghost before = vec@;
        let outcome = check(&mut vec[i]);
        let ghost previous = outcomes;
        proof {
            outcomes = previous.push(outcome);
            assert(outcomes.drop_last() =~= previous);
            assert(outcomes.last() == outcome);
            assert(exists|a: &mut T|
                *a == old(vec)@[i as int] && *final(a) == vec@[i as int] && call_ensures(
                    f,
                    (a,),
                    outcome,
                ));
            assert(vec@ =~= before.update(i as int, vec@[i as int]));
            assert forall|j: int| 0 <= j < outcomes.len() implies #[trigger] stops_only_at_end(
                outcomes,
                j,
            ) && exists|a: &mut T|
                *a == old(vec)@[start + j] && *final(a) == vec@[start + j] && call_ensures(
                    f,
                    (a,),
                    outcomes[j],
                ) by {
                if j < previous.len() {
                    assert(stops_only_at_end(previous, j));
                    assert(outcomes[j] == previous[j]);
                    assert(!stops_walk(previous[j]));
                    assert(vec@[start + j] == before[start + j]);
                } else {
                    assert(outcomes[j] == outcome);
                }
            }
        }
        match outcome {
            JudgeOnTimeline::Past => *pointer = i + 1,
            JudgeOnTimeline::Break => stopped = true,
            JudgeOnTimeline::BreakWith(u) => {
                result = Some(u);
                stopped = true;
            },
            JudgeOnTimeline::Continue => {},
        }
        i += 1;
    }
    result
}

} // verus!
