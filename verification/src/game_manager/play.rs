//! A game in progress: the score as the judging sees it, the pointers that
//! keep each search short, and what a hit does.
//!
//! Times are order keys: a time is carried as a `u64` such that comparing
//! two keys compares the two times.  What needs the times themselves, how
//! far a note lies from a hit, and the precision percentage of a branch
//! condition, is worked out by the caller and handed in.
use vstd::prelude::*;

use crate::game_manager::{
    bad_check, branch_by_candidate, renda_hit, single_check, BadTiming, GameState, GaugeDelta,
    Judge, JudgeOnTimeline, JudgeOrPassed, NoteTiming, QuotaRendaState, RendaKind, RendaState,
    SingleNote, SingleNoteInfo, gauge_good_delta, good_delta_for, max_combo,
};
use crate::structs::just;
use crate::structs::typed;
use crate::structs::{BranchEventKind, BranchType, NoteColor, SingleNoteKind};

verus! {

/// A drumroll during a game: its kind, its hit count, and when it ends.
#[derive(Debug)]
pub struct GameRenda {
    pub kind: RendaKind,
    pub state: RendaState,
    pub end_time: u64,
}

#[derive(Debug)]
pub enum GameNoteContent {
    Single(SingleNote),
    Renda(GameRenda),
}

/// A note during a game; `branch` is `None` for notes common to all branches.
#[derive(Debug)]
pub struct GameNote {
    pub time: u64,
    pub content: GameNoteContent,
    pub branch: Option<BranchType>,
}

/// How a branch point chooses the branch; `P` is the number type of the
/// precision thresholds.
#[derive(Clone, Copy, Debug)]
pub enum BranchRule<P> {
    /// No condition: the branch stays undetermined.
    Pass,
    /// Thresholds on the precision percentage for expert and master.
    Precision(P, P),
    /// Thresholds on the drumroll hits for expert and master.
    Renda(i64, i64),
    /// Thresholds on the score for expert and master.
    Score(i64, i64),
}

/// A branch point: when it is judged, when it takes effect, how it chooses,
/// and what it chose.
#[derive(Clone, Copy, Debug)]
pub struct GameBranch<P> {
    pub judge_time: u64,
    pub switch_time: u64,
    pub condition: BranchRule<P>,
    pub determined_branch: Option<BranchType>,
}

/// A `#SECTION` or `#LEVELHOLD` of the score.
#[derive(Clone, Copy, Debug)]
pub struct GameBranchEvent {
    pub time: u64,
    pub kind: BranchEventKind,
}

/// Where each search along the score resumes.
#[derive(Clone, Copy, Debug)]
pub struct Pointers {
    /// First note the hit search may still judge.
    pub judge: usize,
    /// First note the bad-hit search may still judge.
    pub judge_bad: usize,
    /// Branch walk position of the hit search.
    pub judge_branch: usize,
    /// Branch walk position of the bad-hit search.
    pub judge_branch_bad: usize,
    /// First branch point not judged yet.
    pub next_branch: usize,
    /// First branch event not processed yet.
    pub branch_event: usize,
    /// Branch walk position of the branch events.
    pub branch_event_branch: usize,
}

/// What a hit leaves for the screen to show.
#[derive(Clone, Copy, Debug)]
pub enum HitEffect {
    /// A single note was hit with `judge`: it flies off, the judge is shown
    /// and the combo display is refreshed.
    Judged { kind: SingleNoteKind, judge: Judge },
    /// A drumroll was hit; a note of the given kind flies off if the hit counted.
    Renda(Option<SingleNoteKind>),
    /// A bad was given.
    Bad,
}

/// The outcome of a hit: the branch chosen by a branch point judged on the
/// way, and what the hit did.
#[derive(Clone, Copy, Debug)]
pub struct HitOutcome {
    pub branch_switch: Option<BranchType>,
    pub effect: Option<HitEffect>,
}

/// A note of the parsed score, before the game attaches its state.
#[derive(Clone, Debug)]
pub enum PlainNoteContent {
    Single(SingleNoteKind),
    Renda { kind: just::RendaKind, end_time: u64 },
}

#[derive(Clone, Debug)]
pub struct PlainNote {
    pub time: u64,
    pub content: PlainNoteContent,
    pub branch: Option<BranchType>,
}

/// A branch point of the parsed score.
#[derive(Clone, Copy, Debug)]
pub struct PlainBranch<P> {
    pub judge_time: u64,
    pub switch_time: u64,
    pub condition: BranchRule<P>,
}

pub struct GameManager<P> {
    pub notes: Vec<GameNote>,
    pub branches: Vec<GameBranch<P>>,
    pub branch_events: Vec<GameBranchEvent>,
    pub auto: bool,
    pub pointers: Pointers,
    /// The state when the last `#SECTION` was passed.
    pub game_state_section: GameState,
    pub game_state: GameState,
}

// ----- branches -------------------------------------------------------

/// Where a walk along `branches` from `p` stops for `time`: at the first
/// branch point that takes effect after `time` or was not determined.
pub open spec fn branch_walk_end<P>(branches: Seq<GameBranch<P>>, p: int, time: u64) -> int
    decreases branches.len() - p,
{
    if 0 <= p < branches.len() && branches[p].switch_time <= time
        && branches[p].determined_branch is Some {
        branch_walk_end(branches, p + 1, time)
    } else {
        p
    }
}

/// The branch played once a walk stopped at `p`: the one the last branch
/// point passed chose, or normal.
pub open spec fn branch_from<P>(branches: Seq<GameBranch<P>>, p: int) -> BranchType {
    if 0 < p <= branches.len() && branches[p - 1].determined_branch is Some {
        branches[p - 1].determined_branch.unwrap()
    } else {
        BranchType::Normal
    }
}

proof fn lemma_branch_walk_bounds<P>(branches: Seq<GameBranch<P>>, p: int, time: u64)
    requires
        0 <= p <= branches.len(),
    ensures
        p <= branch_walk_end(branches, p, time) <= branches.len(),
    decreases branches.len() - p,
{
    if p < branches.len() && branches[p].switch_time <= time
        && branches[p].determined_branch is Some {
        lemma_branch_walk_bounds(branches, p + 1, time);
    }
}

/// Law: a walk for a later time may resume where a walk for an earlier
/// time stopped; it ends where a walk from the first position would.
pub proof fn lemma_branch_walk_resumes<P>(
    branches: Seq<GameBranch<P>>,
    p: int,
    earlier: u64,
    later: u64,
)
    requires
        0 <= p <= branches.len(),
        earlier <= later,
    ensures
        branch_walk_end(branches, branch_walk_end(branches, p, earlier), later) == branch_walk_end(
            branches,
            p,
            later,
        ),
    decreases branches.len() - p,
{
    if p < branches.len() && branches[p].switch_time <= earlier
        && branches[p].determined_branch is Some {
        lemma_branch_walk_resumes(branches, p + 1, earlier, later);
    }
}

/// The branch played at `time`, walking `branches` from `*pointer` on and
/// leaving `*pointer` where the walk stopped.
pub fn branch_at<P>(branches: &Vec<GameBranch<P>>, pointer: &mut usize, time: u64) -> (r:
    BranchType)
    requires
        *old(pointer) <= branches.len(),
    ensures
        *final(pointer) == branch_walk_end(branches@, *old(pointer) as int, time),
        r == branch_from(branches@, *final(pointer) as int),
{
    let ghost start = *pointer as int;
    proof {
        lemma_branch_walk_bounds(branches@, start, time);
    }
    while *pointer < branches.len() && branches[*pointer].switch_time <= time
        && branches[*pointer].determined_branch.is_some()
        invariant
            start <= *pointer <= branches.len(),
            branch_walk_end(branches@, *pointer as int, time) == branch_walk_end(
                branches@,
                start,
                time,
            ),
        decreases branches.len() - *pointer,
    {
        *pointer = *pointer + 1;
    }
    if *pointer > 0 {
        match branches[*pointer - 1].determined_branch {
            Some(b) => b,
            None => BranchType::Normal,
        }
    } else {
        BranchType::Normal
    }
}

// ----- branch events --------------------------------------------------

/// `branches` with every branch point from `from` on set to `branch`.
pub open spec fn level_held<P>(branches: Seq<GameBranch<P>>, from: int, branch: BranchType) -> Seq<
    GameBranch<P>,
> {
    Seq::new(
        branches.len(),
        |j: int|
            if j >= from {
                GameBranch { determined_branch: Some(branch), ..branches[j] }
            } else {
                branches[j]
            },
    )
}

/// The branch events due at `now`, from `pointers.branch_event` on, processed
/// in order: a `#SECTION` saves the state the next branch condition is
/// measured from; a `#LEVELHOLD` on the branch being played at its time
/// fixes that branch for all the branch points not judged yet.  Gives the
/// branch points, the pointers and the saved state.
pub open spec fn events_from<P>(
    branches: Seq<GameBranch<P>>,
    events: Seq<GameBranchEvent>,
    pointers: Pointers,
    game: GameState,
    section: GameState,
    now: u64,
) -> (Seq<GameBranch<P>>, Pointers, GameState)
    decreases events.len() - pointers.branch_event,
{
    let i = pointers.branch_event as int;
    if i >= events.len() || i >= usize::MAX || now < events[i].time {
        (branches, pointers, section)
    } else {
        let next = Pointers { branch_event: (i + 1) as usize, ..pointers };
        match events[i].kind {
            BranchEventKind::Section => events_from(branches, events, next, game, game, now),
            BranchEventKind::LevelHold(branch) => {
                let p = branch_walk_end(branches, pointers.branch_event_branch as int, events[i].time);
                let walked = Pointers { branch_event_branch: p as usize, ..next };
                if branch == branch_from(branches, p) {
                    events_from(
                        level_held(branches, pointers.next_branch as int, branch),
                        events,
                        Pointers { next_branch: branches.len() as usize, ..walked },
                        game,
                        section,
                        now,
                    )
                } else {
                    events_from(branches, events, walked, game, section, now)
                }
            },
        }
    }
}

/// No pointer of `later` is before the same pointer of `earlier`.
pub open spec fn pointers_advanced(earlier: Pointers, later: Pointers) -> bool {
    &&& earlier.judge <= later.judge
    &&& earlier.judge_bad <= later.judge_bad
    &&& earlier.judge_branch <= later.judge_branch
    &&& earlier.judge_branch_bad <= later.judge_branch_bad
    &&& earlier.next_branch <= later.next_branch
    &&& earlier.branch_event <= later.branch_event
    &&& earlier.branch_event_branch <= later.branch_event_branch
}

/// The pointers of `pointers` that index `notes`, `branches` and `events`
/// are within them.
pub open spec fn pointers_within(
    pointers: Pointers,
    notes: nat,
    branches: nat,
    events: nat,
) -> bool {
    &&& pointers.judge <= notes
    &&& pointers.judge_bad <= notes
    &&& pointers.judge_branch <= branches
    &&& pointers.judge_branch_bad <= branches
    &&& pointers.next_branch <= branches
    &&& pointers.branch_event <= events
    &&& pointers.branch_event_branch <= branches
}

/// Sets every branch point from `from` on to `branch`.
fn hold_level<P: Copy>(branches: &mut Vec<GameBranch<P>>, from: usize, branch: BranchType)
    requires
        from <= old(branches)@.len(),
    ensures
        final(branches)@ == level_held(old(branches)@, from as int, branch),
{
    let mut j = from;
    while j < branches.len()
        invariant
            from <= j <= branches@.len(),
            branches@.len() == old(branches)@.len(),
            forall|k: int|
                0 <= k < branches@.len() ==> #[trigger] branches@[k] == if from <= k < j {
                    GameBranch { determined_branch: Some(branch), ..old(branches)@[k] }
                } else {
                    old(branches)@[k]
                },
        decreases branches@.len() - j,
    {
        let mut b = branches[j];
        b.determined_branch = Some(branch);
        branches.set(j, b);
        j = j + 1;
    }
    proof {
        assert(branches@ =~= level_held(old(branches)@, from as int, branch));
    }
}

impl<P: Copy> GameManager<P> {
    /// The pointers are within what they index.
    pub open spec fn wf(&self) -> bool {
        pointers_within(
            self.pointers,
            self.notes@.len(),
            self.branches@.len(),
            self.branch_events@.len(),
        )
    }

    /// Processes the branch events due at `now` (see [`events_from`]).
    fn process_branch_events(&mut self, now: u64)
        requires
            old(self).wf(),
        ensures
            final(self).wf(),
            (final(self).branches@, final(self).pointers, final(self).game_state_section)
                == events_from(
                old(self).branches@,
                old(self).branch_events@,
                old(self).pointers,
                old(self).game_state,
                old(self).game_state_section,
                now,
            ),
            final(self).notes@ == old(self).notes@,
            final(self).branch_events@ == old(self).branch_events@,
            final(self).game_state == old(self).game_state,
            final(self).auto == old(self).auto,
            final(self).game_state_section == old(self).game_state_section
                || final(self).game_state_section == old(self).game_state,
            pointers_advanced(old(self).pointers, final(self).pointers),
    {
        let ghost whole = events_from(
            self.branches@,
            self.branch_events@,
            self.pointers,
            self.game_state,
            self.game_state_section,
            now,
        );
        while self.pointers.branch_event < self.branch_events.len()
            && self.branch_events[self.pointers.branch_event].time <= now
            invariant
                self.wf(),
                self.notes@ == old(self).notes@,
                self.branch_events@ == old(self).branch_events@,
                self.game_state == old(self).game_state,
                self.auto == old(self).auto,
                self.branches@.len() == old(self).branches@.len(),
                self.game_state_section == old(self).game_state_section
                    || self.game_state_section == old(self).game_state,
                pointers_advanced(old(self).pointers, self.pointers),
                events_from(
                    self.branches@,
                    self.branch_events@,
                    self.pointers,
                    self.game_state,
                    self.game_state_section,
                    now,
                ) == whole,
            decreases self.branch_events@.len() - self.pointers.branch_event,
        {
            let i = self.pointers.branch_event;
            let event = self.branch_events[i];
            match event.kind {
                BranchEventKind::Section => {
                    self.game_state_section = self.game_state;
                },
                BranchEventKind::LevelHold(branch) => {
                    let mut p = self.pointers.branch_event_branch;
                    let played = branch_at(&self.branches, &mut p, event.time);
                    proof {
                        lemma_branch_walk_bounds(
                            self.branches@,
                            self.pointers.branch_event_branch as int,
                            event.time,
                        );
                    }
                    self.pointers.branch_event_branch = p;
                    if branch == played {
                        hold_level(&mut self.branches, self.pointers.next_branch, branch);
                        self.pointers.next_branch = self.branches.len();
                    }
                },
            }
            self.pointers.branch_event = i + 1;
        }
    }
}

// ----- branch points --------------------------------------------------

/// The branch a result `v` leads to: master from `m` on, expert from `e`
/// on, normal below.
pub open spec fn by_candidate(v: i64, e: i64, m: i64) -> BranchType {
    if v >= m {
        BranchType::Master
    } else if v >= e {
        BranchType::Expert
    } else {
        BranchType::Normal
    }
}

/// Every count of `game` is in `0..=limit`.
pub open spec fn counts_within(game: GameState, limit: i64) -> bool {
    &&& 0 <= game.score <= limit
    &&& 0 <= game.good_count <= limit
    &&& 0 <= game.ok_count <= limit
    &&& 0 <= game.bad_count <= limit
    &&& 0 <= game.renda_count <= limit
    &&& 0 <= game.combo <= limit
}

/// The bound the counts are kept under, so that the sums a branch
/// condition takes of them cannot overflow.
pub const COUNT_LIMIT: i64 = 0x1000_0000_0000_0000;

/// Twice the goods plus the oks since `section`, and twice all the judges
/// since then: the precision percentage is their ratio.
pub open spec fn precision_args(game: GameState, section: GameState) -> (i64, i64) {
    let good = game.good_count - section.good_count;
    let ok = game.ok_count - section.ok_count;
    let bad = game.bad_count - section.bad_count;
    ((2 * good + ok) as i64, (2 * (good + ok + bad)) as i64)
}

/// The branch `rule` chooses from what happened since `section`;
/// `precision_choice` is what the precision thresholds gave.
pub open spec fn rule_branch<P>(
    rule: BranchRule<P>,
    game: GameState,
    section: GameState,
    precision_choice: BranchType,
) -> Option<BranchType> {
    match rule {
        BranchRule::Pass => None,
        BranchRule::Precision(_, _) => Some(precision_choice),
        BranchRule::Renda(e, m) => Some(
            by_candidate((game.renda_count - section.renda_count) as i64, e, m),
        ),
        BranchRule::Score(e, m) => Some(by_candidate((game.score - section.score) as i64, e, m)),
    }
}

/// Whether the next branch point is judged at `now`.
pub open spec fn branch_due<P>(branches: Seq<GameBranch<P>>, pointers: Pointers, now: u64) -> bool {
    pointers.next_branch < branches.len() && branches[pointers.next_branch as int].judge_time <= now
}

/// Judging the next branch point if it is due at `now`: it records the
/// branch its rule chooses and the next one becomes the next.  Gives the
/// branch points, the pointers and the branch chosen.
pub open spec fn branch_phase<P>(
    branches: Seq<GameBranch<P>>,
    pointers: Pointers,
    game: GameState,
    section: GameState,
    now: u64,
    precision_choice: BranchType,
) -> (Seq<GameBranch<P>>, Pointers, Option<BranchType>) {
    let i = pointers.next_branch as int;
    if branch_due(branches, pointers, now) {
        let chosen = rule_branch(branches[i].condition, game, section, precision_choice);
        (
            branches.update(i, GameBranch { determined_branch: chosen, ..branches[i] }),
            Pointers { next_branch: (i + 1) as usize, ..pointers },
            chosen,
        )
    } else {
        (branches, pointers, None)
    }
}

/// Whether `choice` may be what `precision` answers for the branch point
/// judged at `now`, if it is a precision one.
pub open spec fn precision_answered<P, FP: Fn(i64, i64, P, P) -> BranchType>(
    precision: FP,
    branches: Seq<GameBranch<P>>,
    pointers: Pointers,
    game: GameState,
    section: GameState,
    now: u64,
    choice: BranchType,
) -> bool {
    branch_due(branches, pointers, now) ==> match branches[pointers.next_branch as int].condition {
        BranchRule::Precision(e, m) => call_ensures(
            precision,
            (precision_args(game, section).0, precision_args(game, section).1, e, m),
            choice,
        ),
        _ => true,
    }
}

impl<P: Copy> GameManager<P> {
    /// Judges the next branch point if it is due at `now` (see
    /// [`branch_phase`]).  A precision rule asks `precision` for the branch,
    /// handing it twice the goods plus the oks, twice all the judges, and
    /// the expert and master thresholds.
    fn decide_branch<FP>(&mut self, now: u64, precision: &FP) -> (r: Option<BranchType>)
        where
            FP: Fn(i64, i64, P, P) -> BranchType,
        requires
            old(self).wf(),
            counts_within(old(self).game_state, COUNT_LIMIT),
            counts_within(old(self).game_state_section, COUNT_LIMIT),
            forall|a: i64, b: i64, e: P, m: P| call_requires(*precision, (a, b, e, m)),
        ensures
            final(self).wf(),
            exists|choice: BranchType|
                {
                    &&& precision_answered(
                        *precision,
                        old(self).branches@,
                        old(self).pointers,
                        old(self).game_state,
                        old(self).game_state_section,
                        now,
                        choice,
                    )
                    &&& (final(self).branches@, final(self).pointers, r) == branch_phase(
                        old(self).branches@,
                        old(self).pointers,
                        old(self).game_state,
                        old(self).game_state_section,
                        now,
                        choice,
                    )
                },
            final(self).notes@ == old(self).notes@,
            final(self).branch_events@ == old(self).branch_events@,
            final(self).game_state == old(self).game_state,
            final(self).game_state_section == old(self).game_state_section,
            final(self).auto == old(self).auto,
            pointers_advanced(old(self).pointers, final(self).pointers),
    {
        let i = self.pointers.next_branch;
        if i < self.branches.len() && self.branches[i].judge_time <= now {
            let game = self.game_state;
            let section = self.game_state_section;
            let mut branch = self.branches[i];
            let mut choice = BranchType::Normal;
            let chosen = match branch.condition {
                BranchRule::Pass => None,
                BranchRule::Precision(e, m) => {
                    let good = game.good_count - section.good_count;
                    let ok = game.ok_count - section.ok_count;
                    let bad = game.bad_count - section.bad_count;
                    choice = precision(2 * good + ok, 2 * (good + ok + bad), e, m);
                    Some(choice)
                },
                BranchRule::Renda(e, m) => Some(
                    branch_by_candidate(game.renda_count - section.renda_count, e, m),
                ),
                BranchRule::Score(e, m) => Some(
                    branch_by_candidate(game.score - section.score, e, m),
                ),
            };
            assert(chosen == rule_branch(branch.condition, game, section, choice));
            branch.determined_branch = chosen;
            self.branches.set(i, branch);
            self.pointers.next_branch = i + 1;
            assert(precision_answered(
                *precision,
                old(self).branches@,
                old(self).pointers,
                old(self).game_state,
                old(self).game_state_section,
                now,
                choice,
            ));
            assert((self.branches@, self.pointers, chosen) == branch_phase(
                old(self).branches@,
                old(self).pointers,
                old(self).game_state,
                old(self).game_state_section,
                now,
                choice,
            ));
            chosen
        } else {
            assert(precision_answered(
                *precision,
                old(self).branches@,
                old(self).pointers,
                old(self).game_state,
                old(self).game_state_section,
                now,
                BranchType::Normal,
            ));
            assert((self.branches@, self.pointers, None::<BranchType>) == branch_phase(
                old(self).branches@,
                old(self).pointers,
                old(self).game_state,
                old(self).game_state_section,
                now,
                BranchType::Normal,
            ));
            None
        }
    }
}

// ----- notes ----------------------------------------------------------

/// One check of the hit search on `note`, a hit of `color` at `now` whose
/// distance to a single note is `timing`.  A drumroll running at `now` takes
/// the hit if it is on the branch played; one that ended is behind; one
/// ahead stops the search if it is on the branch played.
pub open spec fn note_check(
    note: GameNote,
    game: GameState,
    color: Option<NoteColor>,
    branch_matches: bool,
    now: u64,
    timing: NoteTiming,
) -> (GameNote, GameState, JudgeOnTimeline<HitEffect>) {
    match note.content {
        GameNoteContent::Single(single) => {
            let (g, judged, outcome) = single_check(game, single, color, branch_matches, timing);
            (
                GameNote { content: GameNoteContent::Single(judged), ..note },
                g,
                match outcome {
                    JudgeOnTimeline::Past => JudgeOnTimeline::Past,
                    JudgeOnTimeline::Continue => JudgeOnTimeline::Continue,
                    JudgeOnTimeline::Break => JudgeOnTimeline::Break,
                    JudgeOnTimeline::BreakWith(judge) => JudgeOnTimeline::BreakWith(
                        HitEffect::Judged { kind: single.kind, judge },
                    ),
                },
            )
        },
        GameNoteContent::Renda(renda) => if note.time <= now && now < renda.end_time {
            if branch_matches {
                let (g, kind, state, flying) = renda_hit(game, renda.kind, renda.state, color);
                (
                    GameNote {
                        content: GameNoteContent::Renda(
                            GameRenda { kind, state, end_time: renda.end_time },
                        ),
                        ..note
                    },
                    g,
                    JudgeOnTimeline::BreakWith(HitEffect::Renda(flying)),
                )
            } else {
                (note, game, JudgeOnTimeline::Continue)
            }
        } else if renda.end_time <= now {
            (note, game, JudgeOnTimeline::Past)
        } else if branch_matches {
            (note, game, JudgeOnTimeline::Break)
        } else {
            (note, game, JudgeOnTimeline::Continue)
        },
    }
}

/// One check of the bad-hit search on `note`; drumrolls are passed over.
pub open spec fn note_check_bad(
    note: GameNote,
    game: GameState,
    color: Option<NoteColor>,
    branch_matches: bool,
    timing: BadTiming,
) -> (GameNote, GameState, JudgeOnTimeline<HitEffect>) {
    match note.content {
        GameNoteContent::Single(single) => {
            let (g, judged, outcome) = bad_check(game, single, color, branch_matches, timing);
            (
                GameNote { content: GameNoteContent::Single(judged), ..note },
                g,
                match outcome {
                    JudgeOnTimeline::Past => JudgeOnTimeline::Past,
                    JudgeOnTimeline::Continue => JudgeOnTimeline::Continue,
                    JudgeOnTimeline::Break => JudgeOnTimeline::Break,
                    JudgeOnTimeline::BreakWith(_) => JudgeOnTimeline::BreakWith(HitEffect::Bad),
                },
            )
        },
        GameNoteContent::Renda(_) => (note, game, JudgeOnTimeline::Past),
    }
}

/// A check of the hit search, or of the bad-hit search where `bad`.
pub open spec fn walk_check(
    note: GameNote,
    game: GameState,
    color: Option<NoteColor>,
    branch_matches: bool,
    now: u64,
    timing: NoteTiming,
    bad_timing: BadTiming,
    bad: bool,
) -> (GameNote, GameState, JudgeOnTimeline<HitEffect>) {
    if bad {
        note_check_bad(note, game, color, branch_matches, bad_timing)
    } else {
        note_check(note, game, color, branch_matches, now, timing)
    }
}

/// Whether a note of `branch` is played when `played` is: notes common to
/// all branches always are.
pub open spec fn on_branch(branch: Option<BranchType>, played: BranchType) -> bool {
    match branch {
        None => true,
        Some(b) => b == played,
    }
}

/// The search along `notes` from `i` on, with the branch walk at `p`: each
/// note is checked on the branch played at its time, until a check stops
/// the search.  The search pointer moves past every note found behind, and
/// the branch walk pointer with it.  Gives the notes, the state, the two
/// pointers and what the check that stopped the search did.
pub open spec fn judge_walk<P>(
    notes: Seq<GameNote>,
    branches: Seq<GameBranch<P>>,
    timings: Seq<NoteTiming>,
    bad_timings: Seq<BadTiming>,
    color: Option<NoteColor>,
    now: u64,
    bad: bool,
    i: int,
    game: GameState,
    p: int,
    pointer: int,
    branch_pointer: int,
) -> (Seq<GameNote>, GameState, int, int, Option<HitEffect>)
    decreases notes.len() - i,
{
    if i < 0 || i >= notes.len() {
        (notes, game, pointer, branch_pointer, None)
    } else {
        let walked = branch_walk_end(branches, p, notes[i].time);
        let matches = on_branch(notes[i].branch, branch_from(branches, walked));
        let (note, g, outcome) = walk_check(
            notes[i],
            game,
            color,
            matches,
            now,
            timings[i],
            bad_timings[i],
            bad,
        );
        let updated = notes.update(i, note);
        match outcome {
            JudgeOnTimeline::Past => judge_walk(
                updated,
                branches,
                timings,
                bad_timings,
                color,
                now,
                bad,
                i + 1,
                g,
                walked,
                i + 1,
                walked,
            ),
            JudgeOnTimeline::Continue => judge_walk(
                updated,
                branches,
                timings,
                bad_timings,
                color,
                now,
                bad,
                i + 1,
                g,
                walked,
                pointer,
                branch_pointer,
            ),
            JudgeOnTimeline::Break => (updated, g, pointer, branch_pointer, None),
            JudgeOnTimeline::BreakWith(effect) => (updated, g, pointer, branch_pointer, Some(effect)),
        }
    }
}

/// What the notes do with a hit of `color` at `now`: the hit search from
/// its pointer, then, if it found nothing to hit, the bad-hit search from
/// its own.  Gives the notes, the pointers, the state and the effect.
pub open spec fn judge_phase<P>(
    notes: Seq<GameNote>,
    branches: Seq<GameBranch<P>>,
    pointers: Pointers,
    game: GameState,
    color: Option<NoteColor>,
    now: u64,
    timings: Seq<NoteTiming>,
    bad_timings: Seq<BadTiming>,
) -> (Seq<GameNote>, Pointers, GameState, Option<HitEffect>) {
    let (notes1, game1, judge, judge_branch, effect) = judge_walk(
        notes,
        branches,
        timings,
        bad_timings,
        color,
        now,
        false,
        pointers.judge as int,
        game,
        pointers.judge_branch as int,
        pointers.judge as int,
        pointers.judge_branch as int,
    );
    let pointers1 = Pointers {
        judge: judge as usize,
        judge_branch: judge_branch as usize,
        ..pointers
    };
    if effect is Some {
        (notes1, pointers1, game1, effect)
    } else {
        let (notes2, game2, judge_bad, judge_branch_bad, effect2) = judge_walk(
            notes1,
            branches,
            timings,
            bad_timings,
            color,
            now,
            true,
            pointers.judge_bad as int,
            game1,
            pointers.judge_branch_bad as int,
            pointers.judge_bad as int,
            pointers.judge_branch_bad as int,
        );
        (
            notes2,
            Pointers {
                judge_bad: judge_bad as usize,
                judge_branch_bad: judge_branch_bad as usize,
                ..pointers1
            },
            game2,
            effect2,
        )
    }
}

/// No drumroll of `notes` has counted as many hits as a `u64` holds.
pub open spec fn renda_counts_below_max(notes: Seq<GameNote>) -> bool {
    forall|k: int|
        0 <= k < notes.len() ==> (#[trigger] notes[k].content matches GameNoteContent::Renda(r)
            ==> r.state.count < u64::MAX)
}

/// The counts of `game` leave room for `n` more notes to be judged.
pub open spec fn counts_room(game: GameState, n: int) -> bool {
    &&& 0 <= game.good_count
    &&& 0 <= game.ok_count
    &&& 0 <= game.bad_count
    &&& 0 <= game.combo
    &&& 0 <= game.renda_count
    &&& game.good_count + n < i64::MAX
    &&& game.ok_count + n < i64::MAX
    &&& game.bad_count + n < i64::MAX
    &&& game.combo + n < i64::MAX
    &&& game.renda_count + n < i64::MAX
}

/// `later` is `earlier` with each count up by at most `n`.
pub open spec fn counts_grew_by_at_most(earlier: GameState, later: GameState, n: int) -> bool {
    &&& earlier.good_count <= later.good_count <= earlier.good_count + n
    &&& earlier.ok_count <= later.ok_count <= earlier.ok_count + n
    &&& earlier.bad_count <= later.bad_count <= earlier.bad_count + n
    &&& 0 <= later.combo <= earlier.combo + n
    &&& earlier.renda_count <= later.renda_count <= earlier.renda_count + n
    &&& later.score == earlier.score
}

/// One check of a search (see [`walk_check`]).
fn check_game_note(
    game: &mut GameState,
    note: &mut GameNote,
    color: Option<NoteColor>,
    branch_matches: bool,
    now: u64,
    timing: NoteTiming,
    bad_timing: BadTiming,
    bad: bool,
) -> (r: JudgeOnTimeline<HitEffect>)
    requires
        counts_room(*old(game), 1),
        old(note).content matches GameNoteContent::Renda(r) ==> r.state.count < u64::MAX,
    ensures
        (*final(note), *final(game), r) == walk_check(
            *old(note),
            *old(game),
            color,
            branch_matches,
            now,
            timing,
            bad_timing,
            bad,
        ),
        counts_grew_by_at_most(*old(game), *final(game), 1),
{
    let time = note.time;
    match &mut note.content {
        GameNoteContent::Single(single) => {
            let kind = single.kind;
            if bad {
                match game.check_single_note_bad(single, &color, branch_matches, bad_timing) {
                    JudgeOnTimeline::Past => JudgeOnTimeline::Past,
                    JudgeOnTimeline::Continue => JudgeOnTimeline::Continue,
                    JudgeOnTimeline::Break => JudgeOnTimeline::Break,
                    JudgeOnTimeline::BreakWith(_) => JudgeOnTimeline::BreakWith(HitEffect::Bad),
                }
            } else {
                match game.check_single_note(single, &color, branch_matches, timing) {
                    JudgeOnTimeline::Past => JudgeOnTimeline::Past,
                    JudgeOnTimeline::Continue => JudgeOnTimeline::Continue,
                    JudgeOnTimeline::Break => JudgeOnTimeline::Break,
                    JudgeOnTimeline::BreakWith(judge) => JudgeOnTimeline::BreakWith(
                        HitEffect::Judged { kind, judge },
                    ),
                }
            }
        },
        GameNoteContent::Renda(renda) => {
            if bad {
                JudgeOnTimeline::Past
            } else if time <= now && now < renda.end_time {
                if branch_matches {
                    let flying = game.hit_renda(&mut renda.kind, &mut renda.state, color);
                    JudgeOnTimeline::BreakWith(HitEffect::Renda(flying))
                } else {
                    JudgeOnTimeline::Continue
                }
            } else if renda.end_time <= now {
                JudgeOnTimeline::Past
            } else if branch_matches {
                JudgeOnTimeline::Break
            } else {
                JudgeOnTimeline::Continue
            }
        },
    }
}

/// The search of [`judge_walk`], from `*pointer` with the branch walk at
/// `*branch_pointer`; both pointers are left where the search leaves them.
pub fn check_note_wrapper<P: Copy>(
    notes: &mut Vec<GameNote>,
    branches: &Vec<GameBranch<P>>,
    timings: &Vec<NoteTiming>,
    bad_timings: &Vec<BadTiming>,
    color: Option<NoteColor>,
    now: u64,
    bad: bool,
    game: &mut GameState,
    pointer: &mut usize,
    branch_pointer: &mut usize,
) -> (r: Option<HitEffect>)
    requires
        *old(pointer) <= old(notes)@.len(),
        *old(branch_pointer) <= branches@.len(),
        timings@.len() == old(notes)@.len(),
        bad_timings@.len() == old(notes)@.len(),
        counts_room(*old(game), old(notes)@.len() as int),
        renda_counts_below_max(old(notes)@),
    ensures
        (final(notes)@, *final(game), *final(pointer) as int, *final(branch_pointer) as int, r)
            == judge_walk(
            old(notes)@,
            branches@,
            timings@,
            bad_timings@,
            color,
            now,
            bad,
            *old(pointer) as int,
            *old(game),
            *old(branch_pointer) as int,
            *old(pointer) as int,
            *old(branch_pointer) as int,
        ),
        final(notes)@.len() == old(notes)@.len(),
        *final(pointer) <= final(notes)@.len(),
        *final(branch_pointer) <= branches@.len(),
        counts_grew_by_at_most(*old(game), *final(game), old(notes)@.len() as int),
        r is None ==> renda_counts_below_max(final(notes)@),
        *old(pointer) <= *final(pointer),
        *old(branch_pointer) <= *final(branch_pointer),
{
    let ghost whole = judge_walk(
        notes@,
        branches@,
        timings@,
        bad_timings@,
        color,
        now,
        bad,
        *pointer as int,
        *game,
        *branch_pointer as int,
        *pointer as int,
        *branch_pointer as int,
    );
    let ghost start = *pointer as int;
    let mut i = *pointer;
    let mut p = *branch_pointer;
    while i < notes.len()
        invariant
            whole == judge_walk(
                old(notes)@,
                branches@,
                timings@,
                bad_timings@,
                color,
                now,
                bad,
                *old(pointer) as int,
                *old(game),
                *old(branch_pointer) as int,
                *old(pointer) as int,
                *old(branch_pointer) as int,
            ),
            start == *old(pointer) as int,
            start <= i <= notes@.len(),
            *old(pointer) <= *pointer,
            *old(branch_pointer) <= p,
            *old(branch_pointer) <= *branch_pointer,
            notes@.len() == old(notes)@.len(),
            timings@.len() == notes@.len(),
            bad_timings@.len() == notes@.len(),
            p <= branches@.len(),
            *pointer <= i,
            *branch_pointer <= branches@.len(),
            renda_counts_below_max(notes@),
            counts_room(*old(game), old(notes)@.len() as int),
            counts_grew_by_at_most(*old(game), *game, i - start),
            judge_walk(
                notes@,
                branches@,
                timings@,
                bad_timings@,
                color,
                now,
                bad,
                i as int,
                *game,
                p as int,
                *pointer as int,
                *branch_pointer as int,
            ) == whole,
        decreases notes@.len() - i,
    {
        let ghost before = notes@;
        let ghost game_before = *game;
        let ghost p_before = p;
        let time = notes[i].time;
        proof {
            lemma_branch_walk_bounds(branches@, p as int, time);
        }
        let played = branch_at(branches, &mut p, time);
        proof {
            lemma_branch_walk_bounds(branches@, p_before as int, time);
        }
        let matches = match notes[i].branch {
            None => true,
            Some(b) => b == played,
        };
        let timing = timings[i];
        let bad_timing = bad_timings[i];
        assert(counts_room(*game, 1));
        let outcome = check_game_note(
            game,
            &mut notes[i],
            color,
            matches,
            now,
            timing,
            bad_timing,
            bad,
        );
        proof {
            assert(notes@ =~= before.update(i as int, notes@[i as int]));
            if !(outcome is BreakWith) {
                assert forall|k: int| 0 <= k < notes@.len() implies (
                #[trigger] notes@[k].content matches GameNoteContent::Renda(r) ==> r.state.count
                    < u64::MAX) by {
                    if k != i {
                        assert(notes@[k] == before[k]);
                    }
                }
            }
        }
        match outcome {
            JudgeOnTimeline::Past => {
                *pointer = i + 1;
                *branch_pointer = p;
            },
            JudgeOnTimeline::Continue => {},
            JudgeOnTimeline::Break => {
                return None;
            },
            JudgeOnTimeline::BreakWith(effect) => {
                return Some(effect);
            },
        }
        i = i + 1;
    }
    None
}

// ----- the hit --------------------------------------------------------

impl<P: Copy> GameManager<P> {
    /// The counts are far enough from overflowing for another hit, and no
    /// drumroll count is at its maximum.
    pub open spec fn limits_hold(&self) -> bool {
        &&& counts_within(self.game_state, COUNT_LIMIT)
        &&& counts_within(self.game_state_section, COUNT_LIMIT)
        &&& self.notes@.len() <= COUNT_LIMIT
        &&& renda_counts_below_max(self.notes@)
    }

    /// See [`Self::limits_hold`].
    pub fn check_limits(&self) -> (r: bool)
        ensures
            r == self.limits_hold(),
    {
        let within = |g: &GameState| -> (r: bool)
            ensures
                r == counts_within(*g, COUNT_LIMIT),
            {
                0 <= g.score && g.score <= COUNT_LIMIT && 0 <= g.good_count && g.good_count
                    <= COUNT_LIMIT && 0 <= g.ok_count && g.ok_count <= COUNT_LIMIT && 0
                    <= g.bad_count && g.bad_count <= COUNT_LIMIT && 0 <= g.renda_count
                    && g.renda_count <= COUNT_LIMIT && 0 <= g.combo && g.combo <= COUNT_LIMIT
            };
        if !within(&self.game_state) || !within(&self.game_state_section) || self.notes.len() as u64
            > COUNT_LIMIT as u64 {
            return false;
        }
        let mut k: usize = 0;
        while k < self.notes.len()
            invariant
                k <= self.notes@.len(),
                forall|j: int|
                    0 <= j < k ==> (#[trigger] self.notes@[j].content matches GameNoteContent::Renda(
                        r,
                    ) ==> r.state.count < u64::MAX),
            decreases self.notes@.len() - k,
        {
            match &self.notes[k].content {
                GameNoteContent::Renda(r) => {
                    if r.state.count == u64::MAX {
                        return false;
                    }
                },
                _ => {},
            }
            k = k + 1;
        }
        true
    }
}

/// What a hit of `color` at `now` does to `game`: the branch events due
/// are processed, the next branch point is judged if due
/// (`precision_choice` being what the precision thresholds gave), and the
/// notes take the hit.  Gives the notes, the branch points, the pointers,
/// the saved state, the state and the outcome.
pub open spec fn hit_spec<P>(
    game: &GameManager<P>,
    color: Option<NoteColor>,
    now: u64,
    timings: Seq<NoteTiming>,
    bad_timings: Seq<BadTiming>,
    precision_choice: BranchType,
) -> (Seq<GameNote>, Seq<GameBranch<P>>, Pointers, GameState, GameState, HitOutcome) {
    let (branches1, pointers1, section) = events_from(
        game.branches@,
        game.branch_events@,
        game.pointers,
        game.game_state,
        game.game_state_section,
        now,
    );
    let (branches2, pointers2, switched) = branch_phase(
        branches1,
        pointers1,
        game.game_state,
        section,
        now,
        precision_choice,
    );
    let (notes, pointers3, state, effect) = judge_phase(
        game.notes@,
        branches2,
        pointers2,
        game.game_state,
        color,
        now,
        timings,
        bad_timings,
    );
    (notes, branches2, pointers3, section, state, HitOutcome { branch_switch: switched, effect })
}

/// Whether `choice` may be what `precision` answers for the branch point
/// that a hit at `now` judges.
pub open spec fn hit_precision_answered<P, FP: Fn(i64, i64, P, P) -> BranchType>(
    game: &GameManager<P>,
    precision: FP,
    now: u64,
    choice: BranchType,
) -> bool {
    let (branches1, pointers1, section) = events_from(
        game.branches@,
        game.branch_events@,
        game.pointers,
        game.game_state,
        game.game_state_section,
        now,
    );
    precision_answered(precision, branches1, pointers1, game.game_state, section, now, choice)
}

impl<P: Copy> GameManager<P> {
    /// A hit of `color` (`None` for a hit without a drum) at `now`.
    /// `timings[i]` and `bad_timings[i]` say how far note `i` lies from the
    /// hit; `precision` chooses the branch of a precision branch point from
    /// twice the goods plus the oks, twice all the judges, and the expert
    /// and master thresholds.  See [`hit_spec`].
    ///
    /// A hit keeps the judge counts and drumroll hits equal to those
    /// recorded on the notes, the gauge within `0..=GAUGE_MAX`, no count
    /// negative and the combo at most the goods and oks, as a new game
    /// starts them; and it never judges again a note already hit.  Every
    /// single note classified past that the hit search moves past ends up
    /// judged, unless it is written for one branch only (and so may not be
    /// on the branch played).
    pub fn hit<FP>(
        &mut self,
        color: Option<NoteColor>,
        now: u64,
        timings: &Vec<NoteTiming>,
        bad_timings: &Vec<BadTiming>,
        precision: FP,
    ) -> (r: HitOutcome)
        where
            FP: Fn(i64, i64, P, P) -> BranchType,
        requires
            old(self).wf(),
            old(self).limits_hold(),
            timings@.len() == old(self).notes@.len(),
            bad_timings@.len() == old(self).notes@.len(),
            forall|a: i64, b: i64, e: P, m: P| call_requires(precision, (a, b, e, m)),
        ensures
            final(self).wf(),
            final(self).branch_events@ == old(self).branch_events@,
            final(self).auto == old(self).auto,
            counts_grew_by_at_most(
                old(self).game_state,
                final(self).game_state,
                2 * old(self).notes@.len() as int,
            ),
            pointers_advanced(old(self).pointers, final(self).pointers),
            counts_match(old(self).game_state, old(self).notes@) ==> counts_match(
                final(self).game_state,
                final(self).notes@,
            ),
            state_in_range(old(self).game_state) ==> state_in_range(final(self).game_state),
            final(self).notes@.len() == old(self).notes@.len(),
            forall|k: int|
                0 <= k < old(self).notes@.len() && #[trigger] was_hit(old(self).notes@[k])
                    ==> final(self).notes@[k] == old(self).notes@[k],
            forall|k: int|
                old(self).pointers.judge <= k < final(self).pointers.judge && timings@[k] is Past
                    && old(self).notes@[k].content is Single ==> judged_single(
                    #[trigger] final(self).notes@[k],
                ) || old(self).notes@[k].branch is Some,
            exists|choice: BranchType|
                {
                    &&& hit_precision_answered(&*old(self), precision, now, choice)
                    &&& (
                        final(self).notes@,
                        final(self).branches@,
                        final(self).pointers,
                        final(self).game_state_section,
                        final(self).game_state,
                        r,
                    ) == hit_spec(&*old(self), color, now, timings@, bad_timings@, choice)
                },
    {
        self.process_branch_events(now);
        let ghost after_events = (self.branches@, self.pointers, self.game_state_section);
        let switched = self.decide_branch(now, &precision);
        let ghost choice = choose|choice: BranchType|
            {
                &&& precision_answered(
                    precision,
                    after_events.0,
                    after_events.1,
                    old(self).game_state,
                    after_events.2,
                    now,
                    choice,
                )
                &&& (self.branches@, self.pointers, switched) == branch_phase(
                    after_events.0,
                    after_events.1,
                    old(self).game_state,
                    after_events.2,
                    now,
                    choice,
                )
            };
        let ghost before_walks = (self.notes@, self.branches@, self.pointers);
        let mut game = self.game_state;
        let mut judge = self.pointers.judge;
        let mut judge_branch = self.pointers.judge_branch;
        let mut effect = check_note_wrapper(
            &mut self.notes,
            &self.branches,
            timings,
            bad_timings,
            color,
            now,
            false,
            &mut game,
            &mut judge,
            &mut judge_branch,
        );
        self.pointers.judge = judge;
        self.pointers.judge_branch = judge_branch;
        if effect.is_none() {
            let mut judge_bad = self.pointers.judge_bad;
            let mut judge_branch_bad = self.pointers.judge_branch_bad;
            effect = check_note_wrapper(
                &mut self.notes,
                &self.branches,
                timings,
                bad_timings,
                color,
                now,
                true,
                &mut game,
                &mut judge_bad,
                &mut judge_branch_bad,
            );
            self.pointers.judge_bad = judge_bad;
            self.pointers.judge_branch_bad = judge_branch_bad;
        }
        self.game_state = game;
        let r = HitOutcome { branch_switch: switched, effect };
        proof {
            let (notes0, branches2, pointers2) = before_walks;
            let first = judge_walk(
                notes0,
                branches2,
                timings@,
                bad_timings@,
                color,
                now,
                false,
                pointers2.judge as int,
                old(self).game_state,
                pointers2.judge_branch as int,
                pointers2.judge as int,
                pointers2.judge_branch as int,
            );
            lemma_walk_keeps_counts(
                notes0,
                branches2,
                timings@,
                bad_timings@,
                color,
                now,
                false,
                pointers2.judge as int,
                old(self).game_state,
                pointers2.judge_branch as int,
                pointers2.judge as int,
                pointers2.judge_branch as int,
            );
            lemma_walk_keeps_counts(
                first.0,
                branches2,
                timings@,
                bad_timings@,
                color,
                now,
                true,
                pointers2.judge_bad as int,
                first.1,
                pointers2.judge_branch_bad as int,
                pointers2.judge_bad as int,
                pointers2.judge_branch_bad as int,
            );
        }
        assert(hit_precision_answered(&*old(self), precision, now, choice));
        assert((
            self.notes@,
            self.branches@,
            self.pointers,
            self.game_state_section,
            self.game_state,
            r,
        ) == hit_spec(&*old(self), color, now, timings@, bad_timings@, choice));
        proof {
            assert forall|k: int|
                0 <= k < old(self).notes@.len() && #[trigger] was_hit(
                    old(self).notes@[k],
                ) implies self.notes@[k] == old(self).notes@[k] by {
                lemma_hit_keeps_hit_notes(
                    &*old(self),
                    color,
                    now,
                    timings@,
                    bad_timings@,
                    choice,
                    k,
                );
            }
            lemma_events_keep_judge_pointers(
                old(self).branches@,
                old(self).branch_events@,
                old(self).pointers,
                old(self).game_state,
                old(self).game_state_section,
                now,
            );
            let (notes0, branches2, pointers2) = before_walks;
            assert(pointers2.judge == old(self).pointers.judge);
            lemma_walk_judges_left_behind(
                notes0,
                branches2,
                timings@,
                bad_timings@,
                color,
                now,
                pointers2.judge as int,
                old(self).game_state,
                pointers2.judge_branch as int,
                pointers2.judge as int,
                pointers2.judge_branch as int,
            );
            let first = judge_walk(
                notes0,
                branches2,
                timings@,
                bad_timings@,
                color,
                now,
                false,
                pointers2.judge as int,
                old(self).game_state,
                pointers2.judge_branch as int,
                pointers2.judge as int,
                pointers2.judge_branch as int,
            );
            assert forall|k: int|
                old(self).pointers.judge <= k < self.pointers.judge && timings@[k] is Past
                    && old(self).notes@[k].content is Single implies judged_single(
                    #[trigger] self.notes@[k],
                ) || old(self).notes@[k].branch is Some by {
                if judged_single(first.0[k]) && first.4 is None {
                    lemma_walk_keeps_judged(
                        first.0,
                        branches2,
                        timings@,
                        bad_timings@,
                        color,
                        now,
                        true,
                        pointers2.judge_bad as int,
                        first.1,
                        pointers2.judge_branch_bad as int,
                        pointers2.judge_bad as int,
                        pointers2.judge_branch_bad as int,
                        k,
                    );
                }
            }
        }
        r
    }
}

// ----- setting up -----------------------------------------------------

/// The branches of the single notes among `notes`, in order.
pub open spec fn single_note_branches(notes: Seq<PlainNote>) -> Seq<Option<BranchType>>
    decreases notes.len(),
{
    if notes.len() == 0 {
        seq![]
    } else {
        single_note_branches(notes.drop_last()) + if notes.last().content is Single {
            seq![notes.last().branch]
        } else {
            seq![]
        }
    }
}

/// The gauge changes of every single note: a good gives `good`, an ok half
/// of it (rounded down; `good` is never negative here), a bad takes twice
/// it away.
pub open spec fn gauge_delta_for(good: i64) -> GaugeDelta {
    GaugeDelta { good, ok: (good / 2) as i64, bad: (-2 * good) as i64 }
}

/// A drumroll kind as the game keeps it: a balloon or potato starts
/// unfinished.
pub open spec fn game_renda_kind(kind: just::RendaKind) -> RendaKind {
    match kind {
        typed::RendaKind::Unlimited(u) => typed::RendaKind::Unlimited(
            typed::UnlimitedRenda { size: u.size, info: typed::NoInfo },
        ),
        typed::RendaKind::Quota(q) => typed::RendaKind::Quota(
            typed::QuotaRenda {
                kind: q.kind,
                quota: q.quota,
                info: QuotaRendaState { finished: false },
            },
        ),
    }
}

/// A note as the game starts with it: unjudged, with the gauge changes
/// `delta`, or a drumroll with no hit yet.
pub open spec fn game_note(note: PlainNote, delta: GaugeDelta) -> GameNote {
    GameNote {
        time: note.time,
        content: match note.content {
            PlainNoteContent::Single(kind) => GameNoteContent::Single(
                typed::SingleNote {
                    kind,
                    info: SingleNoteInfo { judge: None, gauge_delta: delta },
                },
            ),
            PlainNoteContent::Renda { kind, end_time } => GameNoteContent::Renda(
                GameRenda { kind: game_renda_kind(kind), state: RendaState { count: 0 }, end_time },
            ),
        },
        branch: note.branch,
    }
}

/// A branch point as the game starts with it: undetermined.
pub open spec fn game_branch<P>(branch: PlainBranch<P>) -> GameBranch<P> {
    GameBranch {
        judge_time: branch.judge_time,
        switch_time: branch.switch_time,
        condition: branch.condition,
        determined_branch: None,
    }
}

/// A state with nothing counted.
pub open spec fn initial_state() -> GameState {
    GameState {
        score: 0,
        good_count: 0,
        ok_count: 0,
        bad_count: 0,
        renda_count: 0,
        combo: 0,
        gauge: 0,
    }
}

fn zero_state() -> (r: GameState)
    ensures
        r == initial_state(),
{
    GameState {
        score: 0,
        good_count: 0,
        ok_count: 0,
        bad_count: 0,
        renda_count: 0,
        combo: 0,
        gauge: 0,
    }
}

fn start_renda_kind(kind: &just::RendaKind) -> (r: RendaKind)
    ensures
        r == game_renda_kind(*kind),
{
    match kind {
        typed::RendaKind::Unlimited(u) => typed::RendaKind::Unlimited(
            typed::UnlimitedRenda { size: u.size, info: typed::NoInfo },
        ),
        typed::RendaKind::Quota(q) => typed::RendaKind::Quota(
            typed::QuotaRenda {
                kind: q.kind,
                quota: q.quota,
                info: QuotaRendaState { finished: false },
            },
        ),
    }
}

impl<P: Copy> GameManager<P> {
    /// A game at its start on the parsed score: every single note gets the
    /// gauge changes derived from [`gauge_good_delta`], nothing is judged,
    /// no branch is determined and every search starts at the beginning.
    pub fn new(
        notes: &Vec<PlainNote>,
        branches: &Vec<PlainBranch<P>>,
        branch_events: Vec<GameBranchEvent>,
    ) -> (r: Self)
        ensures
            r.wf(),
            r.notes@ == notes@.map_values(
                |n: PlainNote|
                    game_note(
                        n,
                        gauge_delta_for(
                            good_delta_for(max_combo(single_note_branches(notes@))) as i64,
                        ),
                    ),
            ),
            r.branches@ == branches@.map_values(|b: PlainBranch<P>| game_branch(b)),
            r.branch_events@ == branch_events@,
            r.pointers == (Pointers {
                judge: 0,
                judge_bad: 0,
                judge_branch: 0,
                judge_branch_bad: 0,
                next_branch: 0,
                branch_event: 0,
                branch_event_branch: 0,
            }),
            r.game_state == initial_state(),
            r.game_state_section == initial_state(),
            !r.auto,
            counts_match(r.game_state, r.notes@),
            state_in_range(r.game_state),
    {
        let mut singles: Vec<Option<BranchType>> = Vec::new();
        let mut i: usize = 0;
        while i < notes.len()
            invariant
                i <= notes@.len(),
                singles@ == single_note_branches(notes@.take(i as int)),
            decreases notes@.len() - i,
        {
            proof {
                assert(notes@.take(i + 1).drop_last() =~= notes@.take(i as int));
            }
            match notes[i].content {
                PlainNoteContent::Single(_) => {
                    singles.push(notes[i].branch);
                },
                _ => {},
            }
            proof {
                assert(singles@ =~= single_note_branches(notes@.take(i + 1)));
            }
            i = i + 1;
        }
        proof {
            assert(notes@.take(notes@.len() as int) =~= notes@);
        }
        let good = gauge_good_delta(&singles);
        let delta = GaugeDelta::from_good(good);
        let ghost spec_delta = gauge_delta_for(
            good_delta_for(max_combo(single_note_branches(notes@))) as i64,
        );
        assert(delta == spec_delta);
        let mut game_notes: Vec<GameNote> = Vec::new();
        let mut k: usize = 0;
        while k < notes.len()
            invariant
                k <= notes@.len(),
                game_notes@.len() == k,
                forall|j: int| 0 <= j < k ==> #[trigger] game_notes@[j] == game_note(notes@[j], delta),
            decreases notes@.len() - k,
        {
            let n = &notes[k];
            let content = match &n.content {
                PlainNoteContent::Single(kind) => GameNoteContent::Single(
                    typed::SingleNote {
                        kind: *kind,
                        info: SingleNoteInfo { judge: None, gauge_delta: delta },
                    },
                ),
                PlainNoteContent::Renda { kind, end_time } => GameNoteContent::Renda(
                    GameRenda {
                        kind: start_renda_kind(kind),
                        state: RendaState { count: 0 },
                        end_time: *end_time,
                    },
                ),
            };
            game_notes.push(GameNote { time: n.time, content, branch: n.branch });
            k = k + 1;
        }
        let mut game_branches: Vec<GameBranch<P>> = Vec::new();
        let mut b: usize = 0;
        while b < branches.len()
            invariant
                b <= branches@.len(),
                game_branches@.len() == b,
                forall|j: int|
                    0 <= j < b ==> #[trigger] game_branches@[j] == game_branch(branches@[j]),
            decreases branches@.len() - b,
        {
            let plain = branches[b];
            game_branches.push(
                GameBranch {
                    judge_time: plain.judge_time,
                    switch_time: plain.switch_time,
                    condition: plain.condition,
                    determined_branch: None,
                },
            );
            b = b + 1;
        }
        proof {
            assert(game_notes@ =~= notes@.map_values(|n: PlainNote| game_note(n, spec_delta)));
            assert(game_branches@ =~= branches@.map_values(|b: PlainBranch<P>| game_branch(b)));
            assert forall|j: int, c: int| 0 <= j < game_notes@.len() implies #[trigger] note_tally(
                game_notes@[j],
                c,
            ) == 0 by {}
            lemma_tally_of_fresh_notes(game_notes@, 0);
            lemma_tally_of_fresh_notes(game_notes@, 1);
            lemma_tally_of_fresh_notes(game_notes@, 2);
            lemma_tally_of_fresh_notes(game_notes@, 3);
        }
        GameManager {
            notes: game_notes,
            branches: game_branches,
            branch_events,
            auto: false,
            pointers: Pointers {
                judge: 0,
                judge_bad: 0,
                judge_branch: 0,
                judge_branch_bad: 0,
                next_branch: 0,
                branch_event: 0,
                branch_event_branch: 0,
            },
            game_state_section: zero_state(),
            game_state: zero_state(),
        }
    }

    /// Whether the game plays itself.
    pub fn auto(&self) -> (r: bool)
        ensures
            r == self.auto,
    {
        self.auto
    }

    fn set_auto(&mut self, auto: bool)
        ensures
            *final(self) == (GameManager { auto, ..*old(self) }),
    {
        self.auto = auto;
    }

    /// Turns auto play on or off, and says whether it is now on.
    pub fn switch_auto(&mut self) -> (r: bool)
        ensures
            r == !old(self).auto,
            *final(self) == (GameManager { auto: r, ..*old(self) }),
    {
        let auto = !self.auto;
        self.set_auto(auto);
        self.auto
    }
}

// ----- following the branches -----------------------------------------

/// A bar line: when it passes, the branch it belongs to, and whether it is shown.
#[derive(Clone, Copy, Debug)]
pub struct BarLineKey {
    pub time: u64,
    pub branch: Option<BranchType>,
    pub visible: bool,
}

/// Following the branch points from `b` on up to `time`: each one that
/// took effect by then and was determined sets the branch played.  Gives
/// where the walk stopped and the branch played.
pub open spec fn track_branch<P>(
    branches: Seq<GameBranch<P>>,
    b: int,
    current: BranchType,
    time: u64,
) -> (int, BranchType)
    decreases branches.len() - b,
{
    if 0 <= b < branches.len() && branches[b].switch_time <= time {
        track_branch(
            branches,
            b + 1,
            match branches[b].determined_branch {
                Some(x) => x,
                None => current,
            },
            time,
        )
    } else {
        (b, current)
    }
}

/// The bar lines shown from `j` on: the visible ones on the branch played
/// when they pass.
pub open spec fn shown_from<P>(
    bar_lines: Seq<BarLineKey>,
    branches: Seq<GameBranch<P>>,
    j: int,
    b: int,
    current: BranchType,
) -> Seq<usize>
    decreases bar_lines.len() - j,
{
    if j < 0 || j >= bar_lines.len() {
        seq![]
    } else {
        let (b2, played) = track_branch(branches, b, current, bar_lines[j].time);
        (if on_branch(bar_lines[j].branch, played) && bar_lines[j].visible {
            seq![j as usize]
        } else {
            seq![]
        }) + shown_from(bar_lines, branches, j + 1, b2, played)
    }
}

proof fn lemma_track_branch_bounds<P>(
    branches: Seq<GameBranch<P>>,
    b: int,
    current: BranchType,
    time: u64,
)
    requires
        0 <= b <= branches.len(),
    ensures
        b <= track_branch(branches, b, current, time).0 <= branches.len(),
    decreases branches.len() - b,
{
    if b < branches.len() && branches[b].switch_time <= time {
        lemma_track_branch_bounds(
            branches,
            b + 1,
            match branches[b].determined_branch {
                Some(x) => x,
                None => current,
            },
            time,
        );
    }
}

/// The indices of the bar lines to draw, in order (see [`shown_from`]).
pub fn shown_bar_lines<P: Copy>(bar_lines: &Vec<BarLineKey>, branches: &Vec<GameBranch<P>>) -> (r:
    Vec<usize>)
    ensures
        r@ == shown_from(bar_lines@, branches@, 0, 0, BranchType::Normal),
{
    let mut shown: Vec<usize> = Vec::new();
    let mut j: usize = 0;
    let mut b: usize = 0;
    let mut current = BranchType::Normal;
    let ghost whole = shown_from(bar_lines@, branches@, 0, 0, BranchType::Normal);
    proof {
        assert(shown@ + whole =~= whole);
    }
    while j < bar_lines.len()
        invariant
            j <= bar_lines@.len(),
            b <= branches@.len(),
            whole == shown_from(bar_lines@, branches@, 0, 0, BranchType::Normal),
            shown@ + shown_from(bar_lines@, branches@, j as int, b as int, current) == whole,
        decreases bar_lines@.len() - j,
    {
        let line = bar_lines[j];
        let ghost b0 = b as int;
        let ghost c0 = current;
        proof {
            lemma_track_branch_bounds(branches@, b0, c0, line.time);
        }
        while b < branches.len() && branches[b].switch_time <= line.time
            invariant
                b0 <= b <= branches@.len(),
                track_branch(branches@, b as int, current, line.time) == track_branch(
                    branches@,
                    b0,
                    c0,
                    line.time,
                ),
            decreases branches@.len() - b,
        {
            match branches[b].determined_branch {
                Some(x) => current = x,
                None => {},
            }
            b = b + 1;
        }
        let ghost before = shown@;
        let on = match line.branch {
            None => true,
            Some(x) => x == current,
        };
        if on && line.visible {
            shown.push(j);
        }
        proof {
            let rest = shown_from(bar_lines@, branches@, j + 1, b as int, current);
            let head = if on && line.visible {
                seq![j as usize]
            } else {
                seq![]
            };
            assert(shown@ =~= before + head);
            assert(before + (head + rest) =~= shown@ + rest);
        }
        j = j + 1;
    }
    proof {
        assert(shown@ + Seq::<usize>::empty() =~= shown@);
    }
    shown
}

/// Where the branch points from `b` on that took effect by `time` end.
pub open spec fn passed_end<P>(branches: Seq<GameBranch<P>>, b: int, time: u64) -> int
    decreases branches.len() - b,
{
    if 0 <= b < branches.len() && branches[b].switch_time <= time {
        passed_end(branches, b + 1, time)
    } else {
        b
    }
}

proof fn lemma_passed_end_bounds<P>(branches: Seq<GameBranch<P>>, b: int, time: u64)
    requires
        0 <= b <= branches.len(),
    ensures
        b <= passed_end(branches, b, time) <= branches.len(),
    decreases branches.len() - b,
{
    if b < branches.len() && branches[b].switch_time <= time {
        lemma_passed_end_bounds(branches, b + 1, time);
    }
}

/// The notes auto play sounds for, from note `i` on, with the branch
/// points from `b` on still to pass and `current` played: each note on the
/// branch played at its time, up to the first note past a branch point that
/// is not determined yet.  Gives the notes and where the next call resumes.
pub open spec fn auto_from<P>(
    notes: Seq<GameNote>,
    branches: Seq<GameBranch<P>>,
    i: int,
    b: int,
    current: BranchType,
) -> (Seq<usize>, int)
    decreases notes.len() - i,
{
    if i < 0 || i >= notes.len() {
        (seq![], i)
    } else {
        let e = passed_end(branches, b, notes[i].time);
        if e > b && branches[e - 1].determined_branch is None {
            (seq![], i)
        } else {
            let played = if e > b {
                branches[e - 1].determined_branch.unwrap()
            } else {
                current
            };
            let (rest, end) = auto_from(notes, branches, i + 1, e, played);
            (
                if on_branch(notes[i].branch, played) {
                    seq![i as usize] + rest
                } else {
                    rest
                },
                end,
            )
        }
    }
}

impl<P: Copy> GameManager<P> {
    /// The notes auto play sounds for next, from `*pointer` on (see
    /// [`auto_from`]); `*pointer` moves to where the next call resumes.  A
    /// pointer past the notes gives nothing and stays where it is.
    pub fn auto_play_notes(&self, pointer: &mut usize) -> (r: Vec<usize>)
        ensures
            (r@, *final(pointer) as int) == auto_from(
                self.notes@,
                self.branches@,
                *old(pointer) as int,
                0,
                BranchType::Normal,
            ),
    {
        let mut chosen: Vec<usize> = Vec::new();
        if *pointer > self.notes.len() {
            return chosen;
        }
        let mut b: usize = 0;
        let mut current = BranchType::Normal;
        let ghost whole = auto_from(
            self.notes@,
            self.branches@,
            *pointer as int,
            0,
            BranchType::Normal,
        );
        proof {
            assert(chosen@ + whole.0 =~= whole.0);
        }
        while *pointer < self.notes.len()
            invariant
                *pointer <= self.notes@.len(),
                b <= self.branches@.len(),
                whole == auto_from(
                    self.notes@,
                    self.branches@,
                    *old(pointer) as int,
                    0,
                    BranchType::Normal,
                ),
                chosen@ + auto_from(self.notes@, self.branches@, *pointer as int, b as int, current).0
                    == whole.0,
                auto_from(self.notes@, self.branches@, *pointer as int, b as int, current).1
                    == whole.1,
            decreases self.notes@.len() - *pointer,
        {
            let i = *pointer;
            let time = self.notes[i].time;
            let b0 = b;
            proof {
                lemma_passed_end_bounds(self.branches@, b0 as int, time);
            }
            while b < self.branches.len() && self.branches[b].switch_time <= time
                invariant
                    b0 <= b <= self.branches@.len(),
                    passed_end(self.branches@, b as int, time) == passed_end(
                        self.branches@,
                        b0 as int,
                        time,
                    ),
                decreases self.branches@.len() - b,
            {
                b = b + 1;
            }
            if b > b0 {
                match self.branches[b - 1].determined_branch {
                    Some(x) => current = x,
                    None => {
                        proof {
                            assert(chosen@ + Seq::<usize>::empty() =~= chosen@);
                        }
                        return chosen;
                    },
                }
            }
            *pointer = i + 1;
            let on = match self.notes[i].branch {
                None => true,
                Some(x) => x == current,
            };
            let ghost before = chosen@;
            if on {
                chosen.push(i);
            }
            proof {
                let rest = auto_from(self.notes@, self.branches@, i + 1, b as int, current).0;
                if on {
                    assert(chosen@ =~= before.push(i));
                    assert(before + (seq![i] + rest) =~= chosen@ + rest);
                }
            }
        }
        proof {
            assert(chosen@ + Seq::<usize>::empty() =~= chosen@);
        }
        chosen
    }
}

// ----- what a hit keeps -----------------------------------------------

/// Whether `note` is a single note that was hit (judged good, ok or bad).
pub open spec fn was_hit(note: GameNote) -> bool {
    note.content matches GameNoteContent::Single(s) && s.info.judge matches Some(
        JudgeOrPassed::Judge(_),
    )
}

proof fn lemma_walk_keeps_hit_notes<P>(
    notes: Seq<GameNote>,
    branches: Seq<GameBranch<P>>,
    timings: Seq<NoteTiming>,
    bad_timings: Seq<BadTiming>,
    color: Option<NoteColor>,
    now: u64,
    bad: bool,
    i: int,
    game: GameState,
    p: int,
    pointer: int,
    branch_pointer: int,
    k: int,
)
    requires
        0 <= k < notes.len(),
        was_hit(notes[k]),
    ensures
        ({
            let walked = judge_walk(
                notes,
                branches,
                timings,
                bad_timings,
                color,
                now,
                bad,
                i,
                game,
                p,
                pointer,
                branch_pointer,
            ).0;
            walked.len() == notes.len() && walked[k] == notes[k]
        }),
    decreases notes.len() - i,
{
    if 0 <= i < notes.len() {
        let walked = branch_walk_end(branches, p, notes[i].time);
        let matches = on_branch(notes[i].branch, branch_from(branches, walked));
        let (note, g, outcome) = walk_check(
            notes[i],
            game,
            color,
            matches,
            now,
            timings[i],
            bad_timings[i],
            bad,
        );
        let updated = notes.update(i, note);
        if i == k {
            assert(note == notes[k]);
        }
        assert(updated[k] == notes[k]);
        match outcome {
            JudgeOnTimeline::Past => lemma_walk_keeps_hit_notes(
                updated,
                branches,
                timings,
                bad_timings,
                color,
                now,
                bad,
                i + 1,
                g,
                walked,
                i + 1,
                walked,
                k,
            ),
            JudgeOnTimeline::Continue => lemma_walk_keeps_hit_notes(
                updated,
                branches,
                timings,
                bad_timings,
                color,
                now,
                bad,
                i + 1,
                g,
                walked,
                pointer,
                branch_pointer,
                k,
            ),
            _ => {},
        }
    }
}

/// Law: a hit never changes a single note that an earlier hit judged good,
/// ok or bad, and keeps the number of notes.
pub proof fn lemma_hit_keeps_hit_notes<P>(
    game: &GameManager<P>,
    color: Option<NoteColor>,
    now: u64,
    timings: Seq<NoteTiming>,
    bad_timings: Seq<BadTiming>,
    precision_choice: BranchType,
    k: int,
)
    requires
        0 <= k < game.notes@.len(),
        was_hit(game.notes@[k]),
    ensures
        hit_spec(game, color, now, timings, bad_timings, precision_choice).0.len()
            == game.notes@.len(),
        hit_spec(game, color, now, timings, bad_timings, precision_choice).0[k] == game.notes@[k],
{
    let (branches1, pointers1, section) = events_from(
        game.branches@,
        game.branch_events@,
        game.pointers,
        game.game_state,
        game.game_state_section,
        now,
    );
    let (branches2, pointers2, switched) = branch_phase(
        branches1,
        pointers1,
        game.game_state,
        section,
        now,
        precision_choice,
    );
    let (notes1, game1, judge, judge_branch, effect) = judge_walk(
        game.notes@,
        branches2,
        timings,
        bad_timings,
        color,
        now,
        false,
        pointers2.judge as int,
        game.game_state,
        pointers2.judge_branch as int,
        pointers2.judge as int,
        pointers2.judge_branch as int,
    );
    lemma_walk_keeps_hit_notes(
        game.notes@,
        branches2,
        timings,
        bad_timings,
        color,
        now,
        false,
        pointers2.judge as int,
        game.game_state,
        pointers2.judge_branch as int,
        pointers2.judge as int,
        pointers2.judge_branch as int,
        k,
    );
    lemma_walk_keeps_hit_notes(
        notes1,
        branches2,
        timings,
        bad_timings,
        color,
        now,
        true,
        pointers2.judge_bad as int,
        game1,
        pointers2.judge_branch_bad as int,
        pointers2.judge_bad as int,
        pointers2.judge_branch_bad as int,
        k,
    );
}

// ----- what the counts say --------------------------------------------

/// What `note` adds to count `k`: 0 goods, 1 oks, 2 bads (passed notes
/// included), 3 drumroll hits.
pub open spec fn note_tally(note: GameNote, k: int) -> int {
    match note.content {
        GameNoteContent::Single(s) => match s.info.judge {
            Some(JudgeOrPassed::Judge(Judge::Good)) => if k == 0 {
                1
            } else {
                0
            },
            Some(JudgeOrPassed::Judge(Judge::Okay)) => if k == 1 {
                1
            } else {
                0
            },
            Some(JudgeOrPassed::Judge(Judge::Bad)) | Some(JudgeOrPassed::Passed) => if k == 2 {
                1
            } else {
                0
            },
            None => 0,
        },
        GameNoteContent::Renda(r) => if k == 3 {
            r.state.count as int
        } else {
            0
        },
    }
}

/// Count `k` (see [`note_tally`]) summed over `notes`.
pub open spec fn tally(notes: Seq<GameNote>, k: int) -> int
    decreases notes.len(),
{
    if notes.len() == 0 {
        0
    } else {
        tally(notes.drop_last(), k) + note_tally(notes.last(), k)
    }
}

/// The judge counts and drumroll hits of `game` are those recorded on `notes`.
pub open spec fn counts_match(game: GameState, notes: Seq<GameNote>) -> bool {
    &&& game.good_count == tally(notes, 0)
    &&& game.ok_count == tally(notes, 1)
    &&& game.bad_count == tally(notes, 2)
    &&& game.renda_count == tally(notes, 3)
}

/// The gauge is within `0..=GAUGE_MAX`, no count is negative, and the combo
/// is at most the goods and oks.
pub open spec fn state_in_range(game: GameState) -> bool {
    &&& 0 <= game.gauge <= crate::game_manager::GAUGE_MAX
    &&& 0 <= game.good_count
    &&& 0 <= game.ok_count
    &&& 0 <= game.bad_count
    &&& 0 <= game.renda_count
    &&& 0 <= game.combo <= game.good_count + game.ok_count
}

proof fn lemma_tally_update(notes: Seq<GameNote>, i: int, note: GameNote, k: int)
    requires
        0 <= i < notes.len(),
    ensures
        tally(notes.update(i, note), k) == tally(notes, k) - note_tally(notes[i], k) + note_tally(
            note,
            k,
        ),
    decreases notes.len(),
{
    let updated = notes.update(i, note);
    if i == notes.len() - 1 {
        assert(updated.drop_last() =~= notes.drop_last());
    } else {
        assert(updated.drop_last() =~= notes.drop_last().update(i, note));
        lemma_tally_update(notes.drop_last(), i, note, k);
    }
}

proof fn lemma_check_keeps_counts(
    note: GameNote,
    game: GameState,
    color: Option<NoteColor>,
    branch_matches: bool,
    now: u64,
    timing: NoteTiming,
    bad_timing: BadTiming,
    bad: bool,
)
    requires
        counts_room(game, 1),
        !bad ==> (note.content matches GameNoteContent::Renda(r) ==> r.state.count < u64::MAX),
    ensures
        ({
            let (after, g, outcome) = walk_check(
                note,
                game,
                color,
                branch_matches,
                now,
                timing,
                bad_timing,
                bad,
            );
            &&& g.good_count - game.good_count == note_tally(after, 0) - note_tally(note, 0)
            &&& g.ok_count - game.ok_count == note_tally(after, 1) - note_tally(note, 1)
            &&& g.bad_count - game.bad_count == note_tally(after, 2) - note_tally(note, 2)
            &&& g.renda_count - game.renda_count == note_tally(after, 3) - note_tally(note, 3)
            &&& state_in_range(game) ==> state_in_range(g)
            &&& counts_grew_by_at_most(game, g, 1)
        }),
{
    match note.content {
        GameNoteContent::Single(s) => {
            let d = s.info.gauge_delta;
            crate::game_manager::lemma_gauge_stays_in_range(game, d, JudgeOrPassed::Judge(Judge::Good));
            crate::game_manager::lemma_gauge_stays_in_range(game, d, JudgeOrPassed::Judge(Judge::Okay));
            crate::game_manager::lemma_gauge_stays_in_range(game, d, JudgeOrPassed::Judge(Judge::Bad));
            crate::game_manager::lemma_gauge_stays_in_range(game, d, JudgeOrPassed::Passed);
        },
        GameNoteContent::Renda(r) => {},
    }
}


/// From `game` to `later` each count moved as much as the same count
/// recorded on the notes did from `notes` to `walked`.
pub open spec fn counts_moved_with(
    game: GameState,
    later: GameState,
    notes: Seq<GameNote>,
    walked: Seq<GameNote>,
) -> bool {
    &&& later.good_count - game.good_count == tally(walked, 0) - tally(notes, 0)
    &&& later.ok_count - game.ok_count == tally(walked, 1) - tally(notes, 1)
    &&& later.bad_count - game.bad_count == tally(walked, 2) - tally(notes, 2)
    &&& later.renda_count - game.renda_count == tally(walked, 3) - tally(notes, 3)
}

proof fn lemma_walk_keeps_counts<P>(
    notes: Seq<GameNote>,
    branches: Seq<GameBranch<P>>,
    timings: Seq<NoteTiming>,
    bad_timings: Seq<BadTiming>,
    color: Option<NoteColor>,
    now: u64,
    bad: bool,
    i: int,
    game: GameState,
    p: int,
    pointer: int,
    branch_pointer: int,
)
    requires
        0 <= i <= notes.len(),
        counts_room(game, notes.len() - i),
        !bad ==> forall|j: int|
            i <= j < notes.len() ==> (#[trigger] notes[j].content matches GameNoteContent::Renda(r)
                ==> r.state.count < u64::MAX),
    ensures
        ({
            let (walked, g, _, _, _) = judge_walk(
                notes,
                branches,
                timings,
                bad_timings,
                color,
                now,
                bad,
                i,
                game,
                p,
                pointer,
                branch_pointer,
            );
            &&& walked.len() == notes.len()
            &&& counts_moved_with(game, g, notes, walked)
            &&& state_in_range(game) ==> state_in_range(g)
            &&& counts_grew_by_at_most(game, g, notes.len() - i)
        }),
    decreases notes.len() - i,
{
    if i < notes.len() {
        let walked = branch_walk_end(branches, p, notes[i].time);
        let matches = on_branch(notes[i].branch, branch_from(branches, walked));
        let (note, g, outcome) = walk_check(
            notes[i],
            game,
            color,
            matches,
            now,
            timings[i],
            bad_timings[i],
            bad,
        );
        let updated = notes.update(i, note);
        lemma_check_keeps_counts(
            notes[i],
            game,
            color,
            matches,
            now,
            timings[i],
            bad_timings[i],
            bad,
        );
        lemma_tally_update(notes, i, note, 0);
        lemma_tally_update(notes, i, note, 1);
        lemma_tally_update(notes, i, note, 2);
        lemma_tally_update(notes, i, note, 3);
        assert forall|j: int| i + 1 <= j < updated.len() implies updated[j] == notes[j] by {}
        match outcome {
            JudgeOnTimeline::Past => lemma_walk_keeps_counts(
                updated,
                branches,
                timings,
                bad_timings,
                color,
                now,
                bad,
                i + 1,
                g,
                walked,
                i + 1,
                walked,
            ),
            JudgeOnTimeline::Continue => lemma_walk_keeps_counts(
                updated,
                branches,
                timings,
                bad_timings,
                color,
                now,
                bad,
                i + 1,
                g,
                walked,
                pointer,
                branch_pointer,
            ),
            _ => {},
        }
    }
}

proof fn lemma_tally_of_fresh_notes(notes: Seq<GameNote>, k: int)
    requires
        forall|j: int| 0 <= j < notes.len() ==> #[trigger] note_tally(notes[j], k) == 0,
    ensures
        tally(notes, k) == 0,
    decreases notes.len(),
{
    if notes.len() > 0 {
        assert(note_tally(notes[notes.len() - 1], k) == 0);
        lemma_tally_of_fresh_notes(notes.drop_last(), k);
    }
}

// ----- notes left behind ---------------------------------------------

/// Whether `note` is a single note with a judge (passed included).
pub open spec fn judged_single(note: GameNote) -> bool {
    note.content matches GameNoteContent::Single(s) && s.info.judge is Some
}

proof fn lemma_walk_keeps_judged<P>(
    notes: Seq<GameNote>,
    branches: Seq<GameBranch<P>>,
    timings: Seq<NoteTiming>,
    bad_timings: Seq<BadTiming>,
    color: Option<NoteColor>,
    now: u64,
    bad: bool,
    i: int,
    game: GameState,
    p: int,
    pointer: int,
    branch_pointer: int,
    k: int,
)
    requires
        0 <= k < notes.len(),
        judged_single(notes[k]),
    ensures
        ({
            let walked = judge_walk(
                notes,
                branches,
                timings,
                bad_timings,
                color,
                now,
                bad,
                i,
                game,
                p,
                pointer,
                branch_pointer,
            ).0;
            walked.len() == notes.len() && judged_single(walked[k])
        }),
    decreases notes.len() - i,
{
    if 0 <= i < notes.len() {
        let walked = branch_walk_end(branches, p, notes[i].time);
        let matches = on_branch(notes[i].branch, branch_from(branches, walked));
        let (note, g, outcome) = walk_check(
            notes[i],
            game,
            color,
            matches,
            now,
            timings[i],
            bad_timings[i],
            bad,
        );
        let updated = notes.update(i, note);
        assert(judged_single(updated[k]));
        match outcome {
            JudgeOnTimeline::Past => lemma_walk_keeps_judged(
                updated,
                branches,
                timings,
                bad_timings,
                color,
                now,
                bad,
                i + 1,
                g,
                walked,
                i + 1,
                walked,
                k,
            ),
            JudgeOnTimeline::Continue => lemma_walk_keeps_judged(
                updated,
                branches,
                timings,
                bad_timings,
                color,
                now,
                bad,
                i + 1,
                g,
                walked,
                pointer,
                branch_pointer,
                k,
            ),
            _ => {},
        }
    }
}

proof fn lemma_walk_judges_left_behind<P>(
    notes: Seq<GameNote>,
    branches: Seq<GameBranch<P>>,
    timings: Seq<NoteTiming>,
    bad_timings: Seq<BadTiming>,
    color: Option<NoteColor>,
    now: u64,
    i: int,
    game: GameState,
    p: int,
    pointer: int,
    branch_pointer: int,
)
    requires
        0 <= pointer <= i,
    ensures
        ({
            let (walked, _, moved, _, _) = judge_walk(
                notes,
                branches,
                timings,
                bad_timings,
                color,
                now,
                false,
                i,
                game,
                p,
                pointer,
                branch_pointer,
            );
            &&& walked.len() == notes.len()
            &&& forall|k: int| 0 <= k < i && k < notes.len() ==> #[trigger] walked[k] == notes[k]
            &&& forall|k: int|
                i <= k < moved && k < notes.len() && timings[k] is Past && notes[k].content is Single
                    ==> judged_single(
                    #[trigger] walked[k],
                ) || notes[k].branch is Some
        }),
    decreases notes.len() - i,
{
    if i < notes.len() {
        let walked = branch_walk_end(branches, p, notes[i].time);
        let matches = on_branch(notes[i].branch, branch_from(branches, walked));
        let (note, g, outcome) = walk_check(
            notes[i],
            game,
            color,
            matches,
            now,
            timings[i],
            bad_timings[i],
            false,
        );
        let updated = notes.update(i, note);
        assert forall|k: int| 0 <= k < updated.len() && k != i implies updated[k] == notes[k] by {}
        if timings[i] is Past && notes[i].content is Single {
            assert(outcome is Past);
            assert(judged_single(note) || notes[i].branch is Some);
        }
        match outcome {
            JudgeOnTimeline::Past => lemma_walk_judges_left_behind(
                updated,
                branches,
                timings,
                bad_timings,
                color,
                now,
                i + 1,
                g,
                walked,
                i + 1,
                walked,
            ),
            JudgeOnTimeline::Continue => lemma_walk_judges_left_behind(
                updated,
                branches,
                timings,
                bad_timings,
                color,
                now,
                i + 1,
                g,
                walked,
                pointer,
                branch_pointer,
            ),
            _ => {},
        }
        let r = judge_walk(
            notes,
            branches,
            timings,
            bad_timings,
            color,
            now,
            false,
            i,
            game,
            p,
            pointer,
            branch_pointer,
        );
        assert forall|k: int|
            i <= k < r.2 && k < notes.len() && timings[k] is Past && notes[k].content is Single implies judged_single(
                #[trigger] r.0[k],
            ) || notes[k].branch is Some by {
            if k == i {
                assert(r.0[i] == updated[i]);
            } else {
                assert(updated[k] == notes[k]);
            }
        }
        assert forall|k: int| 0 <= k < i && k < notes.len() implies #[trigger] r.0[k] == notes[k] by {
            assert(r.0[k] == updated[k]);
        }
    }
}

proof fn lemma_events_keep_judge_pointers<P>(
    branches: Seq<GameBranch<P>>,
    events: Seq<GameBranchEvent>,
    pointers: Pointers,
    game: GameState,
    section: GameState,
    now: u64,
)
    ensures
        events_from(branches, events, pointers, game, section, now).1.judge == pointers.judge,
    decreases events.len() - pointers.branch_event,
{
    let i = pointers.branch_event as int;
    if i >= events.len() || i >= usize::MAX || now < events[i].time {
    } else {
        let next = Pointers { branch_event: (i + 1) as usize, ..pointers };
        match events[i].kind {
            BranchEventKind::Section => lemma_events_keep_judge_pointers(
                branches,
                events,
                next,
                game,
                game,
                now,
            ),
            BranchEventKind::LevelHold(branch) => {
                let q = branch_walk_end(branches, pointers.branch_event_branch as int, events[i].time);
                let walked = Pointers { branch_event_branch: q as usize, ..next };
                if branch == branch_from(branches, q) {
                    lemma_events_keep_judge_pointers(
                        level_held(branches, pointers.next_branch as int, branch),
                        events,
                        Pointers { next_branch: branches.len() as usize, ..walked },
                        game,
                        section,
                        now,
                    );
                } else {
                    lemma_events_keep_judge_pointers(branches, events, walked, game, section, now);
                }
            },
        }
    }
}

// ----- laws of branch events and branch points -----------------------

/// Law: a `#LEVELHOLD` due at `now` whose branch is not the one played at
/// its time does nothing to the branch points: processing goes on from the
/// next event with the same branch points and the same next branch point
/// to judge.  When it is the last event, no branch point is determined by
/// it and the next branch point to judge stays where it was.
pub proof fn lemma_level_hold_off_branch_does_nothing<P>(
    branches: Seq<GameBranch<P>>,
    events: Seq<GameBranchEvent>,
    pointers: Pointers,
    game: GameState,
    section: GameState,
    now: u64,
    held: BranchType,
)
    requires
        pointers.branch_event < events.len(),
        pointers.branch_event < usize::MAX,
        events[pointers.branch_event as int].time <= now,
        events[pointers.branch_event as int].kind == BranchEventKind::LevelHold(held),
        held != branch_from(
            branches,
            branch_walk_end(
                branches,
                pointers.branch_event_branch as int,
                events[pointers.branch_event as int].time,
            ),
        ),
    ensures
        ({
            let i = pointers.branch_event as int;
            let walked = branch_walk_end(branches, pointers.branch_event_branch as int, events[i].time);
            let r = events_from(branches, events, pointers, game, section, now);
            &&& r == events_from(
                branches,
                events,
                Pointers { branch_event: (i + 1) as usize, branch_event_branch: walked as usize, ..pointers },
                game,
                section,
                now,
            )
            &&& events.len() == i + 1 ==> {
                &&& r.0 == branches
                &&& r.1.next_branch == pointers.next_branch
                &&& r.1.judge == pointers.judge
            }
        }),
{
    let i = pointers.branch_event as int;
    let walked = branch_walk_end(branches, pointers.branch_event_branch as int, events[i].time);
    let next = Pointers { branch_event: (i + 1) as usize, ..pointers };
    let moved = Pointers { branch_event_branch: walked as usize, ..next };
    assert(moved == Pointers {
        branch_event: (i + 1) as usize,
        branch_event_branch: walked as usize,
        ..pointers
    });
    assert(events_from(branches, events, pointers, game, section, now) == events_from(
        branches,
        events,
        moved,
        game,
        section,
        now,
    ));
    if events.len() == i + 1 {
        assert(events_from(branches, events, moved, game, section, now) == (
            branches,
            moved,
            section,
        ));
    }
}

/// Law: a `#LEVELHOLD` due at `now`, the last event, whose branch is the one
/// played at its time fixes that branch for every branch point not judged
/// yet, leaves those already judged as they were, and leaves no branch
/// point to judge.
pub proof fn lemma_level_hold_on_branch_fixes_the_rest<P>(
    branches: Seq<GameBranch<P>>,
    events: Seq<GameBranchEvent>,
    pointers: Pointers,
    game: GameState,
    section: GameState,
    now: u64,
    held: BranchType,
)
    requires
        pointers.branch_event + 1 == events.len(),
        pointers.branch_event < usize::MAX,
        branches.len() <= usize::MAX,
        events[pointers.branch_event as int].time <= now,
        events[pointers.branch_event as int].kind == BranchEventKind::LevelHold(held),
        held == branch_from(
            branches,
            branch_walk_end(
                branches,
                pointers.branch_event_branch as int,
                events[pointers.branch_event as int].time,
            ),
        ),
    ensures
        ({
            let r = events_from(branches, events, pointers, game, section, now);
            &&& r.0.len() == branches.len()
            &&& forall|k: int|
                0 <= k < branches.len() && k < pointers.next_branch ==> #[trigger] r.0[k]
                    == branches[k]
            &&& forall|k: int|
                0 <= k < branches.len() && k >= pointers.next_branch ==> {
                    &&& #[trigger] r.0[k].determined_branch == Some(held)
                    &&& r.0[k].judge_time == branches[k].judge_time
                    &&& r.0[k].switch_time == branches[k].switch_time
                    &&& r.0[k].condition == branches[k].condition
                }
            &&& r.1.next_branch == branches.len()
            &&& r.2 == section
        }),
{
    let i = pointers.branch_event as int;
    let walked = branch_walk_end(branches, pointers.branch_event_branch as int, events[i].time);
    let next = Pointers { branch_event: (i + 1) as usize, ..pointers };
    let moved = Pointers { branch_event_branch: walked as usize, ..next };
    let fixed = Pointers { next_branch: branches.len() as usize, ..moved };
    let held_branches = level_held(branches, pointers.next_branch as int, held);
    assert(events_from(branches, events, pointers, game, section, now) == events_from(
        held_branches,
        events,
        fixed,
        game,
        section,
        now,
    ));
    assert(events_from(held_branches, events, fixed, game, section, now) == (
        held_branches,
        fixed,
        section,
    ));
}

/// Law: a branch point due at `now` is judged from what happened since
/// the last `#SECTION`.  With `v` the drumroll hits (or the score) gained
/// since then and thresholds `(e, m)`, the branch is master exactly when
/// `v >= m`, expert exactly when `e <= v < m`, normal exactly when `v` is
/// below both; a pass condition determines nothing; a precision condition
/// takes what the precision thresholds gave.  The point records that branch,
/// nothing else changes, and the next point becomes the one to judge.
pub proof fn lemma_branch_point_thresholds<P>(
    branches: Seq<GameBranch<P>>,
    pointers: Pointers,
    game: GameState,
    section: GameState,
    now: u64,
    precision_choice: BranchType,
)
    requires
        pointers.next_branch < branches.len(),
        branches[pointers.next_branch as int].judge_time <= now,
        counts_within(game, COUNT_LIMIT),
        counts_within(section, COUNT_LIMIT),
    ensures
        ({
            let i = pointers.next_branch as int;
            let (after, p, chosen) = branch_phase(
                branches,
                pointers,
                game,
                section,
                now,
                precision_choice,
            );
            &&& p == Pointers { next_branch: (i + 1) as usize, ..pointers }
            &&& after.len() == branches.len()
            &&& after[i] == GameBranch { determined_branch: chosen, ..branches[i] }
            &&& forall|k: int| 0 <= k < branches.len() && k != i ==> #[trigger] after[k] == branches[k]
            &&& (branches[i].condition matches BranchRule::Renda(e, m) ==> {
                let v = game.renda_count - section.renda_count;
                &&& (chosen == Some(BranchType::Master) <==> v >= m)
                &&& (chosen == Some(BranchType::Expert) <==> e <= v < m)
                &&& (chosen == Some(BranchType::Normal) <==> v < e && v < m)
            })
            &&& (branches[i].condition matches BranchRule::Score(e, m) ==> {
                let v = game.score - section.score;
                &&& (chosen == Some(BranchType::Master) <==> v >= m)
                &&& (chosen == Some(BranchType::Expert) <==> e <= v < m)
                &&& (chosen == Some(BranchType::Normal) <==> v < e && v < m)
            })
            &&& (branches[i].condition is Pass ==> chosen is None)
            &&& (branches[i].condition is Precision ==> chosen == Some(precision_choice))
        }),
{
}

/// Law: a `#SECTION` due at `now` saves the state at the time of the hit
/// as what later branch conditions measure from, and changes neither the
/// branch points nor the next branch point to judge.  When it is the last
/// event, that state is what processing gives as saved.
pub proof fn lemma_section_saves_the_state<P>(
    branches: Seq<GameBranch<P>>,
    events: Seq<GameBranchEvent>,
    pointers: Pointers,
    game: GameState,
    section: GameState,
    now: u64,
)
    requires
        pointers.branch_event < events.len(),
        pointers.branch_event < usize::MAX,
        events[pointers.branch_event as int].time <= now,
        events[pointers.branch_event as int].kind == BranchEventKind::Section,
    ensures
        ({
            let i = pointers.branch_event as int;
            let r = events_from(branches, events, pointers, game, section, now);
            &&& r == events_from(
                branches,
                events,
                Pointers { branch_event: (i + 1) as usize, ..pointers },
                game,
                game,
                now,
            )
            &&& events.len() == i + 1 ==> {
                &&& r.0 == branches
                &&& r.1 == Pointers { branch_event: (i + 1) as usize, ..pointers }
                &&& r.2 == game
            }
        }),
{
    let i = pointers.branch_event as int;
    let next = Pointers { branch_event: (i + 1) as usize, ..pointers };
    if events.len() == i + 1 {
        assert(events_from(branches, events, next, game, game, now) == (branches, next, game));
    }
}

/// Law: an event not yet due at `now` stops the processing: nothing
/// changes.
pub proof fn lemma_events_wait_for_their_time<P>(
    branches: Seq<GameBranch<P>>,
    events: Seq<GameBranchEvent>,
    pointers: Pointers,
    game: GameState,
    section: GameState,
    now: u64,
)
    requires
        pointers.branch_event < events.len(),
        now < events[pointers.branch_event as int].time,
    ensures
        events_from(branches, events, pointers, game, section, now) == (branches, pointers, section),
{
}

/// Law: what a precision condition is handed measures the hits since
/// `section`: the first number (twice the goods plus the oks) never exceeds
/// the second (twice all the judges); they are equal exactly when no ok
/// and no bad was judged since; the second is 0 exactly when nothing was
/// judged since; and a good counts twice as much as an ok in the first.
pub proof fn lemma_precision_args_measure_the_section(game: GameState, section: GameState)
    requires
        counts_within(game, COUNT_LIMIT),
        counts_within(section, COUNT_LIMIT),
        section.good_count <= game.good_count,
        section.ok_count <= game.ok_count,
        section.bad_count <= game.bad_count,
    ensures
        ({
            let (a, b) = precision_args(game, section);
            let good = game.good_count - section.good_count;
            let ok = game.ok_count - section.ok_count;
            let bad = game.bad_count - section.bad_count;
            &&& 0 <= a <= b
            &&& (a == b <==> ok == 0 && bad == 0)
            &&& (b == 0 <==> good == 0 && ok == 0 && bad == 0)
            &&& b - a == ok + 2 * bad
        }),
{
}

} // verus!
