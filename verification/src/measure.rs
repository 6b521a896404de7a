//! Closing a measure of a score.
//!
//! A measure is the list of elements written up to a `,`: note digits and
//! commands.  Closing it decides which elements act on the parser state and
//! in which order, numbers the notes that are read, replays in a later
//! branch the tempo commands of the block's first branch at the same
//! relative positions, and has the first branch record its own.  The
//! arithmetic on times and tempos is left to the caller, which carries the
//! numbers of the commands as `V`.
use vstd::prelude::*;

use std::collections::VecDeque;

use crate::branch_context::{
    mode_of, shared_element_due, shared_element_due_spec, BranchContext, MeasureMode,
};
use crate::structs::just::{QuotaRenda, RendaKind, UnlimitedRenda};
use crate::structs::typed::NoInfo;
use crate::structs::{BarLineKind, NoteColor, NoteSize, QuotaRendaKind, SingleNoteKind};

verus! {

/// An element of a measure as it is written; `V` is the number a command
/// carries.
#[derive(Clone, Copy, Debug)]
pub enum TjaElement<V> {
    NoteChar(char),
    BpmChange(V),
    Gogo(bool),
    Measure(V),
    Scroll(V),
    Delay(V),
    BarLine(bool),
}

/// One thing to do to the parser state while closing a measure.
#[derive(Clone, Copy, Debug)]
pub enum MeasureStep<V> {
    /// A tempo element of the block's first branch, replayed here.
    Replay(TjaElement<V>),
    /// The `index`-th note of the measure, written as `digit`.
    Note { digit: char, index: usize },
    /// An element of this measure acting on the parser state.
    Apply(TjaElement<V>),
}

/// The outcome of closing a measure: how many note slots it has, and what
/// to do, in order.
#[derive(Debug)]
pub struct MeasurePlan<V> {
    pub notes_count: usize,
    pub steps: Vec<MeasureStep<V>>,
}

/// What a note digit starts or ends.
#[derive(Clone, Debug)]
pub enum DigitNote {
    /// `0`: nothing.
    Rest,
    /// `1` to `4`: a single note.
    Single(SingleNoteKind),
    /// `5`, `6`, `7`, `9`: a roll starts here.
    Renda(RendaKind),
    /// `8`: the current roll ends here.
    RendaEnd,
}

/// The hits a balloon or potato asks for when the `BALLOON:` list runs out.
pub const DEFAULT_QUOTA: u64 = 5;

/// Whether the note digit `c` takes the next quota of the `BALLOON:` list.
pub open spec fn takes_quota(c: char) -> bool {
    c == '7' || c == '9'
}

/// What the note digit `c` stands for, `quota` being the hits that a
/// balloon or potato asks for.
pub open spec fn digit_note(c: char, quota: u64) -> DigitNote {
    let single = |color: NoteColor, size: NoteSize|
        DigitNote::Single(SingleNoteKind { color, size });
    if c == '1' {
        single(NoteColor::Don, NoteSize::Small)
    } else if c == '2' {
        single(NoteColor::Ka, NoteSize::Small)
    } else if c == '3' {
        single(NoteColor::Don, NoteSize::Large)
    } else if c == '4' {
        single(NoteColor::Ka, NoteSize::Large)
    } else if c == '5' {
        DigitNote::Renda(RendaKind::Unlimited(UnlimitedRenda { size: NoteSize::Small, info: NoInfo }))
    } else if c == '6' {
        DigitNote::Renda(RendaKind::Unlimited(UnlimitedRenda { size: NoteSize::Large, info: NoInfo }))
    } else if c == '7' {
        DigitNote::Renda(
            RendaKind::Quota(QuotaRenda { kind: QuotaRendaKind::Balloon, quota, info: NoInfo }),
        )
    } else if c == '8' {
        DigitNote::RendaEnd
    } else if c == '9' {
        DigitNote::Renda(
            RendaKind::Quota(QuotaRenda { kind: QuotaRendaKind::Potato, quota, info: NoInfo }),
        )
    } else {
        DigitNote::Rest
    }
}

/// What one note slot of a measure writes.
#[derive(Debug)]
pub struct SlotEffect {
    /// A single note at this slot.
    pub single: Option<SingleNoteKind>,
    /// A roll that starts at this slot, in place of any roll still open.
    pub opens: Option<RendaKind>,
    /// Whether the roll still open ends at this slot.
    pub closes: bool,
    /// The bar line at the first slot of the measure: the first measure
    /// of a branch has a branch bar line.
    pub bar_line: Option<BarLineKind>,
    /// Whether the measures that follow are still the first of a branch.
    pub first_measure_in_branch: bool,
}

/// What the note slot `index` of a measure writes, `note` being what its
/// digit stands for: a single note or a roll start as written; an `8` ends
/// the roll still open, and nothing when none is; the first slot writes the
/// measure's bar line, after which no measure is the first of its branch.
pub fn slot_effect(note: DigitNote, renda_open: bool, index: usize, first_measure_in_branch: bool) -> (r:
    SlotEffect)
    ensures
        r.single == match note {
            DigitNote::Single(kind) => Some(kind),
            _ => None,
        },
        r.opens == match note {
            DigitNote::Renda(kind) => Some(kind),
            _ => None,
        },
        r.closes == (note is RendaEnd && renda_open),
        index == 0 ==> r.bar_line == Some(
            if first_measure_in_branch {
                BarLineKind::Branch
            } else {
                BarLineKind::Normal
            },
        ),
        index != 0 ==> r.bar_line is None,
        r.first_measure_in_branch == (first_measure_in_branch && index != 0),
{
    let closes = match note {
        DigitNote::RendaEnd => renda_open,
        _ => false,
    };
    let (single, opens) = match note {
        DigitNote::Single(kind) => (Some(kind), None),
        DigitNote::Renda(kind) => (None, Some(kind)),
        _ => (None, None),
    };
    let bar_line = if index == 0 {
        Some(
            if first_measure_in_branch {
                BarLineKind::Branch
            } else {
                BarLineKind::Normal
            },
        )
    } else {
        None
    };
    SlotEffect {
        single,
        opens,
        closes,
        bar_line,
        first_measure_in_branch: first_measure_in_branch && index != 0,
    }
}

/// Law: the digits `1` to `4` are the four single notes: `1` and `3` are
/// dons and `2` and `4` kas, `1` and `2` small and `3` and `4` large; no two
/// of them read alike.
pub proof fn lemma_single_digits(c: char, quota: u64)
    requires
        '1' <= c <= '4',
    ensures
        digit_note(c, quota) matches DigitNote::Single(k) && {
            &&& (k.color == NoteColor::Don <==> (c == '1' || c == '3'))
            &&& (k.color == NoteColor::Ka <==> (c == '2' || c == '4'))
            &&& (k.size == NoteSize::Large <==> (c == '3' || c == '4'))
            &&& (k.size == NoteSize::Small <==> (c == '1' || c == '2'))
        },
{
}

/// Law: `5` and `6` start a drumroll of any color, small and large; `7` a
/// balloon and `9` a potato, each asking for `quota` hits; `8` ends the
/// roll; `0` is a rest; and exactly the balloon and potato digits take a
/// quota from the `BALLOON:` list.
pub proof fn lemma_roll_digits(c: char, quota: u64)
    requires
        '0' <= c <= '9',
    ensures
        c == '5' ==> (digit_note(c, quota) matches DigitNote::Renda(RendaKind::Unlimited(u))
            && u.size == NoteSize::Small),
        c == '6' ==> (digit_note(c, quota) matches DigitNote::Renda(RendaKind::Unlimited(u))
            && u.size == NoteSize::Large),
        c == '7' ==> (digit_note(c, quota) matches DigitNote::Renda(RendaKind::Quota(q)) && q.kind
            == QuotaRendaKind::Balloon && q.quota == quota),
        c == '9' ==> (digit_note(c, quota) matches DigitNote::Renda(RendaKind::Quota(q)) && q.kind
            == QuotaRendaKind::Potato && q.quota == quota),
        c == '8' <==> digit_note(c, quota) is RendaEnd,
        c == '0' <==> digit_note(c, quota) is Rest,
        takes_quota(c) <==> digit_note(c, quota) matches DigitNote::Renda(RendaKind::Quota(_)),
{
}

/// Reads the note digit `c`.  A balloon or a potato takes the first quota
/// left in `balloons`, or [`DEFAULT_QUOTA`] when none is left.
pub fn read_note_digit(c: char, balloons: &mut VecDeque<u64>) -> (r: DigitNote)
    requires
        '0' <= c <= '9',
    ensures
        takes_quota(c) && old(balloons)@.len() > 0 ==> {
            &&& r == digit_note(c, old(balloons)@[0])
            &&& final(balloons)@ == old(balloons)@.skip(1)
        },
        !(takes_quota(c) && old(balloons)@.len() > 0) ==> {
            &&& r == digit_note(c, DEFAULT_QUOTA)
            &&& final(balloons)@ == old(balloons)@
        },
{
    let single = |color: NoteColor, size: NoteSize| -> (r: DigitNote)
        ensures
            r == DigitNote::Single(SingleNoteKind { color, size }),
        { DigitNote::Single(SingleNoteKind { color, size }) };
    if c == '1' {
        single(NoteColor::Don, NoteSize::Small)
    } else if c == '2' {
        single(NoteColor::Ka, NoteSize::Small)
    } else if c == '3' {
        single(NoteColor::Don, NoteSize::Large)
    } else if c == '4' {
        single(NoteColor::Ka, NoteSize::Large)
    } else if c == '5' {
        DigitNote::Renda(RendaKind::Unlimited(UnlimitedRenda { size: NoteSize::Small, info: NoInfo }))
    } else if c == '6' {
        DigitNote::Renda(RendaKind::Unlimited(UnlimitedRenda { size: NoteSize::Large, info: NoInfo }))
    } else if c == '8' {
        DigitNote::RendaEnd
    } else if c == '7' || c == '9' {
        let quota = match balloons.pop_front() {
            Some(q) => q,
            None => DEFAULT_QUOTA,
        };
        proof {
            assert(old(balloons)@.subrange(1, old(balloons)@.len() as int) =~= old(balloons)@.skip(1));
        }
        let kind = if c == '7' {
            QuotaRendaKind::Balloon
        } else {
            QuotaRendaKind::Potato
        };
        DigitNote::Renda(RendaKind::Quota(QuotaRenda { kind, quota, info: NoInfo }))
    } else {
        DigitNote::Rest
    }
}

/// The number of note digits among `elems`.
pub open spec fn count_notes<V>(elems: Seq<TjaElement<V>>) -> nat
    decreases elems.len(),
{
    if elems.len() == 0 {
        0
    } else {
        (if elems[0] is NoteChar {
            1nat
        } else {
            0nat
        }) + count_notes(elems.skip(1))
    }
}

/// A measure without any note digit is read as a single rest.
pub open spec fn padded<V>(elems: Seq<TjaElement<V>>) -> Seq<TjaElement<V>> {
    if count_notes(elems) == 0 {
        elems.push(TjaElement::NoteChar('0'))
    } else {
        elems
    }
}

/// The number of note slots of a measure: its digits, at least one.
pub open spec fn notes_count_of<V>(elems: Seq<TjaElement<V>>) -> nat {
    if count_notes(elems) == 0 {
        1
    } else {
        count_notes(elems)
    }
}

/// Tempo elements, the ones a first branch shares with the later ones.
pub open spec fn is_shared_kind<V>(e: TjaElement<V>) -> bool {
    e is BpmChange || e is Measure || e is Delay
}

/// What an element of the measure does, given whether notes and tempo
/// elements are read and how many notes came before it.
pub open spec fn element_steps<V>(e: TjaElement<V>, notes: bool, tempo: bool, n: int) -> Seq<
    MeasureStep<V>,
> {
    match e {
        TjaElement::NoteChar(c) => if notes {
            seq![MeasureStep::Note { digit: c, index: n as usize }]
        } else {
            seq![]
        },
        TjaElement::BpmChange(_) | TjaElement::Measure(_) | TjaElement::Delay(_) => if tempo {
            seq![MeasureStep::Apply(e)]
        } else {
            seq![]
        },
        _ => seq![MeasureStep::Apply(e)],
    }
}

/// How far the note count moves past an element.
pub open spec fn note_advance<V>(e: TjaElement<V>, notes: bool) -> int {
    if notes && e is NoteChar {
        1
    } else {
        0
    }
}

/// The end of the run of shared elements from `s` on that are due once `n`
/// of this measure's `notes_count` notes have been read.
pub open spec fn replay_end<V>(
    shared: Seq<(usize, TjaElement<V>)>,
    total: usize,
    notes_count: usize,
    n: int,
    s: int,
) -> int
    decreases shared.len() - s,
{
    if s < 0 || s >= shared.len() || !shared_element_due_spec(
        shared[s].0,
        total,
        notes_count,
        n as usize,
    ) {
        s
    } else {
        replay_end(shared, total, notes_count, n, s + 1)
    }
}

/// The replay steps for the shared elements `shared[s..e]`.
pub open spec fn replays<V>(shared: Seq<(usize, TjaElement<V>)>, s: int, e: int) -> Seq<
    MeasureStep<V>,
> {
    shared.subrange(s, e).map_values(|p: (usize, TjaElement<V>)| MeasureStep::Replay(p.1))
}

/// The steps for `elems[k..]`, with the shared elements replayed from `s`
/// on and `n` notes read so far: before each element, the shared elements
/// that are due; then what the element does.
pub open spec fn plan_from<V>(
    elems: Seq<TjaElement<V>>,
    notes: bool,
    tempo: bool,
    shared: Seq<(usize, TjaElement<V>)>,
    total: usize,
    notes_count: usize,
    k: int,
    s: int,
    n: int,
) -> Seq<MeasureStep<V>>
    decreases elems.len() - k,
{
    if k < 0 || k >= elems.len() {
        seq![]
    } else {
        let e = replay_end(shared, total, notes_count, n, s);
        replays(shared, s, e) + element_steps(elems[k], notes, tempo, n) + plan_from(
            elems,
            notes,
            tempo,
            shared,
            total,
            notes_count,
            k + 1,
            e,
            n + note_advance(elems[k], notes),
        )
    }
}

/// The tempo elements of `elems[k..]`, each with the number of notes read
/// before it, `n` of them before `elems[k]`.
pub open spec fn recorded_from<V>(elems: Seq<TjaElement<V>>, notes: bool, k: int, n: int) -> Seq<
    (usize, TjaElement<V>),
>
    decreases elems.len() - k,
{
    if k < 0 || k >= elems.len() {
        seq![]
    } else {
        (if is_shared_kind(elems[k]) {
            seq![(n as usize, elems[k])]
        } else {
            seq![]
        }) + recorded_from(elems, notes, k + 1, n + note_advance(elems[k], notes))
    }
}

/// The note count and the shared elements that a measure replays: those of
/// the first branch's measure at the same index, in a later branch.
pub open spec fn replay_source<S, V>(context: &BranchContext<S, TjaElement<V>>) -> (usize, Seq<
    (usize, TjaElement<V>),
>) {
    match context {
        BranchContext::Subsequent(c) => if c.measure_index < c.shared_elements@.len() {
            (
                c.shared_elements@[c.measure_index as int].0,
                c.shared_elements@[c.measure_index as int].1@,
            )
        } else {
            (0, seq![])
        },
        _ => (0, seq![]),
    }
}

/// The steps of closing the measure `elements` in `context`; `read_notes`
/// is false where a branch command closes the measure, whose notes are then
/// dropped.
pub open spec fn measure_steps<S, V>(
    context: &BranchContext<S, TjaElement<V>>,
    elements: Seq<TjaElement<V>>,
    read_notes: bool,
) -> Seq<MeasureStep<V>> {
    match mode_of(context) {
        MeasureMode::Skip => seq![],
        MeasureMode::Read { notes, tempo } => plan_from(
            padded(elements),
            notes && read_notes,
            tempo,
            replay_source(context).1,
            replay_source(context).0,
            notes_count_of(elements) as usize,
            0,
            0,
            0,
        ),
    }
}

proof fn lemma_count_notes_step<V>(elems: Seq<TjaElement<V>>, i: int)
    requires
        0 <= i < elems.len(),
    ensures
        count_notes(elems.subrange(i, elems.len() as int)) == (if elems[i] is NoteChar {
            1nat
        } else {
            0nat
        }) + count_notes(elems.subrange(i + 1, elems.len() as int)),
{
    assert(elems.subrange(i, elems.len() as int).skip(1) =~= elems.subrange(
        i + 1,
        elems.len() as int,
    ));
}

proof fn lemma_count_notes_bound<V>(elems: Seq<TjaElement<V>>)
    ensures
        count_notes(elems) <= elems.len(),
    decreases elems.len(),
{
    if elems.len() > 0 {
        lemma_count_notes_bound(elems.skip(1));
    }
}

/// The number of note digits among `elements`.
pub fn count_note_chars<V>(elements: &Vec<TjaElement<V>>) -> (r: usize)
    ensures
        r == count_notes(elements@),
{
    let mut i = elements.len();
    let mut c: usize = 0;
    proof {
        assert(elements@.subrange(i as int, elements@.len() as int) =~= Seq::<
            TjaElement<V>,
        >::empty());
    }
    while i > 0
        invariant
            i <= elements.len(),
            c == count_notes(elements@.subrange(i as int, elements@.len() as int)),
        decreases i,
    {
        i = i - 1;
        proof {
            lemma_count_notes_step(elements@, i as int);
            lemma_count_notes_bound(elements@.subrange(i as int + 1, elements@.len() as int));
        }
        match &elements[i] {
            TjaElement::NoteChar(_) => {
                c = c + 1;
            },
            _ => {},
        }
    }
    proof {
        assert(elements@.subrange(0, elements@.len() as int) =~= elements@);
    }
    c
}

proof fn lemma_replay_end_bounds<V>(
    shared: Seq<(usize, TjaElement<V>)>,
    total: usize,
    notes_count: usize,
    n: int,
    s: int,
)
    requires
        0 <= s <= shared.len(),
    ensures
        s <= replay_end(shared, total, notes_count, n, s) <= shared.len(),
    decreases shared.len() - s,
{
    if s < shared.len() && shared_element_due_spec(shared[s].0, total, notes_count, n as usize) {
        lemma_replay_end_bounds(shared, total, notes_count, n, s + 1);
    }
}

/// The elements of a recorded list, without their positions.
pub open spec fn elements_of<V>(shared: Seq<(usize, TjaElement<V>)>) -> Seq<TjaElement<V>> {
    shared.map_values(|p: (usize, TjaElement<V>)| p.1)
}

/// The number of note steps among `steps`.
pub open spec fn note_steps<V>(steps: Seq<MeasureStep<V>>) -> nat
    decreases steps.len(),
{
    if steps.len() == 0 {
        0
    } else {
        (if steps[0] is Note {
            1nat
        } else {
            0nat
        }) + note_steps(steps.skip(1))
    }
}

/// The elements replayed by `steps`, in order.
pub open spec fn replayed<V>(steps: Seq<MeasureStep<V>>) -> Seq<TjaElement<V>>
    decreases steps.len(),
{
    if steps.len() == 0 {
        seq![]
    } else {
        (match steps[0] {
            MeasureStep::Replay(e) => seq![e],
            _ => seq![],
        }) + replayed(steps.skip(1))
    }
}

proof fn lemma_steps_add<V>(a: Seq<MeasureStep<V>>, b: Seq<MeasureStep<V>>)
    ensures
        note_steps(a + b) == note_steps(a) + note_steps(b),
        replayed(a + b) == replayed(a) + replayed(b),
    decreases a.len(),
{
    if a.len() == 0 {
        assert(a + b =~= b);
        assert(replayed(a) + replayed(b) =~= replayed(b));
    } else {
        assert((a + b).skip(1) =~= a.skip(1) + b);
        lemma_steps_add(a.skip(1), b);
        let head = match a[0] {
            MeasureStep::Replay(e) => seq![e],
            _ => seq![],
        };
        assert(head + replayed(a.skip(1) + b) =~= (head + replayed(a.skip(1))) + replayed(b));
    }
}

proof fn lemma_replays_content<V>(shared: Seq<(usize, TjaElement<V>)>, s: int, e: int)
    requires
        0 <= s <= e <= shared.len(),
    ensures
        note_steps(replays(shared, s, e)) == 0,
        replayed(replays(shared, s, e)) == elements_of(shared.subrange(s, e)),
    decreases e - s,
{
    if s == e {
        assert(replays(shared, s, e) =~= Seq::<MeasureStep<V>>::empty());
        assert(elements_of(shared.subrange(s, e)) =~= Seq::<
            TjaElement<V>,
        >::empty());
    } else {
        lemma_replays_content(shared, s + 1, e);
        assert(replays(shared, s, e).skip(1) =~= replays(shared, s + 1, e));
        assert(elements_of(shared.subrange(s, e)) =~= seq![
            shared[s].1,
        ] + elements_of(shared.subrange(s + 1, e)));
    }
}

proof fn lemma_element_steps_content<V>(e: TjaElement<V>, notes: bool, tempo: bool, n: int)
    ensures
        note_steps(element_steps(e, notes, tempo, n)) == note_advance(e, notes),
        replayed(element_steps(e, notes, tempo, n)) == Seq::<TjaElement<V>>::empty(),
{
    let steps = element_steps(e, notes, tempo, n);
    let empty = Seq::<MeasureStep<V>>::empty();
    assert(note_steps(empty) == 0);
    assert(replayed(empty) =~= Seq::<TjaElement<V>>::empty());
    if steps.len() > 0 {
        assert(steps.skip(1) =~= empty);
    }
    assert(replayed(steps) =~= Seq::<TjaElement<V>>::empty());
}

proof fn lemma_plan_content<V>(
    elems: Seq<TjaElement<V>>,
    notes: bool,
    tempo: bool,
    shared: Seq<(usize, TjaElement<V>)>,
    total: usize,
    notes_count: usize,
    k: int,
    s: int,
    n: int,
)
    requires
        0 <= k <= elems.len(),
        0 <= s <= shared.len(),
    ensures
        note_steps(plan_from(elems, notes, tempo, shared, total, notes_count, k, s, n)) == (if notes {
            count_notes(elems.subrange(k, elems.len() as int))
        } else {
            0
        }),
        exists|t: int|
            s <= t <= shared.len() && replayed(
                plan_from(elems, notes, tempo, shared, total, notes_count, k, s, n),
            ) == #[trigger] elements_of(shared.subrange(s, t)),
    decreases elems.len() - k,
{
    let plan = plan_from(elems, notes, tempo, shared, total, notes_count, k, s, n);
    if k == elems.len() {
        assert(elems.subrange(k, elems.len() as int) =~= Seq::<TjaElement<V>>::empty());
        assert(elements_of(shared.subrange(s, s)) =~= Seq::<
            TjaElement<V>,
        >::empty());
        assert(replayed(plan) =~= Seq::<TjaElement<V>>::empty());
    } else {
        let e = replay_end(shared, total, notes_count, n, s);
        lemma_replay_end_bounds(shared, total, notes_count, n, s);
        let n2 = n + note_advance(elems[k], notes);
        let r = replays(shared, s, e);
        let b = element_steps(elems[k], notes, tempo, n);
        let rest = plan_from(elems, notes, tempo, shared, total, notes_count, k + 1, e, n2);
        lemma_plan_content(elems, notes, tempo, shared, total, notes_count, k + 1, e, n2);
        lemma_replays_content(shared, s, e);
        lemma_element_steps_content(elems[k], notes, tempo, n);
        lemma_steps_add(r, b);
        lemma_steps_add(r + b, rest);
        lemma_count_notes_step(elems, k);
        let t = choose|t: int|
            e <= t <= shared.len() && replayed(rest) == #[trigger] elements_of(shared.subrange(e, t));
        assert(elements_of(shared.subrange(s, t)) =~= elements_of(shared.subrange(
            s,
            e,
        )) + elements_of(shared.subrange(e, t)));
        assert(replayed(plan) =~= elements_of(shared.subrange(s, t)));
    }
}

proof fn lemma_count_notes_push<V>(elems: Seq<TjaElement<V>>, x: TjaElement<V>)
    ensures
        count_notes(elems.push(x)) == count_notes(elems) + (if x is NoteChar {
            1nat
        } else {
            0nat
        }),
    decreases elems.len(),
{
    if elems.len() > 0 {
        assert(elems.push(x).skip(1) =~= elems.skip(1).push(x));
        assert(elems.push(x)[0] == elems[0]);
        lemma_count_notes_push(elems.skip(1), x);
    } else {
        assert(elems.push(x).skip(1) =~= Seq::<TjaElement<V>>::empty());
        assert(count_notes(Seq::<TjaElement<V>>::empty()) == 0);
        assert(elems.push(x)[0] == x);
    }
}

/// Law: closing a measure whose notes are read yields one note step per
/// note slot of the measure, and none where its notes are dropped; the
/// tempo elements it replays are, in order, the first ones recorded by the
/// block's first branch for the same measure.
pub proof fn lemma_measure_content<S, V>(
    context: &BranchContext<S, TjaElement<V>>,
    elements: Seq<TjaElement<V>>,
    read_notes: bool,
)
    ensures
        note_steps(measure_steps(context, elements, read_notes)) == (if read_notes && mode_of(
            context,
        ) matches MeasureMode::Read { notes: true, .. } {
            notes_count_of(elements)
        } else {
            0
        }),
        exists|t: int|
            0 <= t <= replay_source(context).1.len() && replayed(
                measure_steps(context, elements, read_notes),
            ) == #[trigger] elements_of(replay_source(context).1.take(t)),
{
    let (total, shared) = replay_source(context);
    let p = padded(elements);
    if count_notes(elements) == 0 {
        lemma_count_notes_push(elements, TjaElement::NoteChar('0'));
    }
    assert(p.subrange(0, p.len() as int) =~= p);
    match mode_of(context) {
        MeasureMode::Skip => {
            assert(elements_of(shared.take(0)) =~= Seq::<
                TjaElement<V>,
            >::empty());
            assert(replayed(Seq::<MeasureStep<V>>::empty()) =~= Seq::<TjaElement<V>>::empty());
        },
        MeasureMode::Read { notes, tempo } => {
            lemma_plan_content(
                p,
                notes && read_notes,
                tempo,
                shared,
                total,
                notes_count_of(elements) as usize,
                0,
                0,
                0,
            );
            let t = choose|t: int|
                0 <= t <= shared.len() && replayed(
                    measure_steps(context, elements, read_notes),
                ) == #[trigger] elements_of(shared.subrange(0, t));
            assert(shared.subrange(0, t) =~= shared.take(t));
        },
    }
}

/// The steps for the measure `elems` (already padded), with the shared
/// elements `shared` of a measure of `total` notes, and the tempo elements
/// it would record as a first branch.
#[verifier::spinoff_prover]
#[verifier::rlimit(40)]
fn plan_measure<V: Copy>(
    elems: &Vec<TjaElement<V>>,
    notes: bool,
    tempo: bool,
    shared: &Vec<(usize, TjaElement<V>)>,
    total: usize,
    notes_count: usize,
) -> (r: (Vec<MeasureStep<V>>, Vec<(usize, TjaElement<V>)>))
    ensures
        r.0@ == plan_from(elems@, notes, tempo, shared@, total, notes_count, 0, 0, 0),
        r.1@ == recorded_from(elems@, notes, 0, 0),
{
    let mut steps: Vec<MeasureStep<V>> = Vec::new();
    let mut recorded: Vec<(usize, TjaElement<V>)> = Vec::new();
    let mut k: usize = 0;
    let mut s: usize = 0;
    let mut n: usize = 0;
    let ghost whole = plan_from(elems@, notes, tempo, shared@, total, notes_count, 0, 0, 0);
    let ghost all_recorded = recorded_from(elems@, notes, 0, 0);
    proof {
        assert(steps@ + whole =~= whole);
        assert(recorded@ + all_recorded =~= all_recorded);
    }
    while k < elems.len()
        invariant
            k <= elems.len(),
            s <= shared.len(),
            n <= k,
            whole == plan_from(elems@, notes, tempo, shared@, total, notes_count, 0, 0, 0),
            all_recorded == recorded_from(elems@, notes, 0, 0),
            steps@ + plan_from(
                elems@,
                notes,
                tempo,
                shared@,
                total,
                notes_count,
                k as int,
                s as int,
                n as int,
            ) == whole,
            recorded@ + recorded_from(elems@, notes, k as int, n as int) == all_recorded,
        decreases elems.len() - k,
    {
        let ghost s0 = s;
        let ghost steps0 = steps@;
        let ghost e = replay_end(shared@, total, notes_count, n as int, s0 as int);
        proof {
            lemma_replay_end_bounds(shared@, total, notes_count, n as int, s0 as int);
            assert(replays(shared@, s0 as int, s0 as int) =~= Seq::<MeasureStep<V>>::empty());
        }
        while s < shared.len() && shared_element_due(shared[s].0, total, notes_count, n)
            invariant
                s0 <= s <= shared.len(),
                e == replay_end(shared@, total, notes_count, n as int, s as int),
                steps@ == steps0 + replays(shared@, s0 as int, s as int),
            decreases shared.len() - s,
        {
            let p = shared[s];
            steps.push(MeasureStep::Replay(p.1));
            proof {
                assert(replays(shared@, s0 as int, s as int + 1) =~= replays(
                    shared@,
                    s0 as int,
                    s as int,
                ).push(MeasureStep::Replay(p.1)));
            }
            s = s + 1;
        }
        assert(e == s);
        let ghost steps1 = steps@;
        let element = elems[k];
        match element {
            TjaElement::NoteChar(c) => {
                if notes {
                    steps.push(MeasureStep::Note { digit: c, index: n });
                    n = n + 1;
                }
            },
            TjaElement::BpmChange(_) | TjaElement::Measure(_) | TjaElement::Delay(_) => {
                if tempo {
                    steps.push(MeasureStep::Apply(element));
                }
                recorded.push((n, element));
            },
            _ => {
                steps.push(MeasureStep::Apply(element));
            },
        }
        proof {
            let rest = plan_from(
                elems@,
                notes,
                tempo,
                shared@,
                total,
                notes_count,
                k as int + 1,
                s as int,
                n as int,
            );
            assert(steps@ =~= steps1 + element_steps(elems@[k as int], notes, tempo, n - note_advance(elems@[k as int], notes)));
            assert(steps0 + (replays(shared@, s0 as int, s as int) + element_steps(
                elems@[k as int],
                notes,
                tempo,
                n - note_advance(elems@[k as int], notes),
            ) + rest) =~= steps@ + rest);
        }
        k = k + 1;
    }
    proof {
        assert(steps@ + Seq::<MeasureStep<V>>::empty() =~= steps@);
        assert(recorded@ + Seq::<(usize, TjaElement<V>)>::empty() =~= recorded@);
    }
    (steps, recorded)
}

/// Closes the measure `elements` in `context`.  `read_notes` is false
/// where a branch command closes it: its notes are then dropped.  In the
/// first branch of a block the measure's tempo elements are recorded; in a
/// later branch the next of the first branch's measures is consumed.
pub fn terminate_measure<S, V: Copy>(
    context: &mut BranchContext<S, TjaElement<V>>,
    elements: Vec<TjaElement<V>>,
    read_notes: bool,
) -> (plan: MeasurePlan<V>)
    requires
        *old(context) matches BranchContext::Subsequent(c) ==> c.measure_index < usize::MAX,
    ensures
        plan.notes_count == notes_count_of(elements@),
        plan.steps@ == measure_steps(&*old(context), elements@, read_notes),
        match *old(context) {
            BranchContext::First(c) => {
                &&& *final(context) matches BranchContext::First(d)
                &&& d.branch_type == c.branch_type
                &&& d.initial_state == c.initial_state
                &&& d.shared_elements@.len() == c.shared_elements@.len() + 1
                &&& d.shared_elements@.drop_last() == c.shared_elements@
                &&& d.shared_elements@.last().0 == plan.notes_count
                &&& d.shared_elements@.last().1@ == recorded_from(
                    padded(elements@),
                    read_notes,
                    0,
                    0,
                )
            },
            BranchContext::Subsequent(c) => *final(context) == BranchContext::<
                S,
                TjaElement<V>,
            >::Subsequent(
                crate::branch_context::SubsequentBranchContext {
                    measure_index: (c.measure_index + 1) as usize,
                    ..c
                },
            ),
            _ => *final(context) == *old(context),
        },
{
    let count = count_note_chars(&elements);
    proof {
        lemma_count_notes_bound(elements@);
    }
    let notes_count: usize = if count == 0 {
        1
    } else {
        count
    };
    let mut elems = elements;
    if count == 0 {
        elems.push(TjaElement::NoteChar('0'));
    }
    match context.measure_mode() {
        MeasureMode::Skip => MeasurePlan { notes_count, steps: Vec::new() },
        MeasureMode::Read { notes, tempo } => {
            let parse_notes = notes && read_notes;
            let empty: Vec<(usize, TjaElement<V>)> = Vec::new();
            let (steps, recorded) = match &*context {
                BranchContext::Subsequent(c) => {
                    if c.measure_index < c.shared_elements.len() {
                        let m = &c.shared_elements[c.measure_index];
                        plan_measure(&elems, parse_notes, tempo, &m.1, m.0, notes_count)
                    } else {
                        plan_measure(&elems, parse_notes, tempo, &empty, 0, notes_count)
                    }
                },
                _ => plan_measure(&elems, parse_notes, tempo, &empty, 0, notes_count),
            };
            match context {
                BranchContext::First(c) => {
                    c.shared_elements.push((notes_count, recorded));
                },
                BranchContext::Subsequent(c) => {
                    c.measure_index = c.measure_index + 1;
                },
                _ => {},
            }
            MeasurePlan { notes_count, steps }
        },
    }
}

/// The elements applied by `steps`, in order.
pub open spec fn applied<V>(steps: Seq<MeasureStep<V>>) -> Seq<TjaElement<V>>
    decreases steps.len(),
{
    if steps.len() == 0 {
        seq![]
    } else {
        (match steps[0] {
            MeasureStep::Apply(e) => seq![e],
            _ => seq![],
        }) + applied(steps.skip(1))
    }
}

/// The elements of `elems` that are not note digits, in order.
pub open spec fn commands<V>(elems: Seq<TjaElement<V>>) -> Seq<TjaElement<V>>
    decreases elems.len(),
{
    if elems.len() == 0 {
        seq![]
    } else {
        (if elems[0] is NoteChar {
            seq![]
        } else {
            seq![elems[0]]
        }) + commands(elems.skip(1))
    }
}

proof fn lemma_applied_add<V>(a: Seq<MeasureStep<V>>, b: Seq<MeasureStep<V>>)
    ensures
        applied(a + b) == applied(a) + applied(b),
    decreases a.len(),
{
    if a.len() == 0 {
        assert(a + b =~= b);
        assert(applied(a) + applied(b) =~= applied(b));
    } else {
        assert((a + b).skip(1) =~= a.skip(1) + b);
        lemma_applied_add(a.skip(1), b);
        let head = match a[0] {
            MeasureStep::Apply(e) => seq![e],
            _ => seq![],
        };
        assert(head + applied(a.skip(1) + b) =~= (head + applied(a.skip(1))) + applied(b));
    }
}

proof fn lemma_commands_push_note<V>(elems: Seq<TjaElement<V>>, c: char)
    ensures
        commands(elems.push(TjaElement::NoteChar(c))) == commands(elems),
    decreases elems.len(),
{
    let pushed = elems.push(TjaElement::NoteChar(c));
    if elems.len() == 0 {
        assert(pushed.skip(1) =~= Seq::<TjaElement<V>>::empty());
        assert(commands(Seq::<TjaElement<V>>::empty()) =~= Seq::<TjaElement<V>>::empty());
        assert(pushed[0] is NoteChar);
        assert(commands(pushed) =~= Seq::<TjaElement<V>>::empty() + Seq::<TjaElement<V>>::empty());
    } else {
        assert(pushed.skip(1) =~= elems.skip(1).push(TjaElement::NoteChar(c)));
        lemma_commands_push_note(elems.skip(1), c);
    }
}

/// The commands of `elems` other than the tempo elements, in order.
pub open spec fn commands_without_tempo<V>(elems: Seq<TjaElement<V>>) -> Seq<TjaElement<V>>
    decreases elems.len(),
{
    if elems.len() == 0 {
        seq![]
    } else {
        (if elems[0] is NoteChar || elems[0] is BpmChange || elems[0] is Measure
            || elems[0] is Delay {
            seq![]
        } else {
            seq![elems[0]]
        }) + commands_without_tempo(elems.skip(1))
    }
}

proof fn lemma_applied_of_replays<V>(steps: Seq<MeasureStep<V>>)
    requires
        forall|i: int| 0 <= i < steps.len() ==> #[trigger] steps[i] is Replay,
    ensures
        applied(steps) == Seq::<TjaElement<V>>::empty(),
    decreases steps.len(),
{
    if steps.len() > 0 {
        assert(steps[0] is Replay);
        lemma_applied_of_replays(steps.skip(1));
        assert(applied(steps) =~= Seq::<TjaElement<V>>::empty());
    }
}

proof fn lemma_plan_applies_commands<V>(
    elems: Seq<TjaElement<V>>,
    notes: bool,
    tempo: bool,
    shared: Seq<(usize, TjaElement<V>)>,
    total: usize,
    notes_count: usize,
    k: int,
    s: int,
    n: int,
)
    requires
        0 <= k <= elems.len(),
        0 <= s <= shared.len(),
    ensures
        applied(plan_from(elems, notes, tempo, shared, total, notes_count, k, s, n)) == if tempo {
            commands(elems.skip(k))
        } else {
            commands_without_tempo(elems.skip(k))
        },
    decreases elems.len() - k,
{
    if k == elems.len() {
        assert(elems.skip(k) =~= Seq::<TjaElement<V>>::empty());
        assert(applied(Seq::<MeasureStep<V>>::empty()) =~= Seq::<TjaElement<V>>::empty());
    } else {
        let e = replay_end(shared, total, notes_count, n, s);
        lemma_replay_end_bounds(shared, total, notes_count, n, s);
        let before = replays(shared, s, e);
        lemma_applied_of_replays(before);
        let here = element_steps(elems[k], notes, tempo, n);
        let rest = plan_from(
            elems,
            notes,
            tempo,
            shared,
            total,
            notes_count,
            k + 1,
            e,
            n + note_advance(elems[k], notes),
        );
        lemma_plan_applies_commands(
            elems,
            notes,
            tempo,
            shared,
            total,
            notes_count,
            k + 1,
            e,
            n + note_advance(elems[k], notes),
        );
        lemma_applied_add(before, here);
        lemma_applied_add(before + here, rest);
        assert(applied(Seq::<MeasureStep<V>>::empty()) =~= Seq::<TjaElement<V>>::empty());
        if here.len() > 0 {
            assert(here.skip(1) =~= Seq::<MeasureStep<V>>::empty());
        }
        assert(elems.skip(k).skip(1) =~= elems.skip(k + 1));
        assert(elems.skip(k)[0] == elems[k]);
        let head = if elems[k] is NoteChar {
            Seq::<TjaElement<V>>::empty()
        } else {
            seq![elems[k]]
        };
        let head_without = if elems[k] is NoteChar || elems[k] is BpmChange || elems[k] is Measure
            || elems[k] is Delay {
            Seq::<TjaElement<V>>::empty()
        } else {
            seq![elems[k]]
        };
        if tempo {
            assert(applied(here) =~= head);
        } else {
            assert(applied(here) =~= head_without);
        }
        assert(Seq::<TjaElement<V>>::empty() + applied(here) =~= applied(here));
    }
}

proof fn lemma_commands_without_tempo_push_note<V>(elems: Seq<TjaElement<V>>, c: char)
    ensures
        commands_without_tempo(elems.push(TjaElement::NoteChar(c))) == commands_without_tempo(elems),
    decreases elems.len(),
{
    let pushed = elems.push(TjaElement::NoteChar(c));
    if elems.len() == 0 {
        assert(pushed.skip(1) =~= Seq::<TjaElement<V>>::empty());
        assert(commands_without_tempo(Seq::<TjaElement<V>>::empty()) =~= Seq::<TjaElement<V>>::empty());
        assert(pushed[0] is NoteChar);
        assert(commands_without_tempo(pushed) =~= Seq::<TjaElement<V>>::empty()
            + Seq::<TjaElement<V>>::empty());
    } else {
        assert(pushed.skip(1) =~= elems.skip(1).push(TjaElement::NoteChar(c)));
        lemma_commands_without_tempo_push_note(elems.skip(1), c);
    }
}

/// Law: what closing a measure reads depends on where the score stands.
/// Outside a block and in the first branch of one, every command of the
/// measure is applied, tempo elements (`#BPMCHANGE`, `#MEASURE`, `#DELAY`)
/// included, in the order written, and each note slot is read when notes
/// are read.  Before the first branch of a block, and in a later branch past
/// the first branch's measures, every command is applied but no note is
/// read.  In a later branch within the first branch's measures, every
/// command but the tempo elements is applied (those are replayed from the
/// first branch).  A branch written twice does nothing.
pub proof fn lemma_measure_reads_by_context<S, V>(
    context: &BranchContext<S, TjaElement<V>>,
    elements: Seq<TjaElement<V>>,
    read_notes: bool,
)
    ensures
        ({
            let steps = measure_steps(context, elements, read_notes);
            &&& (context is Outside || context is First) ==> {
                &&& applied(steps) == commands(elements)
                &&& note_steps(steps) == if read_notes {
                    notes_count_of(elements)
                } else {
                    0
                }
            }
            &&& context is Started ==> applied(steps) == commands(elements) && note_steps(steps)
                == 0
            &&& (context matches BranchContext::Subsequent(c) && c.measure_index
                >= c.shared_elements@.len()) ==> applied(steps) == commands(elements)
                && note_steps(steps) == 0
            &&& (context matches BranchContext::Subsequent(c) && c.measure_index
                < c.shared_elements@.len()) ==> {
                &&& applied(steps) == commands_without_tempo(elements)
                &&& note_steps(steps) == if read_notes {
                    notes_count_of(elements)
                } else {
                    0
                }
            }
            &&& context is Duplicate ==> steps.len() == 0
        }),
{
    lemma_measure_content(context, elements, read_notes);
    let p = padded(elements);
    let (total, shared) = replay_source(context);
    assert(p.skip(0) =~= p);
    if count_notes(elements) == 0 {
        lemma_commands_push_note(elements, '0');
        lemma_commands_without_tempo_push_note(elements, '0');
    }
    match mode_of(context) {
        MeasureMode::Skip => {},
        MeasureMode::Read { notes, tempo } => {
            lemma_plan_applies_commands(
                p,
                notes && read_notes,
                tempo,
                shared,
                total,
                notes_count_of(elements) as usize,
                0,
                0,
                0,
            );
        },
    }
}

} // verus!
