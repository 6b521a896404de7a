use std::collections::VecDeque;
use taiko_untitled::branch_context::{
    end_branch, shared_element_due, switch_branch, BranchContext, BranchEnd, FilledBranches,
    MeasureMode,
};
use taiko_untitled::measure::{
    count_note_chars, read_note_digit, slot_effect, terminate_measure, DigitNote, MeasureStep, TjaElement,
    DEFAULT_QUOTA,
};
use taiko_untitled::structs::typed::RendaKind;
use taiko_untitled::structs::{BarLineKind, BranchType, NoteColor, NoteSize, QuotaRendaKind};

type Element = TjaElement<u32>;
type Context = BranchContext<u32, Element>;

fn notes(digits: &str) -> Vec<Element> {
    digits.chars().map(TjaElement::NoteChar).collect()
}

fn note_indices(steps: &[MeasureStep<u32>]) -> Vec<(char, usize)> {
    steps
        .iter()
        .filter_map(|s| match s {
            MeasureStep::Note { digit, index } => Some((*digit, *index)),
            _ => None,
        })
        .collect()
}

fn replayed(steps: &[MeasureStep<u32>]) -> Vec<String> {
    steps
        .iter()
        .filter_map(|s| match s {
            MeasureStep::Replay(e) => Some(format!("{:?}", e)),
            _ => None,
        })
        .collect()
}

#[test]
fn notes_are_numbered_in_order_outside_branches() {
    let mut context: Context = BranchContext::Outside;
    let mut elements = notes("10");
    elements.insert(1, TjaElement::BpmChange(180));
    elements.push(TjaElement::NoteChar('2'));
    let plan = terminate_measure(&mut context, elements, true);
    assert_eq!(plan.notes_count, 3);
    assert_eq!(note_indices(&plan.steps), vec![('1', 0), ('0', 1), ('2', 2)]);
    assert!(matches!(plan.steps[1], MeasureStep::Apply(TjaElement::BpmChange(180))));
    assert!(matches!(context, BranchContext::Outside));
}

#[test]
fn an_empty_measure_is_one_rest() {
    let mut context: Context = BranchContext::Outside;
    let plan = terminate_measure(&mut context, vec![TjaElement::Gogo(true)], true);
    assert_eq!(plan.notes_count, 1);
    assert_eq!(plan.steps.len(), 2);
    assert!(matches!(plan.steps[0], MeasureStep::Apply(TjaElement::Gogo(true))));
    assert!(matches!(plan.steps[1], MeasureStep::Note { digit: '0', index: 0 }));
}

#[test]
fn a_measure_closed_by_a_command_drops_its_notes() {
    let mut context: Context = BranchContext::Outside;
    let mut elements = notes("11");
    elements.push(TjaElement::Scroll(2));
    let plan = terminate_measure(&mut context, elements, false);
    assert_eq!(plan.notes_count, 2);
    assert_eq!(note_indices(&plan.steps), vec![]);
    assert_eq!(plan.steps.len(), 1);
}

#[test]
fn before_the_first_branch_only_commands_act() {
    let mut context: Context = BranchContext::Started;
    let mut elements = notes("1");
    elements.push(TjaElement::Delay(5));
    let plan = terminate_measure(&mut context, elements, true);
    assert_eq!(note_indices(&plan.steps), vec![]);
    assert!(matches!(plan.steps[0], MeasureStep::Apply(TjaElement::Delay(5))));
}

#[test]
fn later_branches_replay_the_first_branchs_tempo() {
    let (context, restore) = switch_branch(BranchContext::Started, BranchType::Normal, 7);
    assert!(!restore);
    let mut context: Context = context;
    // first branch: 1 BPM 1  => the tempo change comes after one of two notes
    let elements = vec![
        TjaElement::NoteChar('1'),
        TjaElement::BpmChange(200),
        TjaElement::NoteChar('1'),
    ];
    let plan = terminate_measure(&mut context, elements, true);
    assert_eq!(plan.notes_count, 2);
    match &context {
        BranchContext::First(first) => {
            assert_eq!(first.shared_elements.len(), 1);
            assert_eq!(first.shared_elements[0].0, 2);
            assert_eq!(first.shared_elements[0].1.len(), 1);
            assert_eq!(first.shared_elements[0].1[0].0, 1);
        }
        _ => panic!("still in the first branch"),
    }
    let (context, restore) = switch_branch(context, BranchType::Master, 9);
    assert!(restore);
    let mut context: Context = context;
    assert_eq!(context.current_branch(), Some(BranchType::Master));
    assert_eq!(context.measure_mode(), MeasureMode::Read { notes: true, tempo: false });
    // later branch with four notes: the change is due before the third
    let mut elements = notes("3333");
    elements.insert(1, TjaElement::BpmChange(999));
    let plan = terminate_measure(&mut context, elements, true);
    assert_eq!(plan.notes_count, 4);
    assert_eq!(replayed(&plan.steps), vec!["BpmChange(200)".to_string()]);
    let position = plan
        .steps
        .iter()
        .position(|s| matches!(s, MeasureStep::Replay(_)))
        .unwrap();
    assert!(matches!(plan.steps[position + 1], MeasureStep::Note { index: 2, .. }));
    // the branch's own tempo change is not applied
    assert!(!plan
        .steps
        .iter()
        .any(|s| matches!(s, MeasureStep::Apply(TjaElement::BpmChange(_)))));
    match &context {
        BranchContext::Subsequent(c) => assert_eq!(c.measure_index, 1),
        _ => panic!("in a later branch"),
    }
    // past the first branch's measures, notes are dropped and tempo read
    assert_eq!(context.measure_mode(), MeasureMode::Read { notes: false, tempo: true });
    match end_branch(context) {
        BranchEnd::Restore(state) => assert_eq!(state, 9),
        _ => panic!("a later branch restores the end state"),
    }
}

#[test]
fn a_branch_written_twice_is_skipped() {
    let (context, _) = switch_branch(BranchContext::<u32, Element>::Started, BranchType::Normal, 0);
    let (context, _) = switch_branch(context, BranchType::Expert, 1);
    let (context, _) = switch_branch(context, BranchType::Expert, 2);
    let mut context: Context = context;
    assert_eq!(context.measure_mode(), MeasureMode::Skip);
    let plan = terminate_measure(&mut context, notes("1111"), true);
    assert!(plan.steps.is_empty());
    assert!(matches!(context, BranchContext::Duplicate(_)));
}

#[test]
fn switching_outside_a_block_changes_nothing() {
    let (context, restore) = switch_branch(BranchContext::<u32, Element>::Outside, BranchType::Master, 3);
    assert!(!restore);
    assert!(matches!(context, BranchContext::Outside));
    assert!(matches!(end_branch(context), BranchEnd::NotStarted));
    assert!(matches!(end_branch(BranchContext::<u32, Element>::Started), BranchEnd::Empty));
}

#[test]
fn filled_branches_remember_what_was_written() {
    let mut filled = FilledBranches::default();
    assert!(!filled.mark(BranchType::Expert));
    assert!(filled.mark(BranchType::Expert));
    assert!(!filled.mark(BranchType::Normal));
    assert!(filled.normal && filled.expert && !filled.master);
}

#[test]
fn shared_elements_are_due_by_relative_position() {
    // position 1 of 2 is due at note 2 of 4, not at note 1 of 4
    assert!(shared_element_due(1, 2, 4, 2));
    assert!(!shared_element_due(1, 2, 4, 1));
    // once due, still due after more notes
    assert!(shared_element_due(1, 2, 4, 3));
    assert!(shared_element_due(1, 2, 4, 4));
    // saturating products still compare
    assert!(shared_element_due(usize::MAX, 1, 2, usize::MAX));
    assert!(!shared_element_due(usize::MAX, 1, 2, 0));
}

#[test]
fn digits_count_and_decode() {
    let mut elements = notes("1020");
    elements.push(TjaElement::Gogo(false));
    assert_eq!(count_note_chars(&elements), 4);
    let mut balloons: VecDeque<u64> = VecDeque::from(vec![12, 3]);
    match read_note_digit('4', &mut balloons) {
        DigitNote::Single(kind) => {
            assert_eq!(kind.color, NoteColor::Ka);
            assert!(matches!(kind.size, NoteSize::Large));
        }
        _ => panic!("4 is a large ka"),
    }
    match read_note_digit('7', &mut balloons) {
        DigitNote::Renda(RendaKind::Quota(q)) => {
            assert_eq!(q.quota, 12);
            assert!(matches!(q.kind, QuotaRendaKind::Balloon));
        }
        _ => panic!("7 is a balloon"),
    }
    match read_note_digit('9', &mut balloons) {
        DigitNote::Renda(RendaKind::Quota(q)) => {
            assert_eq!(q.quota, 3);
            assert!(matches!(q.kind, QuotaRendaKind::Potato));
        }
        _ => panic!("9 is a potato"),
    }
    match read_note_digit('7', &mut balloons) {
        DigitNote::Renda(RendaKind::Quota(q)) => assert_eq!(q.quota, DEFAULT_QUOTA),
        _ => panic!("7 is a balloon"),
    }
    assert!(balloons.is_empty());
    assert!(matches!(read_note_digit('8', &mut balloons), DigitNote::RendaEnd));
    assert!(matches!(read_note_digit('0', &mut balloons), DigitNote::Rest));
    match read_note_digit('6', &mut balloons) {
        DigitNote::Renda(RendaKind::Unlimited(u)) => assert!(matches!(u.size, NoteSize::Large)),
        _ => panic!("6 is a large drumroll"),
    }
}

#[test]
fn a_slot_writes_its_note_and_the_first_slot_the_bar_line() {
    let mut balloons = VecDeque::new();
    let first = slot_effect(read_note_digit('1', &mut balloons), false, 0, true);
    assert!(matches!(first.single, Some(k) if k.color == NoteColor::Don && matches!(k.size, NoteSize::Small)));
    assert!(first.opens.is_none() && !first.closes);
    assert!(matches!(first.bar_line, Some(BarLineKind::Branch)));
    assert!(!first.first_measure_in_branch);

    let later = slot_effect(read_note_digit('7', &mut balloons), false, 3, true);
    assert!(later.single.is_none());
    assert!(matches!(later.opens, Some(RendaKind::Quota(q)) if q.quota == DEFAULT_QUOTA));
    assert!(later.bar_line.is_none());
    assert!(later.first_measure_in_branch);

    let plain_bar = slot_effect(read_note_digit('0', &mut balloons), false, 0, false);
    assert!(matches!(plain_bar.bar_line, Some(BarLineKind::Normal)));
    assert!(plain_bar.single.is_none() && plain_bar.opens.is_none() && !plain_bar.closes);
}

#[test]
fn an_eight_ends_only_a_roll_that_is_open() {
    let mut balloons = VecDeque::new();
    assert!(slot_effect(read_note_digit('8', &mut balloons), true, 1, false).closes);
    assert!(!slot_effect(read_note_digit('8', &mut balloons), false, 1, false).closes);
}
