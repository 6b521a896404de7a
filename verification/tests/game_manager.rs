use std::collections::VecDeque;
use taiko_untitled::game_manager::{
    branch_by_candidate, check_on_timeline, filter_out_and_iter, gauge_good_delta, BadTiming,
    GameState, GaugeDelta, Judge, JudgeOnTimeline, JudgeOrPassed, NoteTiming,
    QuotaRendaState, RendaKind, RendaState, SingleNote, SingleNoteInfo, GAUGE_MAX,
};
use taiko_untitled::structs::typed::{NoInfo, QuotaRenda, UnlimitedRenda};
use taiko_untitled::structs::{BranchType, NoteColor, NoteSize, QuotaRendaKind, SingleNoteKind};

/// The arcade game counts the gauge as an integer of at most 10000; an f64
/// holds every such value exactly.
#[test]
fn f64_has_enough_precision() {
    let mut f = 0.0;
    for i in 0..=10000 {
        assert_eq!(f, i as f32);
        f += 1.0;
    }
}

fn don(delta: GaugeDelta) -> SingleNote {
    SingleNote {
        kind: SingleNoteKind { color: NoteColor::Don, size: NoteSize::Small },
        info: SingleNoteInfo { judge: None, gauge_delta: delta },
    }
}

#[test]
fn good_delta_spreads_13113_over_the_longest_combo() {
    assert_eq!(gauge_good_delta(&vec![]), 0);
    assert_eq!(gauge_good_delta(&vec![None]), 13113);
    assert_eq!(gauge_good_delta(&vec![None, None, None]), 4371);
    // 13113 / 2 = 6556.5 rounds away from zero
    assert_eq!(gauge_good_delta(&vec![None, None]), 6557);
    // the master branch has the longest combo: 2 common notes + 3 master notes
    let branches = vec![
        None,
        None,
        Some(BranchType::Normal),
        Some(BranchType::Master),
        Some(BranchType::Master),
        Some(BranchType::Master),
        Some(BranchType::Expert),
    ];
    assert_eq!(gauge_good_delta(&branches), (13113.0f64 / 5.0).round() as i64);
    for n in 1..3000usize {
        let notes = vec![None; n];
        assert_eq!(gauge_good_delta(&notes), (13113.0 / n as f64).round() as i64);
    }
}

#[test]
fn gauge_delta_from_good() {
    let d = GaugeDelta::from_good(437);
    assert_eq!((d.good, d.ok, d.bad), (437, 218, -874));
    assert_eq!(d.get(Judge::Good), 437);
    assert_eq!(d.get(Judge::Okay), 218);
    assert_eq!(d.get(Judge::Bad), -874);
}

#[test]
fn first_judge_counts_and_later_ones_do_not() {
    let mut state = GameState::default();
    let mut note = don(GaugeDelta::from_good(500));
    state.update_with_judge(&mut note, JudgeOrPassed::Judge(Judge::Good));
    assert_eq!((state.good_count, state.combo, state.gauge), (1, 1, 500));
    state.update_with_judge(&mut note, JudgeOrPassed::Judge(Judge::Bad));
    assert_eq!((state.good_count, state.bad_count, state.combo, state.gauge), (1, 0, 1, 500));
    assert!(matches!(note.info.judge, Some(JudgeOrPassed::Judge(Judge::Bad))));

    let mut passed = don(GaugeDelta::from_good(500));
    state.update_with_judge(&mut passed, JudgeOrPassed::Passed);
    assert_eq!((state.bad_count, state.combo, state.gauge), (1, 0, 0));
}

#[test]
fn gauge_stays_within_bounds() {
    let mut state = GameState::default();
    for _ in 0..30 {
        let mut note = don(GaugeDelta::from_good(1000));
        state.update_with_judge(&mut note, JudgeOrPassed::Judge(Judge::Good));
    }
    assert_eq!(state.gauge, GAUGE_MAX);
    assert_eq!(state.combo, 30);
    let mut note = don(GaugeDelta::from_good(13113));
    state.update_with_judge(&mut note, JudgeOrPassed::Judge(Judge::Bad));
    assert_eq!(state.gauge, 0);
    assert_eq!(state.combo, 0);
}

#[test]
fn judge_count_mut_reaches_each_count() {
    let mut state = GameState::default();
    *state.judge_count_mut(Judge::Good) += 3;
    *state.judge_count_mut(Judge::Okay) += 2;
    *state.judge_count_mut(Judge::Bad) += 1;
    assert_eq!((state.good_count, state.ok_count, state.bad_count), (3, 2, 1));
}

#[test]
fn single_note_checks() {
    let mut state = GameState::default();
    let mut note = don(GaugeDelta::from_good(100));
    // wrong color: keep looking
    let r = state.check_single_note(&mut note, &Some(NoteColor::Ka), true, NoteTiming::Good);
    assert!(matches!(r, JudgeOnTimeline::Continue));
    assert!(note.info.judge.is_none());
    // other branch: keep looking
    let r = state.check_single_note(&mut note, &Some(NoteColor::Don), false, NoteTiming::Good);
    assert!(matches!(r, JudgeOnTimeline::Continue));
    // an ok hit
    let r = state.check_single_note(&mut note, &Some(NoteColor::Don), true, NoteTiming::Okay);
    assert!(matches!(r, JudgeOnTimeline::BreakWith(Judge::Okay)));
    assert_eq!((state.ok_count, state.combo, state.gauge), (1, 1, 50));
    assert!(!note.info.visible());
    // a judged note within the window is skipped
    let r = state.check_single_note(&mut note, &Some(NoteColor::Don), true, NoteTiming::Good);
    assert!(matches!(r, JudgeOnTimeline::Continue));
    // an unjudged note left behind is passed
    let mut late = don(GaugeDelta::from_good(100));
    let r = state.check_single_note(&mut late, &None, true, NoteTiming::Past);
    assert!(matches!(r, JudgeOnTimeline::Past));
    assert!(matches!(late.info.judge, Some(JudgeOrPassed::Passed)));
    assert!(late.info.visible());
    assert_eq!((state.bad_count, state.combo), (1, 0));
    // an upcoming note stops the search
    let mut early = don(GaugeDelta::from_good(100));
    let r = state.check_single_note(&mut early, &Some(NoteColor::Don), true, NoteTiming::Future);
    assert!(matches!(r, JudgeOnTimeline::Break));
}

#[test]
fn bad_checks_take_passed_notes_without_counting_twice() {
    let mut state = GameState::default();
    let mut late = don(GaugeDelta::from_good(100));
    state.check_single_note(&mut late, &None, true, NoteTiming::Past);
    assert_eq!(state.bad_count, 1);
    let r = state.check_single_note_bad(&mut late, &Some(NoteColor::Don), true, BadTiming::Bad);
    assert!(matches!(r, JudgeOnTimeline::BreakWith(())));
    assert!(matches!(late.info.judge, Some(JudgeOrPassed::Judge(Judge::Bad))));
    assert_eq!(state.bad_count, 1);
    let mut fresh = don(GaugeDelta::from_good(100));
    let r = state.check_single_note_bad(&mut fresh, &Some(NoteColor::Don), true, BadTiming::Bad);
    assert!(matches!(r, JudgeOnTimeline::BreakWith(())));
    assert_eq!(state.bad_count, 2);
    let r = state.check_single_note_bad(&mut fresh, &Some(NoteColor::Don), true, BadTiming::Bad);
    assert!(matches!(r, JudgeOnTimeline::Continue));
    let r = state.check_single_note_bad(&mut fresh, &Some(NoteColor::Don), true, BadTiming::Past);
    assert!(matches!(r, JudgeOnTimeline::Past));
    let r = state.check_single_note_bad(&mut fresh, &Some(NoteColor::Don), true, BadTiming::Future);
    assert!(matches!(r, JudgeOnTimeline::Break));
}

#[test]
fn balloons_stop_at_their_quota() {
    let mut state = GameState::default();
    let mut kind: RendaKind = RendaKind::Quota(QuotaRenda {
        kind: QuotaRendaKind::Balloon,
        quota: 2,
        info: QuotaRendaState { finished: false },
    });
    let mut renda = RendaState { count: 0 };
    assert!(state.hit_renda(&mut kind, &mut renda, Some(NoteColor::Ka)).is_none());
    assert!(state.hit_renda(&mut kind, &mut renda, Some(NoteColor::Don)).is_some());
    assert!(state.hit_renda(&mut kind, &mut renda, Some(NoteColor::Don)).is_some());
    assert!(state.hit_renda(&mut kind, &mut renda, Some(NoteColor::Don)).is_none());
    assert_eq!((state.renda_count, renda.count), (2, 2));
    match kind {
        RendaKind::Quota(q) => assert!(q.info.finished),
        _ => unreachable!(),
    }
}

#[test]
fn drumrolls_take_any_color() {
    let mut state = GameState::default();
    let mut kind: RendaKind =
        RendaKind::Unlimited(UnlimitedRenda { size: NoteSize::Large, info: NoInfo });
    let mut renda = RendaState { count: 0 };
    let flying = state.hit_renda(&mut kind, &mut renda, Some(NoteColor::Ka)).unwrap();
    assert_eq!(flying.color, NoteColor::Ka);
    assert!(matches!(flying.size, NoteSize::Large));
    assert!(state.hit_renda(&mut kind, &mut renda, None).is_none());
    assert_eq!((state.renda_count, renda.count), (1, 1));
}

#[test]
fn branch_thresholds() {
    assert_eq!(branch_by_candidate(10i64, 20, 30), BranchType::Normal);
    assert_eq!(branch_by_candidate(20i64, 20, 30), BranchType::Expert);
    assert_eq!(branch_by_candidate(30i64, 20, 30), BranchType::Master);
    assert_eq!(branch_by_candidate(95.5f64, 60.0, 90.0), BranchType::Master);
    assert_eq!(branch_by_candidate(f64::NAN, 60.0, 90.0), BranchType::Normal);
}

#[test]
fn filter_out_drops_only_the_front() {
    let mut queue: VecDeque<i32> = vec![1, 2, 5, 1, 7].into_iter().collect();
    let rest: Vec<i32> = filter_out_and_iter(&mut queue, |x| **x < 3).copied().collect();
    assert_eq!(rest, vec![5, 1, 7]);
    assert_eq!(queue.len(), 3);
    let back: Vec<i32> = filter_out_and_iter(&mut queue, |_| false).rev().copied().collect();
    assert_eq!(back, vec![7, 1, 5]);
}

#[test]
fn timeline_walk_moves_pointer_past_notes_behind() {
    let mut times = vec![1, 2, 3, 4, 5, 6];
    let mut pointer = 0;
    let r: Option<i32> = check_on_timeline(&mut times, &mut pointer, |t| {
        *t *= 10;
        match *t {
            10 | 20 => JudgeOnTimeline::Past,
            30 => JudgeOnTimeline::Continue,
            40 => JudgeOnTimeline::BreakWith(4),
            _ => JudgeOnTimeline::Break,
        }
    });
    assert_eq!(r, Some(4));
    assert_eq!(pointer, 2);
    assert_eq!(times, vec![10, 20, 30, 40, 5, 6]);
    let r: Option<i32> = check_on_timeline(&mut times, &mut pointer, |_| JudgeOnTimeline::Break);
    assert_eq!(r, None);
    assert_eq!(pointer, 2);
    let mut empty: Vec<i32> = vec![];
    let mut p = 0;
    let r: Option<()> = check_on_timeline(&mut empty, &mut p, |_| JudgeOnTimeline::Past);
    assert_eq!(r, None);
}
