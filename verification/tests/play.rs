use taiko_untitled::game_manager::play::{
    branch_at, shown_bar_lines, BarLineKey, BranchRule, GameBranch, GameBranchEvent, GameManager, GameNoteContent, HitEffect,
    PlainBranch, PlainNote, PlainNoteContent,
};
use taiko_untitled::game_manager::{BadTiming, Judge, JudgeOrPassed, NoteTiming};
use taiko_untitled::structs::just::{QuotaRenda, RendaKind};
use taiko_untitled::structs::typed::NoInfo;
use taiko_untitled::structs::{
    BranchEventKind, BranchType, NoteColor, NoteSize, QuotaRendaKind, SingleNoteKind,
};

fn single(time: u64, color: NoteColor, branch: Option<BranchType>) -> PlainNote {
    PlainNote {
        time,
        content: PlainNoteContent::Single(SingleNoteKind { color, size: NoteSize::Small }),
        branch,
    }
}

fn no_precision(_: i64, _: i64, _: f64, _: f64) -> BranchType {
    BranchType::Normal
}

/// Timings as a caller would classify them: notes within 2 of the hit are
/// good, within 5 ok, earlier ones past, later ones ahead.
fn timings(game: &GameManager<f64>, now: u64) -> (Vec<NoteTiming>, Vec<BadTiming>) {
    let mut good = vec![];
    let mut bad = vec![];
    for note in &game.notes {
        let d = note.time as i64 - now as i64;
        good.push(match d {
            d if d.abs() <= 2 => NoteTiming::Good,
            d if d.abs() <= 5 => NoteTiming::Okay,
            d if d < 0 => NoteTiming::Past,
            _ => NoteTiming::Future,
        });
        bad.push(match d {
            d if d.abs() <= 8 => BadTiming::Bad,
            d if d < 0 => BadTiming::Past,
            _ => BadTiming::Future,
        });
    }
    (good, bad)
}

fn hit(game: &mut GameManager<f64>, color: Option<NoteColor>, now: u64) -> Option<HitEffect> {
    assert!(game.check_limits());
    let (good, bad) = timings(game, now);
    game.hit(color, now, &good, &bad, no_precision).effect
}

#[test]
fn a_new_game_spreads_the_gauge_over_the_notes() {
    let notes = vec![
        single(100, NoteColor::Don, None),
        single(200, NoteColor::Ka, None),
        PlainNote {
            time: 300,
            content: PlainNoteContent::Renda {
                kind: RendaKind::Quota(QuotaRenda { kind: QuotaRendaKind::Balloon, quota: 2, info: NoInfo }),
                end_time: 400,
            },
            branch: None,
        },
    ];
    let game: GameManager<f64> = GameManager::new(&notes, &vec![], vec![]);
    assert_eq!(game.notes.len(), 3);
    match &game.notes[0].content {
        GameNoteContent::Single(s) => {
            assert_eq!(s.info.gauge_delta.good, 6557);
            assert_eq!(s.info.gauge_delta.ok, 3278);
            assert_eq!(s.info.gauge_delta.bad, -13114);
            assert!(s.info.judge.is_none());
        }
        _ => panic!("a single note"),
    }
    assert!(!game.auto());
    assert_eq!(game.game_state.combo, 0);
}

#[test]
fn hits_judge_good_ok_and_bad() {
    let notes = vec![
        single(100, NoteColor::Don, None),
        single(200, NoteColor::Don, None),
        single(300, NoteColor::Don, None),
    ];
    let mut game: GameManager<f64> = GameManager::new(&notes, &vec![], vec![]);
    match hit(&mut game, Some(NoteColor::Don), 101) {
        Some(HitEffect::Judged { judge: Judge::Good, .. }) => {}
        other => panic!("expected a good, got {:?}", other),
    }
    match hit(&mut game, Some(NoteColor::Don), 196) {
        Some(HitEffect::Judged { judge: Judge::Okay, .. }) => {}
        other => panic!("expected an ok, got {:?}", other),
    }
    // too early for an ok, close enough for a bad
    match hit(&mut game, Some(NoteColor::Don), 294) {
        Some(HitEffect::Bad) => {}
        other => panic!("expected a bad, got {:?}", other),
    }
    assert_eq!(game.game_state.good_count, 1);
    assert_eq!(game.game_state.ok_count, 1);
    assert_eq!(game.game_state.bad_count, 1);
    assert_eq!(game.game_state.combo, 0);
    // gauge: 13113/3 = 4371 good, 2185 ok, -8742 bad, clamped at 0
    assert_eq!(game.game_state.gauge, 0);
}

#[test]
fn notes_left_behind_are_passed_and_break_the_combo() {
    let notes = vec![single(100, NoteColor::Don, None), single(200, NoteColor::Don, None)];
    let mut game: GameManager<f64> = GameManager::new(&notes, &vec![], vec![]);
    assert!(hit(&mut game, Some(NoteColor::Don), 101).is_some());
    assert_eq!(game.game_state.combo, 1);
    // nothing near 500: the note at 200 is passed
    assert!(hit(&mut game, None, 500).is_none());
    assert_eq!(game.game_state.bad_count, 1);
    assert_eq!(game.game_state.combo, 0);
    assert_eq!(game.pointers.judge, 2);
    match &game.notes[1].content {
        GameNoteContent::Single(s) => assert!(matches!(s.info.judge, Some(JudgeOrPassed::Passed))),
        _ => panic!("a single note"),
    }
}

#[test]
fn a_balloon_takes_dons_until_its_quota() {
    let notes = vec![PlainNote {
        time: 100,
        content: PlainNoteContent::Renda {
            kind: RendaKind::Quota(QuotaRenda { kind: QuotaRendaKind::Balloon, quota: 2, info: NoInfo }),
            end_time: 200,
        },
        branch: None,
    }];
    let mut game: GameManager<f64> = GameManager::new(&notes, &vec![], vec![]);
    assert!(matches!(hit(&mut game, Some(NoteColor::Ka), 110), Some(HitEffect::Renda(None))));
    assert!(matches!(hit(&mut game, Some(NoteColor::Don), 120), Some(HitEffect::Renda(Some(_)))));
    assert!(matches!(hit(&mut game, Some(NoteColor::Don), 130), Some(HitEffect::Renda(Some(_)))));
    assert!(matches!(hit(&mut game, Some(NoteColor::Don), 140), Some(HitEffect::Renda(None))));
    assert_eq!(game.game_state.renda_count, 2);
    // after its end the drumroll is behind
    assert!(hit(&mut game, Some(NoteColor::Don), 250).is_none());
    assert_eq!(game.pointers.judge, 1);
}

#[test]
fn a_score_condition_chooses_the_branch_and_notes_follow_it() {
    let notes = vec![
        PlainNote { time: 100, content: PlainNoteContent::Renda { kind: RendaKind::Unlimited(taiko_untitled::structs::just::UnlimitedRenda { size: NoteSize::Small, info: NoInfo }), end_time: 150 }, branch: None },
        single(300, NoteColor::Don, Some(BranchType::Normal)),
        single(300, NoteColor::Ka, Some(BranchType::Master)),
    ];
    let branches = vec![PlainBranch { judge_time: 200, switch_time: 250, condition: BranchRule::Renda(1, 2) }];
    let mut game: GameManager<f64> = GameManager::new(&notes, &branches, vec![]);
    assert!(hit(&mut game, Some(NoteColor::Don), 110).is_some());
    assert!(hit(&mut game, Some(NoteColor::Ka), 120).is_some());
    let (good, bad) = timings(&game, 299);
    let outcome = game.hit(Some(NoteColor::Ka), 299, &good, &bad, no_precision);
    assert_eq!(outcome.branch_switch, Some(BranchType::Master));
    assert!(matches!(outcome.effect, Some(HitEffect::Judged { judge: Judge::Good, kind }) if kind.color == NoteColor::Ka));
    assert_eq!(game.branches[0].determined_branch, Some(BranchType::Master));
}

#[test]
fn a_precision_condition_asks_the_caller() {
    let branches = vec![PlainBranch { judge_time: 10, switch_time: 20, condition: BranchRule::Precision(50.0, 80.0) }];
    let mut game: GameManager<f64> = GameManager::new(&vec![], &branches, vec![]);
    let outcome = game.hit(None, 15, &vec![], &vec![], |score: i64, total: i64, e: f64, m: f64| {
        assert_eq!((score, total, e, m), (0, 0, 50.0, 80.0));
        BranchType::Expert
    });
    assert_eq!(outcome.branch_switch, Some(BranchType::Expert));
    assert_eq!(game.pointers.next_branch, 1);
}

#[test]
fn a_level_hold_fixes_the_branch_for_good() {
    let branches = vec![
        PlainBranch { judge_time: 10, switch_time: 20, condition: BranchRule::Score(0, 0) },
        PlainBranch { judge_time: 30, switch_time: 40, condition: BranchRule::Pass },
        PlainBranch { judge_time: 50, switch_time: 60, condition: BranchRule::Pass },
    ];
    let events = vec![GameBranchEvent { time: 25, kind: BranchEventKind::LevelHold(BranchType::Master) }];
    let mut game: GameManager<f64> = GameManager::new(&vec![], &branches, events);
    // at 15 the first branch point chooses master (score 0 >= 0)
    let outcome = game.hit(None, 15, &vec![], &vec![], no_precision);
    assert_eq!(outcome.branch_switch, Some(BranchType::Master));
    // at 26 the level hold on master, played at 25, fixes the rest
    let outcome = game.hit(None, 26, &vec![], &vec![], no_precision);
    assert_eq!(outcome.branch_switch, None);
    assert_eq!(game.pointers.next_branch, 3);
    assert_eq!(game.branches[1].determined_branch, Some(BranchType::Master));
    assert_eq!(game.branches[2].determined_branch, Some(BranchType::Master));
}

#[test]
fn branch_walk_resumes_where_it_stopped() {
    let branches = vec![
        GameBranch { judge_time: 0, switch_time: 10, condition: BranchRule::<f64>::Pass, determined_branch: Some(BranchType::Expert) },
        GameBranch { judge_time: 0, switch_time: 20, condition: BranchRule::Pass, determined_branch: Some(BranchType::Master) },
        GameBranch { judge_time: 0, switch_time: 30, condition: BranchRule::Pass, determined_branch: None },
    ];
    let mut pointer = 0;
    assert_eq!(branch_at(&branches, &mut pointer, 5), BranchType::Normal);
    assert_eq!(pointer, 0);
    assert_eq!(branch_at(&branches, &mut pointer, 15), BranchType::Expert);
    assert_eq!(pointer, 1);
    assert_eq!(branch_at(&branches, &mut pointer, 100), BranchType::Master);
    assert_eq!(pointer, 2);
    let mut fresh = 0;
    assert_eq!(branch_at(&branches, &mut fresh, 100), BranchType::Master);
    assert_eq!(fresh, pointer);
}

#[test]
fn auto_play_toggles() {
    let mut game: GameManager<f64> = GameManager::new(&vec![], &vec![], vec![]);
    assert!(game.switch_auto());
    assert!(game.auto());
    assert!(!game.switch_auto());
}

#[test]
fn a_section_resets_what_branch_conditions_measure() {
    let notes = vec![
        PlainNote { time: 100, content: PlainNoteContent::Renda { kind: RendaKind::Unlimited(taiko_untitled::structs::just::UnlimitedRenda { size: NoteSize::Small, info: NoInfo }), end_time: 150 }, branch: None },
    ];
    let branches = vec![PlainBranch { judge_time: 200, switch_time: 250, condition: BranchRule::Renda(1, 5) }];
    let events = vec![GameBranchEvent { time: 160, kind: BranchEventKind::Section }];
    let mut game: GameManager<f64> = GameManager::new(&notes, &branches, events);
    assert!(hit(&mut game, Some(NoteColor::Don), 110).is_some());
    assert_eq!(game.game_state.renda_count, 1);
    let outcome = game.hit(None, 210, &vec![NoteTiming::Past], &vec![BadTiming::Past], no_precision);
    // the drumroll hit came before the section, so it does not count
    assert_eq!(outcome.branch_switch, Some(BranchType::Normal));
}

#[test]
fn a_hit_of_the_wrong_color_judges_nothing() {
    let notes = vec![single(100, NoteColor::Ka, None)];
    let mut game: GameManager<f64> = GameManager::new(&notes, &vec![], vec![]);
    assert!(hit(&mut game, Some(NoteColor::Don), 100).is_none());
    assert!(hit(&mut game, None, 100).is_none());
    assert_eq!(game.game_state.good_count + game.game_state.bad_count, 0);
    assert!(matches!(hit(&mut game, Some(NoteColor::Ka), 100), Some(HitEffect::Judged { judge: Judge::Good, .. })));
}

fn branch_point(switch_time: u64, determined: Option<BranchType>) -> GameBranch<f64> {
    GameBranch { judge_time: 0, switch_time, condition: BranchRule::Pass, determined_branch: determined }
}

#[test]
fn bar_lines_follow_the_branch_played() {
    let branches = vec![
        branch_point(10, Some(BranchType::Expert)),
        branch_point(20, None),
        branch_point(30, Some(BranchType::Normal)),
    ];
    let line = |time, branch, visible| BarLineKey { time, branch, visible };
    let lines = vec![
        line(5, None, true),
        line(12, Some(BranchType::Expert), true),
        line(12, Some(BranchType::Normal), true),
        line(22, Some(BranchType::Expert), true),
        line(25, None, false),
        line(35, Some(BranchType::Normal), true),
        line(35, Some(BranchType::Expert), true),
    ];
    assert_eq!(shown_bar_lines(&lines, &branches), vec![0, 1, 3, 5]);
}

#[test]
fn auto_play_stops_at_an_undetermined_branch() {
    let notes = vec![
        single(5, NoteColor::Don, None),
        single(12, NoteColor::Don, Some(BranchType::Normal)),
        single(12, NoteColor::Ka, Some(BranchType::Master)),
        single(25, NoteColor::Don, None),
    ];
    let branches = vec![
        PlainBranch { judge_time: 8, switch_time: 10, condition: BranchRule::Score(0, 0) },
        PlainBranch { judge_time: 18, switch_time: 20, condition: BranchRule::Pass },
    ];
    let mut game: GameManager<f64> = GameManager::new(&notes, &branches, vec![]);
    let mut pointer = 0;
    // nothing determined yet: only the note before the first branch point
    assert_eq!(game.auto_play_notes(&mut pointer), vec![0]);
    assert_eq!(pointer, 1);
    let (good, bad) = timings(&game, 9);
    game.hit(None, 9, &good, &bad, no_precision);
    assert_eq!(game.branches[0].determined_branch, Some(BranchType::Master));
    // master is played from 10 on; the second branch point is not determined
    assert_eq!(game.auto_play_notes(&mut pointer), vec![2]);
    assert_eq!(pointer, 3);
}

#[test]
fn hits_never_lower_a_count_nor_move_a_pointer_back() {
    let notes = vec![
        single(100, NoteColor::Don, None),
        single(110, NoteColor::Ka, None),
        single(200, NoteColor::Don, None),
        single(300, NoteColor::Ka, None),
    ];
    let mut game: GameManager<f64> = GameManager::new(&notes, &vec![], vec![]);
    let mut last = (game.game_state, game.pointers);
    for (color, now) in [
        (Some(NoteColor::Ka), 101),
        (Some(NoteColor::Don), 100),
        (None, 150),
        (Some(NoteColor::Don), 207),
        (Some(NoteColor::Ka), 250),
        (None, 400),
    ] {
        hit(&mut game, color, now);
        let (state, pointers) = (game.game_state, game.pointers);
        assert!(state.good_count >= last.0.good_count);
        assert!(state.ok_count >= last.0.ok_count);
        assert!(state.bad_count >= last.0.bad_count);
        assert!(state.renda_count >= last.0.renda_count);
        assert!(pointers.judge >= last.1.judge);
        assert!(pointers.judge_bad >= last.1.judge_bad);
        assert!((0..=10000).contains(&state.gauge));
        last = (state, pointers);
    }
    assert_eq!(game.pointers.judge, 4);
}

#[test]
fn a_note_once_hit_keeps_its_judge() {
    let notes = vec![single(100, NoteColor::Don, None), single(400, NoteColor::Don, None)];
    let mut game: GameManager<f64> = GameManager::new(&notes, &vec![], vec![]);
    assert!(matches!(hit(&mut game, Some(NoteColor::Don), 100), Some(HitEffect::Judged { judge: Judge::Good, .. })));
    // hitting again close to it, in the ok and in the bad window, and passing it
    assert!(hit(&mut game, Some(NoteColor::Don), 104).is_none());
    assert!(hit(&mut game, Some(NoteColor::Don), 107).is_none());
    assert!(hit(&mut game, None, 300).is_none());
    match &game.notes[0].content {
        GameNoteContent::Single(s) => assert!(matches!(s.info.judge, Some(JudgeOrPassed::Judge(Judge::Good)))),
        _ => panic!("a single note"),
    }
    assert_eq!(game.game_state.good_count, 1);
    assert_eq!(game.game_state.bad_count, 0);
}

/// Goods, oks, bads (passed notes included) and drumroll hits as the notes
/// record them.
fn recorded_counts(game: &GameManager<f64>) -> (i64, i64, i64, i64) {
    let (mut good, mut ok, mut bad, mut renda) = (0, 0, 0, 0);
    for note in &game.notes {
        match &note.content {
            GameNoteContent::Single(s) => match s.info.judge {
                Some(JudgeOrPassed::Judge(Judge::Good)) => good += 1,
                Some(JudgeOrPassed::Judge(Judge::Okay)) => ok += 1,
                Some(JudgeOrPassed::Judge(Judge::Bad)) | Some(JudgeOrPassed::Passed) => bad += 1,
                None => {}
            },
            GameNoteContent::Renda(r) => renda += r.state.count as i64,
        }
    }
    (good, ok, bad, renda)
}

#[test]
fn counts_stay_those_recorded_on_the_notes() {
    let notes = vec![
        single(100, NoteColor::Don, None),
        single(200, NoteColor::Ka, None),
        PlainNote {
            time: 300,
            content: PlainNoteContent::Renda {
                kind: RendaKind::Quota(QuotaRenda { kind: QuotaRendaKind::Balloon, quota: 2, info: NoInfo }),
                end_time: 400,
            },
            branch: None,
        },
        single(500, NoteColor::Don, None),
        single(600, NoteColor::Don, None),
        single(700, NoteColor::Ka, None),
    ];
    let mut game: GameManager<f64> = GameManager::new(&notes, &vec![], vec![]);
    let hits = [
        (Some(NoteColor::Don), 101),
        (Some(NoteColor::Ka), 204),
        (Some(NoteColor::Don), 310),
        (Some(NoteColor::Don), 320),
        (Some(NoteColor::Don), 330),
        (Some(NoteColor::Ka), 340),
        (Some(NoteColor::Don), 594),
        (None, 650),
        (Some(NoteColor::Ka), 700),
        (Some(NoteColor::Ka), 701),
    ];
    for (color, now) in hits {
        let before = game.game_state;
        hit(&mut game, color, now);
        let s = game.game_state;
        let (good, ok, bad, renda) = recorded_counts(&game);
        assert_eq!((s.good_count, s.ok_count, s.bad_count, s.renda_count), (good, ok, bad, renda));
        assert!(0 <= s.gauge && s.gauge <= 10000);
        assert!(0 <= s.combo && s.combo <= s.good_count + s.ok_count);
        assert!(s.good_count >= before.good_count && s.bad_count >= before.bad_count);
    }
    let s = game.game_state;
    // good at 100, ok at 200, two balloon hits, 500 passed, bad at 600 (too early), good at 700
    assert_eq!((s.good_count, s.ok_count, s.bad_count, s.renda_count), (2, 1, 2, 2));
    assert_eq!(s.combo, 1);
}

#[test]
fn auto_play_past_the_notes_gives_nothing() {
    let notes = vec![single(5, NoteColor::Don, None)];
    let game: GameManager<f64> = GameManager::new(&notes, &vec![], vec![]);
    let mut pointer = 7;
    assert!(game.auto_play_notes(&mut pointer).is_empty());
    assert_eq!(pointer, 7);
    let mut pointer = 1;
    assert!(game.auto_play_notes(&mut pointer).is_empty());
    assert_eq!(pointer, 1);
}

#[test]
fn notes_left_behind_are_judged_unless_on_another_branch() {
    let notes = vec![
        single(100, NoteColor::Don, None),
        single(200, NoteColor::Don, Some(BranchType::Master)),
        single(300, NoteColor::Ka, Some(BranchType::Normal)),
    ];
    let mut game: GameManager<f64> = GameManager::new(&notes, &vec![], vec![]);
    assert!(hit(&mut game, None, 500).is_none());
    assert_eq!(game.pointers.judge, 3);
    let judge = |i: usize| match &game.notes[i].content {
        GameNoteContent::Single(s) => s.info.judge,
        _ => panic!("a single note"),
    };
    assert!(matches!(judge(0), Some(JudgeOrPassed::Passed)));
    // the master branch is not played: its note stays unjudged
    assert!(judge(1).is_none());
    assert!(matches!(judge(2), Some(JudgeOrPassed::Passed)));
    assert_eq!(game.game_state.bad_count, 2);
}
