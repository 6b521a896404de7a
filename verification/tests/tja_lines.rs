use taiko_untitled::structs::BranchType;
use taiko_untitled::tja::{
    parse_branch_condition, parse_metadata_line, parse_score_line, BranchConditionText,
    MetadataLine, Player, ScoreLine, SubtitleStyle, MAX_VOLUME,
};

#[test]
fn header_keys() {
    assert!(matches!(parse_metadata_line("#START P1"), MetadataLine::Start(Player::Single)));
    match parse_metadata_line("TITLE:Song name") {
        MetadataLine::Title(t) => assert_eq!(t, "Song name"),
        other => panic!("{:?}", other),
    }
    match parse_metadata_line("BPM: 150.5 // tempo") {
        MetadataLine::Bpm(Some(t)) => assert_eq!(t, "150.5"),
        other => panic!("{:?}", other),
    }
    assert!(matches!(parse_metadata_line("BPM:fast"), MetadataLine::Bpm(None)));
    match parse_metadata_line("OFFSET:-1.25") {
        MetadataLine::Offset(Some(t)) => assert_eq!(t, "-1.25"),
        other => panic!("{:?}", other),
    }
    match parse_metadata_line("WAVE:song.ogg") {
        MetadataLine::Wave(w) => assert_eq!(w, "song.ogg"),
        other => panic!("{:?}", other),
    }
    assert!(matches!(parse_metadata_line("LEVEL:9"), MetadataLine::Level));
}

#[test]
fn subtitles_and_their_styles() {
    match parse_metadata_line("SUBTITLE:--from a game") {
        MetadataLine::Subtitle(s) => {
            assert_eq!(s.text, "from a game");
            assert!(matches!(s.style, SubtitleStyle::Suppress));
        }
        other => panic!("{:?}", other),
    }
    match parse_metadata_line("SUBTITLE:++shown") {
        MetadataLine::Subtitle(s) => {
            assert_eq!(s.text, "shown");
            assert!(matches!(s.style, SubtitleStyle::Show));
        }
        other => panic!("{:?}", other),
    }
    match parse_metadata_line("SUBTITLE:plain") {
        MetadataLine::Subtitle(s) => {
            assert_eq!(s.text, "plain");
            assert!(matches!(s.style, SubtitleStyle::Unspecified));
        }
        other => panic!("{:?}", other),
    }
}

#[test]
fn balloon_quotas_skip_bad_items() {
    match parse_metadata_line("BALLOON:5,x,12, 7") {
        MetadataLine::Balloon(q) => assert_eq!(q, vec![5, 12, 7]),
        other => panic!("{:?}", other),
    }
    match parse_metadata_line("BALLOON:") {
        MetadataLine::Balloon(q) => assert!(q.is_empty()),
        other => panic!("{:?}", other),
    }
}

#[test]
fn volumes_are_capped() {
    assert!(matches!(parse_metadata_line("SONGVOL:80"), MetadataLine::SongVolume(Some(80))));
    match parse_metadata_line("SEVOL:99999") {
        MetadataLine::SeVolume(Some(v)) => assert_eq!(v, MAX_VOLUME),
        other => panic!("{:?}", other),
    }
    assert!(matches!(parse_metadata_line("SEVOL:loud"), MetadataLine::SeVolume(None)));
}

#[test]
fn unsupported_and_unknown_keys() {
    match parse_metadata_line("COURSE:Oni") {
        MetadataLine::Unsupported(k) => assert_eq!(k, "COURSE"),
        other => panic!("{:?}", other),
    }
    match parse_metadata_line("GENRE:pop") {
        MetadataLine::UnknownKey(k) => assert_eq!(k, "GENRE"),
        other => panic!("{:?}", other),
    }
    assert!(matches!(parse_metadata_line("just text"), MetadataLine::Other));
}

#[test]
fn score_commands() {
    assert!(matches!(parse_score_line("#END"), ScoreLine::End));
    match parse_score_line("#BPMCHANGE 200 // faster") {
        ScoreLine::BpmChange(Some(t)) => assert_eq!(t, "200"),
        other => panic!("{:?}", other),
    }
    assert!(matches!(parse_score_line("#GOGOSTART"), ScoreLine::Gogo(true)));
    assert!(matches!(parse_score_line("#GOGOEND"), ScoreLine::Gogo(false)));
    match parse_score_line("#MEASURE 3/4") {
        ScoreLine::Measure(Some((x, y))) => assert_eq!((x.as_str(), y.as_str()), ("3", "4")),
        other => panic!("{:?}", other),
    }
    assert!(matches!(parse_score_line("#MEASURE 3/4/5"), ScoreLine::Measure(None)));
    match parse_score_line("#SCROLL 1.5") {
        ScoreLine::Scroll(Some(t)) => assert_eq!(t, "1.5"),
        other => panic!("{:?}", other),
    }
    match parse_score_line("#DELAY 0.25") {
        ScoreLine::Delay(Some(t)) => assert_eq!(t, "0.25"),
        other => panic!("{:?}", other),
    }
    match parse_score_line("#BRANCHSTART p,80,90") {
        ScoreLine::BranchStart(c) => assert_eq!(c, " p,80,90"),
        other => panic!("{:?}", other),
    }
    assert!(matches!(parse_score_line("#BRANCHEND"), ScoreLine::BranchEnd));
    assert!(matches!(parse_score_line("#N"), ScoreLine::BranchSwitch(BranchType::Normal)));
    assert!(matches!(parse_score_line("#E"), ScoreLine::BranchSwitch(BranchType::Expert)));
    assert!(matches!(parse_score_line("#M"), ScoreLine::BranchSwitch(BranchType::Master)));
    assert!(matches!(parse_score_line("#SECTION"), ScoreLine::Section));
    assert!(matches!(parse_score_line("#LEVELHOLD"), ScoreLine::LevelHold));
    assert!(matches!(parse_score_line("#BARLINEON"), ScoreLine::BarLine(true)));
    assert!(matches!(parse_score_line("#BARLINEOFF"), ScoreLine::BarLine(false)));
}

#[test]
fn note_lines() {
    match parse_score_line("1020 3x4,5 // 6") {
        ScoreLine::Notes { digits, measure_end, unknown_command } => {
            assert_eq!(digits, vec!['1', '0', '2', '0', '3', '4']);
            assert!(measure_end);
            assert!(!unknown_command);
        }
        other => panic!("{:?}", other),
    }
    match parse_score_line("#HBSCROLL 11") {
        ScoreLine::Notes { digits, measure_end, unknown_command } => {
            assert_eq!(digits, vec!['1', '1']);
            assert!(!measure_end);
            assert!(unknown_command);
        }
        other => panic!("{:?}", other),
    }
}

#[test]
fn branch_conditions() {
    assert!(matches!(parse_branch_condition(" r,5,10"), Ok(BranchConditionText::Renda(5, 10))));
    assert!(matches!(parse_branch_condition("S, 1000, 2000"), Ok(BranchConditionText::Score(1000, 2000))));
    match parse_branch_condition("p,80.5,95") {
        Ok(BranchConditionText::Precision(e, m)) => assert_eq!((e.as_str(), m.as_str()), ("80.5", "95")),
        other => panic!("{:?}", other),
    }
    assert!(parse_branch_condition("r,5").is_err());
    assert!(parse_branch_condition("p").is_err());
    assert!(parse_branch_condition("r,x,10").is_err());
}
