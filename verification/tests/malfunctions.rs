use debree::malfunction::{
    available_malfunctions, ends_game, warning_mini_index, Malfunction, MalfunctionType, Resolved,
    TIME_TO_RESOLVE, TIME_TO_RESOLVE1,
};
use debree::pipe_puzzle::PipeMinigame;

fn kinds() -> [MalfunctionType; 5] {
    [
        MalfunctionType::Reactor,
        MalfunctionType::Collision,
        MalfunctionType::Hack,
        MalfunctionType::Waves,
        MalfunctionType::Engine,
    ]
}

#[test]
fn repair_times() {
    assert_eq!(TIME_TO_RESOLVE, 60);
    assert_eq!(TIME_TO_RESOLVE1, 120);
}

#[test]
fn game_ending_failures() {
    let r = |t, failed| Resolved { resolved_type: t, failed };
    assert!(ends_game(&r(MalfunctionType::Collision, true)));
    assert!(ends_game(&r(MalfunctionType::Engine, true)));
    assert!(!ends_game(&r(MalfunctionType::Engine, false)));
    assert!(!ends_game(&r(MalfunctionType::Reactor, true)));
    assert!(!ends_game(&r(MalfunctionType::Hack, true)));
}

#[test]
fn mini_icon_frames() {
    assert_eq!(warning_mini_index(MalfunctionType::Reactor, false, false), 2);
    assert_eq!(warning_mini_index(MalfunctionType::Reactor, true, false), 8);
    assert_eq!(warning_mini_index(MalfunctionType::Reactor, true, true), 0);
    assert_eq!(warning_mini_index(MalfunctionType::Hack, false, true), 1);
    assert_eq!(warning_mini_index(MalfunctionType::Engine, false, false), 5);
    assert_eq!(warning_mini_index(MalfunctionType::Collision, true, false), 10);
}

#[test]
fn available_excludes_broken() {
    assert_eq!(available_malfunctions(&vec![]), kinds().to_vec());
    assert_eq!(
        available_malfunctions(&vec![MalfunctionType::Hack]),
        vec![
            MalfunctionType::Reactor,
            MalfunctionType::Collision,
            MalfunctionType::Waves,
            MalfunctionType::Engine
        ]
    );
    assert!(available_malfunctions(&kinds().to_vec()).is_empty());
}

#[test]
fn index_chooses_breakdown() {
    let mut m = Malfunction::new();
    assert_eq!(m.choose_malfunction_at(0), Some(MalfunctionType::Reactor));
    assert!(m.in_progress);
    assert!(m.added_new_malfunction);
    assert_eq!(m.choose_malfunction_at(4), Some(MalfunctionType::Engine));
    assert_eq!(m.choose_malfunction_at(2), Some(MalfunctionType::Hack));
    assert!(m.malfunction_types.is_empty());
    m.malfunction_types = vec![MalfunctionType::Reactor, MalfunctionType::Hack];
    assert_eq!(m.choose_malfunction_at(1), Some(MalfunctionType::Waves));
}

#[test]
fn nothing_left_to_break() {
    let mut m = Malfunction::new();
    m.malfunction_types = kinds().to_vec();
    assert_eq!(m.choose_malfunction_at(0), None);
    assert!(m.in_progress);
    assert!(!m.added_new_malfunction);
}

#[test]
fn break_down_records_the_chosen_system() {
    let mut m = Malfunction::new();
    let mut pipes = PipeMinigame::empty();
    m.malfunction_types = vec![MalfunctionType::Reactor];
    assert_eq!(m.break_down(1, &mut pipes), Ok(Some((MalfunctionType::Hack, 60))));
    assert_eq!(m.malfunction_types, vec![MalfunctionType::Reactor, MalfunctionType::Hack]);
    assert_eq!(m.warning_data.len(), 1);
    assert!(m.in_progress);
    assert!(m.added_new_malfunction);
    assert_eq!(m.break_down(1, &mut pipes), Ok(Some((MalfunctionType::Waves, 120))));
    assert_eq!(m.warning_data.len(), 2);
}

#[test]
fn break_down_with_everything_broken() {
    let mut m = Malfunction::new();
    let mut pipes = PipeMinigame::empty();
    m.malfunction_types = kinds().to_vec();
    assert_eq!(m.break_down(0, &mut pipes), Ok(None));
    assert!(m.in_progress);
    assert!(!m.added_new_malfunction);
    assert_eq!(m.malfunction_types, kinds().to_vec());
    assert!(m.warning_data.is_empty());
}

#[test]
fn engine_break_down_builds_the_puzzle() {
    let mut m = Malfunction::new();
    let mut pipes = PipeMinigame::empty();
    m.malfunction_types = vec![
        MalfunctionType::Reactor,
        MalfunctionType::Collision,
        MalfunctionType::Hack,
        MalfunctionType::Waves,
    ];
    if let Ok(r) = m.break_down(0, &mut pipes) {
        assert_eq!(r, Some((MalfunctionType::Engine, 120)));
        let placed = (0..36).filter(|&i| pipes.get_pipe(i % 6, i / 6).is_some()).count();
        assert!(placed >= 1);
    }
}

#[test]
fn start_records_breakdown() {
    let mut m = Malfunction::new();
    let mut pipes = PipeMinigame::empty();
    assert_eq!(m.start_malfunction(MalfunctionType::Reactor, &mut pipes), Ok(60));
    assert_eq!(m.malfunction_types, vec![MalfunctionType::Reactor]);
    assert_eq!(m.warning_data.len(), 1);
    assert!(m.warning_data[0].color);
    assert_eq!(m.warning_data[0].text, "Reactor malfunctioned!");
    assert_eq!(m.start_malfunction(MalfunctionType::Waves, &mut pipes), Ok(120));
    assert_eq!(m.warning_data[1].text, "Antenna malfunctioned!");
    assert_eq!(m.start_malfunction(MalfunctionType::Collision, &mut pipes), Ok(60));
    assert!(!m.warning_data[2].color);
    assert_eq!(m.warning_data[2].text, "The ship is on a trajectory to collide with debree!");
    assert_eq!(m.start_malfunction(MalfunctionType::Hack, &mut pipes), Ok(60));
    assert_eq!(m.warning_data[3].text, "A sattelite is on a collision trajectory!");
}

#[test]
fn engine_breakdown_scrambles_pipes() {
    let mut m = Malfunction::new();
    let mut pipes = PipeMinigame::empty();
    if let Ok(t) = m.start_malfunction(MalfunctionType::Engine, &mut pipes) {
        assert_eq!(t, 120);
        assert_eq!(m.warning_data[0].text, "Engine malfunctioned!");
        assert!(!m.warning_data[0].color);
        let placed = (0..36).filter(|&i| pipes.get_pipe(i % 6, i / 6).is_some()).count();
        assert!(placed >= 1);
    }
    assert_eq!(m.malfunction_types, vec![MalfunctionType::Engine]);
}

#[test]
fn repairs_remove_breakdowns() {
    let mut m = Malfunction::new();
    let mut pipes = PipeMinigame::empty();
    m.in_progress = true;
    let _ = m.start_malfunction(MalfunctionType::Reactor, &mut pipes);
    let _ = m.start_malfunction(MalfunctionType::Waves, &mut pipes);
    let ok = Resolved { resolved_type: MalfunctionType::Reactor, failed: false };
    m.resolved.push(ok);
    m.resolved.push(Resolved { resolved_type: MalfunctionType::Hack, failed: true });
    let warnings_before: Vec<(bool, String)> = m.warning_data.iter().map(|w| (w.color, w.text.clone())).collect();
    let applied = m.resolve_malfunctions();
    assert_eq!(applied, vec![(0, ok)]);
    let warnings_after: Vec<(bool, String)> = m.warning_data.iter().map(|w| (w.color, w.text.clone())).collect();
    assert_eq!(warnings_after, warnings_before);
    assert_eq!(m.malfunction_types, vec![MalfunctionType::Waves]);
    assert!(m.resolved.is_empty());
    assert!(m.in_progress);
    m.fail_by_timeout(0);
    assert_eq!(m.resolved, vec![Resolved { resolved_type: MalfunctionType::Waves, failed: true }]);
    let applied = m.resolve_malfunctions();
    assert_eq!(applied.len(), 1);
    assert!(m.malfunction_types.is_empty());
    assert!(!m.in_progress);
}

#[test]
fn no_queued_repairs_change_nothing() {
    let mut m = Malfunction::new();
    m.in_progress = true;
    m.malfunction_types = vec![MalfunctionType::Hack];
    assert!(m.resolve_malfunctions().is_empty());
    assert!(m.in_progress);
    assert_eq!(m.malfunction_types, vec![MalfunctionType::Hack]);
}

#[test]
fn remove_reports_position() {
    let mut m = Malfunction::new();
    m.malfunction_types = vec![MalfunctionType::Hack, MalfunctionType::Engine];
    let r = Resolved { resolved_type: MalfunctionType::Engine, failed: false };
    assert_eq!(m.remove_resolved(&r), Some(1));
    assert_eq!(m.malfunction_types, vec![MalfunctionType::Hack]);
    assert_eq!(m.remove_resolved(&r), None);
}

#[test]
fn breakdown_then_repair_restores_record() {
    let mut m = Malfunction::new();
    let mut pipes = PipeMinigame::empty();
    m.malfunction_types = vec![MalfunctionType::Hack];
    let _ = m.start_malfunction(MalfunctionType::Reactor, &mut pipes);
    let r = Resolved { resolved_type: MalfunctionType::Reactor, failed: true };
    assert_eq!(m.remove_resolved(&r), Some(1));
    assert_eq!(m.malfunction_types, vec![MalfunctionType::Hack]);
}

#[test]
fn alarm_sounds_once() {
    let mut m = Malfunction::new();
    m.in_progress = true;
    m.added_new_malfunction = true;
    assert!(!m.take_alarm(false));
    assert!(m.take_alarm(true));
    assert!(!m.added_new_malfunction);
    assert!(!m.take_alarm(true));
}

#[test]
fn warning_line_shows_latest() {
    let mut m = Malfunction::new();
    assert_eq!(m.warning_line(), "No Malfunctions");
    let mut pipes = PipeMinigame::empty();
    m.in_progress = true;
    let _ = m.start_malfunction(MalfunctionType::Hack, &mut pipes);
    let _ = m.start_malfunction(MalfunctionType::Waves, &mut pipes);
    assert_eq!(m.warning_line(), "Antenna malfunctioned!");
}

#[test]
fn has_breakdown() {
    let mut m = Malfunction::new();
    m.malfunction_types = vec![MalfunctionType::Collision];
    assert!(m.has(MalfunctionType::Collision));
    assert!(!m.has(MalfunctionType::Waves));
}
