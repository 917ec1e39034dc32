use debree::consoles::{
    collision_verdict, waves_verdict, SubmitButtonState, ANTENNAS_WORK, COLLISION_AVOIDED,
    COLLISION_IMPENDING, TRAJECTORY_SAFE, WAVES_NOT_SYNCHRONISED, WAVES_SYNCHRONISED,
};
use debree::consoles::{drop_wire, finish_hack, press_pipe};
use debree::hack::{HackGrid, HackSelection};
use debree::malfunction::{Malfunction, MalfunctionType, Resolved};
use debree::pipe_puzzle::{GridPos, PipeMinigame};
use debree::wires::{ConnectOutcome, WireMinigame};

#[test]
fn release_submits_only_while_broken() {
    let mut b = SubmitButtonState::new();
    assert_eq!(b.update(true, true), 1);
    assert!(!b.submitted);
    assert_eq!(b.update(false, false), 0);
    assert!(!b.submitted);
    b.update(true, true);
    assert_eq!(b.update(false, true), 0);
    assert!(b.submitted);
    assert!(!b.prev_pressed);
}

#[test]
fn collision_status_lines() {
    let mut b = SubmitButtonState::new();
    let mut m = Malfunction::new();
    assert_eq!(collision_verdict(&mut b, &mut m, true), (None, false));
    m.malfunction_types = vec![MalfunctionType::Collision];
    assert_eq!(collision_verdict(&mut b, &mut m, true), (Some(COLLISION_IMPENDING), false));
    assert_eq!(collision_verdict(&mut b, &mut m, false), (Some(COLLISION_AVOIDED), false));
    assert!(m.resolved.is_empty());
}

#[test]
fn collision_submit_is_judged() {
    let mut b = SubmitButtonState { prev_pressed: false, submitted: true };
    let mut m = Malfunction::new();
    m.malfunction_types = vec![MalfunctionType::Collision];
    assert_eq!(collision_verdict(&mut b, &mut m, false), (Some(TRAJECTORY_SAFE), true));
    assert_eq!(m.resolved, vec![Resolved { resolved_type: MalfunctionType::Collision, failed: false }]);
    assert_eq!(b, SubmitButtonState::new());
    let mut b = SubmitButtonState { prev_pressed: true, submitted: true };
    assert_eq!(collision_verdict(&mut b, &mut m, true), (Some(COLLISION_IMPENDING), true));
    assert!(m.resolved[1].failed);
}

#[test]
fn waves_status_lines() {
    let mut b = SubmitButtonState::new();
    let mut m = Malfunction::new();
    m.malfunction_types = vec![MalfunctionType::Waves];
    assert_eq!(waves_verdict(&mut b, &mut m, false, true), (None, false));
    assert_eq!(waves_verdict(&mut b, &mut m, true, true), (Some(WAVES_SYNCHRONISED), false));
    assert_eq!(waves_verdict(&mut b, &mut m, true, false), (Some(WAVES_NOT_SYNCHRONISED), false));
    b.submitted = true;
    assert_eq!(waves_verdict(&mut b, &mut m, true, true), (Some(ANTENNAS_WORK), true));
    assert_eq!(m.resolved, vec![Resolved { resolved_type: MalfunctionType::Waves, failed: false }]);
    b.submitted = true;
    assert_eq!(waves_verdict(&mut b, &mut m, true, false), (Some(WAVES_NOT_SYNCHRONISED), true));
    assert!(m.resolved[1].failed);
}

#[test]
fn pipe_clicks() {
    let mut pipes = PipeMinigame::empty();
    let mut m = Malfunction::new();
    assert_eq!(press_pipe(&mut pipes, GridPos { x: 2, y: 3 }, &mut m), (None, true));
    assert_eq!(m.resolved, vec![Resolved { resolved_type: MalfunctionType::Engine, failed: false }]);
    assert_eq!(press_pipe(&mut pipes, GridPos { x: 40, y: 3 }, &mut m), (None, true));
    if pipes.fill_solved().is_ok() {
        let i = (0..36).find(|&i| pipes.get_pipe(i % 6, i / 6).is_some()).unwrap();
        let before = *pipes.get_pipe(i % 6, i / 6).unwrap();
        let (frame, _) = press_pipe(&mut pipes, GridPos { x: (i % 6) as u32, y: (i / 6) as u32 }, &mut m);
        let after = *pipes.get_pipe(i % 6, i / 6).unwrap();
        assert_eq!(after.rotation, (before.rotation + 1) % 4);
        assert_eq!(frame, Some(after.get_index()));
    }
}

#[test]
fn hack_attempts() {
    let mut grid = HackGrid::default();
    grid.begin_load();
    grid.win_seq = vec![2, 1, 0];
    let mut sel = HackSelection::new();
    let mut m = Malfunction::new();
    sel.pick(GridPos { x: 1, y: 0 }, 2);
    assert_eq!(finish_hack(&mut sel, &mut grid, &mut m), None);
    assert!(grid.is_loaded);
    sel.pick(GridPos { x: 1, y: 2 }, 1);
    sel.pick(GridPos { x: 4, y: 2 }, 0);
    assert_eq!(finish_hack(&mut sel, &mut grid, &mut m), Some(true));
    assert!(!grid.is_loaded);
    assert_eq!(m.resolved, vec![Resolved { resolved_type: MalfunctionType::Hack, failed: false }]);
    sel.pick(GridPos { x: 1, y: 0 }, 2);
    sel.pick(GridPos { x: 1, y: 2 }, 2);
    sel.pick(GridPos { x: 4, y: 2 }, 2);
    assert_eq!(finish_hack(&mut sel, &mut grid, &mut m), Some(false));
    assert!(m.resolved[1].failed);
}

#[test]
fn wire_drops_queue_repairs() {
    let mut w = WireMinigame::default();
    w.refresh_game_with([0, 0, 0, 0]);
    let mut m = Malfunction::new();
    assert_eq!(drop_wire(&mut w, 0, 2, &mut m), ConnectOutcome::Connected);
    assert!(m.resolved.is_empty());
    assert_eq!(drop_wire(&mut w, 0, 1, &mut m), ConnectOutcome::AlreadyConnected);
    assert!(m.resolved.is_empty());
    assert_eq!(drop_wire(&mut w, 1, 3, &mut m), ConnectOutcome::Connected);
    let mut w = WireMinigame::default();
    w.refresh_game_with([0, 0, 0, 0]);
    assert_eq!(drop_wire(&mut w, 3, 2, &mut m), ConnectOutcome::Wrong);
    assert_eq!(m.resolved, vec![Resolved { resolved_type: MalfunctionType::Reactor, failed: true }]);
}
