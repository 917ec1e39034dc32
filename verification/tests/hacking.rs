use debree::hack::{
    needs_new_grid, HackButton, HackButtonState, HackGrid, HackSelection, HACK_BUTTON_NAMES,
    HACK_CELLS, HACK_GRID_SIZE,
};
use debree::pipe_puzzle::GridPos;

fn button(state: HackButtonState, index: usize) -> HackButton {
    HackButton { state, index }
}

#[test]
fn button_frames() {
    assert_eq!(button(HackButtonState::Disabled, 4).get_idx(false, false), 0);
    assert_eq!(button(HackButtonState::Disabled, 4).get_idx(true, true), 18);
    assert_eq!(button(HackButtonState::Enabled, 2).get_idx(false, false), 3);
    assert_eq!(button(HackButtonState::Enabled, 2).get_idx(false, true), 21);
    assert_eq!(button(HackButtonState::Active, 2).get_idx(true, false), 15);
    assert_eq!(button(HackButtonState::Active, 2).get_idx(false, false), 9);
    assert_eq!(button(HackButtonState::Active, 2).get_idx(true, true), 33);
    assert_eq!(button(HackButtonState::SuperActive, 2).get_idx(false, false), 15);
    assert_eq!(button(HackButtonState::SuperActive, 2).get_idx(false, true), 33);
}

#[test]
fn symbol_names() {
    assert_eq!(HACK_BUTTON_NAMES, ["AA", "5E", "2D", "3G", "4A"]);
    assert_eq!(HACK_GRID_SIZE * HACK_GRID_SIZE, HACK_CELLS);
}

#[test]
fn new_grid_only_when_needed() {
    assert!(needs_new_grid(true, true, false));
    assert!(!needs_new_grid(false, true, false));
    assert!(!needs_new_grid(true, false, false));
    assert!(!needs_new_grid(true, true, true));
}

#[test]
fn building_a_grid() {
    let mut g = HackGrid::default();
    assert!(!g.is_loaded);
    g.begin_load();
    assert!(g.is_loaded);
    assert_eq!(g.grid, vec![0; 25]);
    assert!(!g.set_row(1, [3, 3, 3, 3, 3]));
    assert_eq!(&g.grid[5..10], &[3, 3, 3, 3, 3]);
    assert!(g.set_row(2, [1, 1, 4, 1, 1]));
    assert_eq!(&g.grid[10..15], &[1, 1, 4, 1, 1]);
    assert_eq!(&g.grid[0..5], &[0, 0, 0, 0, 0]);
    g.set_row(0, [6, 5, 0, 2, 1]);
    g.set_win_seq(1, 2, 1);
    assert_eq!(g.win_seq, vec![5, 1, 4]);
}

#[test]
fn lighting_up_and_picking() {
    let mut s = HackSelection::new();
    assert_eq!(s.lights_up(GridPos { x: 3, y: 0 }), Some(true));
    assert_eq!(s.lights_up(GridPos { x: 3, y: 1 }), Some(false));
    assert_eq!(s.pickable(GridPos { x: 3, y: 0 }), Some(true));
    s.pick(GridPos { x: 3, y: 0 }, 2);
    assert_eq!(s.lights_up(GridPos { x: 3, y: 0 }), Some(true));
    assert_eq!(s.pickable(GridPos { x: 3, y: 0 }), Some(false));
    assert_eq!(s.pickable(GridPos { x: 3, y: 4 }), Some(true));
    s.pick(GridPos { x: 3, y: 4 }, 1);
    assert_eq!(s.lights_up(GridPos { x: 0, y: 4 }), Some(true));
    assert_eq!(s.pickable(GridPos { x: 3, y: 4 }), Some(false));
    assert_eq!(s.pickable(GridPos { x: 1, y: 4 }), Some(true));
    assert!(s.is_picked(GridPos { x: 3, y: 4 }));
    assert!(!s.is_picked(GridPos { x: 1, y: 4 }));
    s.pick(GridPos { x: 1, y: 4 }, 0);
    assert_eq!(s.lights_up(GridPos { x: 1, y: 1 }), None);
    assert_eq!(s.pickable(GridPos { x: 1, y: 1 }), None);
}

#[test]
fn judging_the_entry() {
    let win = vec![2, 1, 0];
    let mut s = HackSelection::new();
    s.pick(GridPos { x: 3, y: 0 }, 2);
    assert_eq!(s.finish(&win), None);
    assert_eq!(s.positions.len(), 1);
    s.pick(GridPos { x: 3, y: 4 }, 1);
    s.pick(GridPos { x: 1, y: 4 }, 0);
    assert_eq!(s.finish(&win), Some(false));
    assert!(s.positions.is_empty());
    assert!(s.indices.is_empty());
    s.pick(GridPos { x: 0, y: 0 }, 2);
    s.pick(GridPos { x: 0, y: 1 }, 2);
    s.pick(GridPos { x: 1, y: 1 }, 2);
    assert_eq!(s.finish(&win), Some(true));
}

#[test]
fn buttons_when_the_display_opens() {
    let mut g = HackGrid::default();
    g.begin_load();
    g.set_row(0, [6, 5, 0, 2, 1]);
    g.set_row(1, [3, 3, 3, 3, 3]);
    assert_eq!(g.initial_button(true, 1, 0), HackButton { state: HackButtonState::Active, index: 5 });
    assert_eq!(g.initial_button(true, 4, 1), HackButton { state: HackButtonState::Enabled, index: 3 });
    assert_eq!(g.initial_button(false, 1, 0), HackButton { state: HackButtonState::Disabled, index: 0 });
}
