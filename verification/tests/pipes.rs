use debree::pipe_puzzle::{
    filter_grid_corners, get_candidates, get_sides, neighbors, opposite_side, pick_candidate,
    pick_candidate_with_roll, pipe_weight, GridPos, Pipe, PipeEntity, PipeMinigame, PipeType, COLS,
    ROWS,
};

fn pipe(variant: PipeType, rotation: u8) -> Pipe {
    Pipe { variant, rotation }
}

#[test]
fn sides_follow_rotation() {
    assert_eq!(get_sides(&PipeType::TEE, 1), vec![1, 2, 0]);
    assert_eq!(get_sides(&PipeType::CORNER, 3), vec![3, 0]);
    assert_eq!(get_sides(&PipeType::CROSS, 0), vec![0, 1, 2, 3]);
    assert_eq!(pipe(PipeType::LINE, 1).get_sides(), vec![1, 3]);
}

#[test]
fn atlas_frames() {
    assert_eq!(pipe(PipeType::LINE, 1).get_index(), 13);
    assert_eq!(pipe(PipeType::LINE, 2).get_index(), 7);
    assert_eq!(pipe(PipeType::TEE, 2).get_index(), 9);
    assert_eq!(pipe(PipeType::CORNER, 3).get_index(), 2);
    assert_eq!(pipe(PipeType::SINGLE, 0).get_index(), 3);
    assert_eq!(pipe(PipeType::CROSS, 2).get_index(), 5);
    assert_eq!(pipe(PipeType::TEE, 7).get_index(), 15);
}

#[test]
fn all_types_in_order() {
    assert_eq!(
        PipeType::all(),
        [PipeType::SINGLE, PipeType::LINE, PipeType::CORNER, PipeType::TEE, PipeType::CROSS]
    );
}

#[test]
fn opposite_sides() {
    assert_eq!(opposite_side(0), 2);
    assert_eq!(opposite_side(1), 3);
    assert_eq!(opposite_side(3), 1);
}

#[test]
fn corners_drop_outward_sides() {
    assert_eq!(filter_grid_corners((0, 0), &[0, 1, 2, 3]), vec![1, 2]);
    assert_eq!(filter_grid_corners((5, 5), &[0, 1, 2, 3]), vec![0, 3]);
    assert_eq!(filter_grid_corners((2, 2), &[3, 0]), vec![3, 0]);
}

#[test]
fn neighbours_inside_grid() {
    assert_eq!(neighbors(0, 0), vec![((0, 1), 1), ((1, 0), 2)]);
    assert_eq!(neighbors(2, 3), vec![((1, 3), 0), ((2, 4), 1), ((3, 3), 2), ((2, 2), 3)]);
    assert_eq!(neighbors(5, 5), vec![((4, 5), 0), ((5, 4), 3)]);
}

#[test]
fn candidates_match_required_and_optional() {
    assert_eq!(get_candidates(&[], &[0, 2]), vec![pipe(PipeType::LINE, 0), pipe(PipeType::LINE, 2)]);
    assert_eq!(get_candidates(&[1], &[0]), vec![pipe(PipeType::SINGLE, 0), pipe(PipeType::CORNER, 0)]);
    assert_eq!(get_candidates(&[0, 1, 2, 3], &[]).len(), 20);
    assert!(get_candidates(&[], &[]).is_empty());
}

#[test]
fn weights() {
    assert_eq!(pipe_weight(PipeType::SINGLE), 10);
    assert_eq!(pipe_weight(PipeType::CORNER), 40);
    assert_eq!(pipe_weight(PipeType::TEE), 20);
}

#[test]
fn weighted_pick_by_roll() {
    let c = [pipe(PipeType::SINGLE, 0), pipe(PipeType::CORNER, 0)];
    assert_eq!(pick_candidate_with_roll(&c, 5), Some(c[0]));
    assert_eq!(pick_candidate_with_roll(&c, 10), Some(c[1]));
    assert_eq!(pick_candidate_with_roll(&c, 49), Some(c[1]));
    assert_eq!(pick_candidate_with_roll(&c, 59), Some(c[0]));
    assert_eq!(pick_candidate_with_roll(&[], 7), None);
}

#[test]
fn random_pick_is_a_candidate() {
    let c = [pipe(PipeType::TEE, 1), pipe(PipeType::LINE, 0)];
    if let Ok(p) = pick_candidate(&c) {
        assert!(c.contains(&p.unwrap()));
    }
    assert_eq!(pick_candidate(&[]), Ok(None));
}

#[test]
fn empty_grid_is_solved() {
    let g = PipeMinigame::empty();
    assert!(g.is_solved());
    for y in 0..ROWS {
        for x in 0..COLS {
            assert!(g.get_pipe(x, y).is_none());
        }
    }
    assert!(PipeMinigame::default().is_solved());
}

#[test]
fn filled_grid_is_solved() {
    let mut g = PipeMinigame::empty();
    if g.fill_solved().is_ok() {
        assert!(g.is_solved());
        let placed = (0..ROWS)
            .flat_map(|y| (0..COLS).map(move |x| (x, y)))
            .filter(|&(x, y)| g.get_pipe(x, y).is_some())
            .count();
        assert!(placed >= 1);
    }
}

#[test]
fn shuffle_keeps_pieces() {
    let mut g = PipeMinigame::empty();
    if g.fill_solved().is_ok() {
        let before: Vec<Option<PipeType>> = (0..ROWS * COLS)
            .map(|i| g.get_pipe(i % COLS, i / COLS).map(|p| p.variant))
            .collect();
        if g.shuffle().is_ok() {
            let after: Vec<Option<PipeType>> = (0..ROWS * COLS)
                .map(|i| g.get_pipe(i % COLS, i / COLS).map(|p| p.variant))
                .collect();
            assert_eq!(before, after);
        }
    }
}

#[test]
fn four_turns_restore_a_pipe() {
    let mut g = PipeMinigame::empty();
    if g.fill_solved().is_ok() {
        let i = (0..ROWS * COLS).find(|&i| g.get_pipe(i % COLS, i / COLS).is_some()).unwrap();
        let pos = GridPos { x: (i % COLS) as u32, y: (i / COLS) as u32 };
        let start = *g.get_pipe(i % COLS, i / COLS).unwrap();
        g.rotate(pos);
        let once = *g.get_pipe(i % COLS, i / COLS).unwrap();
        assert_eq!(once.rotation, (start.rotation + 1) % 4);
        assert_eq!(once.variant, start.variant);
        g.rotate(pos);
        g.rotate(pos);
        g.rotate(pos);
        assert_eq!(*g.get_pipe(i % COLS, i / COLS).unwrap(), start);
    }
}

#[test]
fn out_of_grid_is_empty_and_unrotatable() {
    let mut g = PipeMinigame::empty();
    assert!(g.get_pipe(COLS, 0).is_none());
    assert!(g.get_pipe(0, ROWS).is_none());
    g.rotate(GridPos { x: 9, y: 9 });
    assert!(g.is_solved());
}

#[test]
fn clear_empties_the_grid() {
    let mut g = PipeMinigame::empty();
    let _ = g.fill_solved();
    g.clear();
    for y in 0..ROWS {
        for x in 0..COLS {
            assert!(g.get_pipe(x, y).is_none());
        }
    }
    assert!(g.is_solved());
}

#[test]
fn pipe_entity_turns() {
    let mut e = PipeEntity { pipe: Some(pipe(PipeType::CORNER, 3)), position: GridPos { x: 1, y: 2 } };
    e.rotate();
    assert_eq!(e.pipe, Some(pipe(PipeType::CORNER, 0)));
    assert_eq!(e.get_index(), 0);
    assert_eq!(e.position, GridPos { x: 1, y: 2 });
    let mut empty = PipeEntity { pipe: None, position: GridPos { x: 0, y: 0 } };
    empty.rotate();
    assert_eq!(empty.pipe, None);
    assert_eq!(empty.get_index(), 15);
}

#[test]
fn scrambled_grid_can_be_clicked_back() {
    let mut g = PipeMinigame::empty();
    if g.fill_solved().is_err() {
        return;
    }
    let goal: Vec<Option<Pipe>> = (0..ROWS * COLS).map(|i| g.get_pipe(i % COLS, i / COLS).cloned()).collect();
    if g.shuffle().is_err() {
        return;
    }
    for i in 0..ROWS * COLS {
        if let (Some(target), Some(now)) = (goal[i], g.get_pipe(i % COLS, i / COLS).cloned()) {
            let clicks = (target.rotation + 4 - now.rotation) % 4;
            for _ in 0..clicks {
                g.rotate(GridPos { x: (i % COLS) as u32, y: (i / COLS) as u32 });
            }
        }
    }
    let back: Vec<Option<Pipe>> = (0..ROWS * COLS).map(|i| g.get_pipe(i % COLS, i / COLS).cloned()).collect();
    assert_eq!(back, goal);
    assert!(g.is_solved());
}

#[test]
fn shuffle_by_rolls() {
    let mut g = PipeMinigame::empty();
    let rolls: Vec<u32> = (0..(ROWS * COLS) as u32).map(|i| i * 7 + 1).collect();
    g.shuffle_with(&rolls);
    assert!(g.is_solved());
    if g.fill_solved().is_ok() {
        let pieces: Vec<Option<PipeType>> =
            (0..ROWS * COLS).map(|i| g.get_pipe(i % COLS, i / COLS).map(|p| p.variant)).collect();
        g.shuffle_with(&rolls);
        for i in 0..ROWS * COLS {
            let now = g.get_pipe(i % COLS, i / COLS);
            assert_eq!(now.map(|p| p.variant), pieces[i]);
            if let Some(p) = now {
                assert_eq!(p.rotation as u32, rolls[i] % 4);
            }
        }
    }
}

#[test]
fn fill_goes_as_far_as_it_can() {
    let mut g = PipeMinigame::empty();
    if g.fill_solved().is_err() {
        return;
    }
    for r in 0..ROWS {
        for c in 0..COLS {
            if g.get_pipe(c, r).is_some() {
                continue;
            }
            let near = neighbors(r, c);
            if !near.iter().any(|((nr, nc), _)| g.get_pipe(*nc, *nr).is_some()) {
                continue;
            }
            let mut required = vec![];
            let mut blocked = vec![];
            for ((nr, nc), d) in near {
                if let Some(n) = g.get_pipe(nc, nr) {
                    if n.get_sides().contains(&opposite_side(d)) {
                        required.push(d);
                    } else {
                        blocked.push(d);
                    }
                }
            }
            let optional: Vec<u8> = filter_grid_corners((r, c), &[0, 1, 2, 3])
                .into_iter()
                .filter(|s| !required.contains(s) && !blocked.contains(s))
                .collect();
            assert!(get_candidates(&optional, &required).is_empty());
        }
    }
}

#[test]
fn fill_from_rolls_starts_at_chosen_cell() {
    let mut g = PipeMinigame::empty();
    let mut rolls: Vec<u32> = (0..(3 + ROWS * COLS) as u32).map(|i| i.wrapping_mul(2654435761)).collect();
    rolls[0] = 8;
    rolls[1] = 15;
    g.fill_solved_with(&rolls);
    assert!(g.is_solved());
    assert!(g.get_pipe(15 % COLS, 8 % ROWS).is_some());
    let mut h = PipeMinigame::empty();
    h.fill_solved_with(&rolls);
    for y in 0..ROWS {
        for x in 0..COLS {
            assert_eq!(g.get_pipe(x, y), h.get_pipe(x, y));
        }
    }
}

#[test]
fn fill_from_rolls_keeps_other_pipes() {
    let mut g = PipeMinigame::empty();
    let rolls = vec![0u32; 3 + ROWS * COLS];
    g.fill_solved_with(&rolls);
    assert!(g.get_pipe(0, 0).is_some());
    let kept: Vec<Option<Pipe>> = (1..ROWS * COLS).map(|i| g.get_pipe(i % COLS, i / COLS).copied()).collect();
    let mut again = vec![5u32; 3 + ROWS * COLS];
    again[0] = 0;
    again[1] = 0;
    g.fill_solved_with(&again);
    let after: Vec<Option<Pipe>> = (1..ROWS * COLS).map(|i| g.get_pipe(i % COLS, i / COLS).copied()).collect();
    for (a, b) in kept.iter().zip(after.iter()) {
        if a.is_some() {
            assert_eq!(a, b);
        }
    }
}
