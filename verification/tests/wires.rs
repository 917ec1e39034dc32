use debree::wires::{ConnectOutcome, WireMinigame};

#[test]
fn second_wire_skips_used_sockets() {
    let mut g = WireMinigame::default();
    g.refresh_game_with([3, 3, 3, 3]);
    assert_eq!(g.task.get(&3), Some(&1));
    assert_eq!(g.task.get(&1), Some(&3));
    assert_eq!(g.task.get(&0), Some(&2));
    assert_eq!(g.task.get(&2), Some(&0));
}

#[test]
fn layout_from_rolls() {
    let mut g = WireMinigame::default();
    g.refresh_game_with([0, 0, 0, 0]);
    assert_eq!(g.task.get(&0), Some(&2));
    assert_eq!(g.task.get(&2), Some(&0));
    assert_eq!(g.task.get(&1), Some(&3));
    assert_eq!(g.task.get(&3), Some(&1));
    assert_eq!(g.task.len(), 4);
    assert!(g.connected.is_empty());
    assert_eq!(g.get_color(0), Some(180));
    assert_eq!(g.get_color(2), Some(180));
    assert_eq!(g.get_color(1), Some(0));
    assert_eq!(g.get_color(3), Some(0));
    assert_eq!(g.get_color(7), None);
}

#[test]
fn random_round_is_a_perfect_matching() {
    let mut g = WireMinigame::default();
    if g.refresh_game().is_ok() {
        assert_eq!(g.task.len(), 4);
        for (a, b) in g.task.iter() {
            assert_ne!(a, b);
            assert_eq!(g.task.get(b), Some(a));
            assert!(g.get_color(*a).is_some());
            assert_eq!(g.get_color(*a), g.get_color(*b));
        }
        assert!(g.connected.is_empty());
    }
}

#[test]
fn colours_by_task() {
    let mut g = WireMinigame::default();
    g.calc_color(5, 0);
    g.calc_color(6, 1);
    g.calc_color(7, 2);
    assert_eq!(g.get_color(5), Some(180));
    assert_eq!(g.get_color(6), Some(0));
    assert_eq!(g.get_color(7), Some(180));
}

#[test]
fn connecting_wires() {
    let mut g = WireMinigame::default();
    g.refresh_game_with([0, 0, 0, 0]);
    assert_eq!(g.connect(0, 2), ConnectOutcome::Connected);
    assert_eq!(g.connected.get(&0), Some(&2));
    assert_eq!(g.connected.get(&2), Some(&0));
    assert_eq!(g.connect(1, 2), ConnectOutcome::AlreadyConnected);
    assert_eq!(g.connected.len(), 2);
    assert_eq!(g.connect(3, 1), ConnectOutcome::Connected);
    assert_eq!(g.connected.len(), 4);
}

#[test]
fn wrong_wire_fails() {
    let mut g = WireMinigame::default();
    g.refresh_game_with([0, 0, 0, 0]);
    assert_eq!(g.connect(1, 2), ConnectOutcome::Wrong);
    assert_eq!(g.connected.get(&1), Some(&2));
}

#[test]
fn grab_and_release() {
    let mut g = WireMinigame::default();
    assert_eq!(g.locked_id, None);
    g.grab(3);
    assert_eq!(g.locked_id, Some(3));
    g.release();
    assert_eq!(g.locked_id, None);
    assert!(g.allow_unordered);
}
