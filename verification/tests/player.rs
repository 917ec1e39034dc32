use debree::animation::PlayerAnimationNode;
use debree::player::{air_jump, step_mode, toggle_spacewalk, ModeStep, PlayerMode};

#[test]
fn mode_predicates() {
    assert!(PlayerMode::Climbing(3).is_climbing());
    assert!(PlayerMode::Spacewalk.is_spacewalking());
    assert!(PlayerMode::Dance.is_dancing());
    assert!(PlayerMode::Regular.is_regular());
    assert!(!PlayerMode::Regular.is_climbing());
}

#[test]
fn spacewalk_key() {
    assert_eq!(toggle_spacewalk(PlayerMode::Regular, true), PlayerMode::Spacewalk);
    assert_eq!(toggle_spacewalk(PlayerMode::Spacewalk, true), PlayerMode::Regular);
    assert_eq!(toggle_spacewalk(PlayerMode::Climbing(1), true), PlayerMode::Spacewalk);
    assert_eq!(toggle_spacewalk(PlayerMode::Dance, false), PlayerMode::Dance);
    let twice = toggle_spacewalk(toggle_spacewalk(PlayerMode::Dance, true), true);
    assert_eq!(twice, PlayerMode::Regular);
}

#[test]
fn dancing_stops() {
    let keep = ModeStep { mode: PlayerMode::Dance, anim: None, left_ladder: false };
    assert_eq!(step_mode(PlayerMode::Dance, 0, 1, true, true, Some(5), false), keep);
    let stop = ModeStep { mode: PlayerMode::Regular, anim: Some(PlayerAnimationNode::Idle), left_ladder: false };
    assert_eq!(step_mode(PlayerMode::Dance, -1, 0, true, true, None, false), stop);
    assert_eq!(step_mode(PlayerMode::Dance, 0, 0, false, true, None, false), stop);
}

#[test]
fn grabbing_and_leaving_ladders() {
    let grab = step_mode(PlayerMode::Regular, 0, 1, true, true, Some(9), false);
    assert_eq!(grab.mode, PlayerMode::Climbing(9));
    assert_eq!(grab.anim, Some(PlayerAnimationNode::Climb));
    assert_eq!(step_mode(PlayerMode::Regular, 0, 1, true, false, Some(9), false).mode, PlayerMode::Regular);
    assert_eq!(step_mode(PlayerMode::Regular, 1, 0, true, true, Some(9), false).mode, PlayerMode::Regular);
    assert_eq!(step_mode(PlayerMode::Regular, 0, -1, true, true, None, false).mode, PlayerMode::Regular);
    let climb = step_mode(PlayerMode::Climbing(9), 0, 1, true, true, Some(9), true);
    assert_eq!(climb, ModeStep { mode: PlayerMode::Climbing(9), anim: Some(PlayerAnimationNode::Climb), left_ladder: false });
    let out = step_mode(PlayerMode::Climbing(9), 1, 0, true, true, Some(9), true);
    assert_eq!(out.mode, PlayerMode::Regular);
    assert!(out.left_ladder);
    let lost = step_mode(PlayerMode::Climbing(9), 0, 1, true, true, None, false);
    assert_eq!(lost, ModeStep { mode: PlayerMode::Regular, anim: None, left_ladder: true });
}

#[test]
fn spacewalk_floats() {
    let s = step_mode(PlayerMode::Spacewalk, 1, 1, false, true, Some(2), true);
    assert_eq!(s, ModeStep { mode: PlayerMode::Spacewalk, anim: Some(PlayerAnimationNode::Float), left_ladder: false });
}

#[test]
fn air_jumps() {
    assert_eq!(air_jump(true, 2), (true, 1));
    assert_eq!(air_jump(true, 0), (false, 0));
    assert_eq!(air_jump(false, 3), (false, 3));
}
