use debree::animation::{is_weight_target, weight_step, PlayerAnimationNode, WeightStep};

#[test]
fn all_clips_in_order() {
    let all = PlayerAnimationNode::iter();
    assert_eq!(all.len(), 13);
    assert_eq!(all[0], PlayerAnimationNode::Breakdance);
    assert_eq!(all[6], PlayerAnimationNode::Float);
    assert_eq!(all[12], PlayerAnimationNode::Walk);
}

#[test]
fn dances_by_roll() {
    assert_eq!(PlayerAnimationNode::random_dance_from(0), PlayerAnimationNode::Breakdance);
    assert_eq!(PlayerAnimationNode::random_dance_from(1), PlayerAnimationNode::Dance);
    assert_eq!(PlayerAnimationNode::random_dance_from(6), PlayerAnimationNode::HeadSpin2);
    assert_eq!(PlayerAnimationNode::random_dance_from(7), PlayerAnimationNode::Breakdance);
    assert_eq!(PlayerAnimationNode::random_dance_from(12), PlayerAnimationNode::HeadSpin);
}

#[test]
fn random_dance_is_a_dance() {
    if let Ok(d) = PlayerAnimationNode::random_dance() {
        assert!(!d.need_interpolation());
        assert!(!matches!(d, PlayerAnimationNode::Climb | PlayerAnimationNode::RunJump));
    }
}

#[test]
fn blending_clips() {
    assert!(PlayerAnimationNode::Idle.need_interpolation());
    assert!(PlayerAnimationNode::Float.need_interpolation());
    assert!(!PlayerAnimationNode::Climb.need_interpolation());
    assert!(!PlayerAnimationNode::Dance3.need_interpolation());
}

#[test]
fn clip_numbers_round_trip() {
    for n in PlayerAnimationNode::iter() {
        assert_eq!(PlayerAnimationNode::try_from_u8(n.to_u8()), Some(n));
    }
    assert_eq!(PlayerAnimationNode::Walk.to_u8(), 12);
    assert_eq!(PlayerAnimationNode::try_from_u8(9), Some(PlayerAnimationNode::Idle));
    assert_eq!(PlayerAnimationNode::try_from_u8(13), None);
}

#[test]
fn weight_steps() {
    type N = PlayerAnimationNode;
    assert_eq!(weight_step(N::Idle, N::Float), WeightStep::Ease(8));
    assert_eq!(weight_step(N::Float, N::Run), WeightStep::Ease(8));
    assert_eq!(weight_step(N::Idle, N::Run), WeightStep::Ease(6));
    assert_eq!(weight_step(N::Dance, N::Idle), WeightStep::Snap);
    assert_eq!(weight_step(N::Walk, N::Climb), WeightStep::Snap);
    assert!(is_weight_target(N::Run, N::Run));
    assert!(!is_weight_target(N::Run, N::Walk));
}
