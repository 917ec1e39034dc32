use debree::platforms::{get_index, MovingPlatformMode};
use debree::rapier::{debug_render_after_frame, SwitchableRapierDebugPlugin};
use debree::utils::PingPongRem;

#[test]
fn pingpong_u32() {
    assert_eq!(7u32.pingpong_rem(3), 1);
    assert_eq!(3u32.pingpong_rem(3), 3);
    assert_eq!(4u32.pingpong_rem(3), 2);
    assert_eq!(5u32.pingpong_rem(3), 1);
    assert_eq!(6u32.pingpong_rem(3), 0);
    assert_eq!(0u32.pingpong_rem(1), 0);
    assert_eq!(1u32.pingpong_rem(1), 1);
}

#[test]
fn pingpong_usize_walk() {
    let walk: Vec<usize> = (0usize..9).map(|i| i.pingpong_rem(3)).collect();
    assert_eq!(walk, vec![0, 1, 2, 3, 2, 1, 0, 1, 2]);
}

#[test]
fn pingpong_is_periodic() {
    for x in 0u32..50 {
        assert_eq!((x + 10).pingpong_rem(5), x.pingpong_rem(5));
        assert!(x.pingpong_rem(5) <= 5);
    }
}

#[test]
fn platform_waypoints() {
    assert_eq!(get_index(MovingPlatformMode::Loop, 5, 3), 2);
    assert_eq!(get_index(MovingPlatformMode::Loop, 2, 3), 2);
    assert_eq!(get_index(MovingPlatformMode::PingPong, 4, 3), 2);
    assert_eq!(get_index(MovingPlatformMode::PingPong, 3, 3), 3);
    assert_eq!(get_index(MovingPlatformMode::PingPong, 7, 3), 1);
}

#[test]
fn rapier_debug_plugin() {
    assert!(SwitchableRapierDebugPlugin::enabled().0);
    assert!(!SwitchableRapierDebugPlugin::disabled().0);
    assert!(!SwitchableRapierDebugPlugin::default().0);
    assert!(debug_render_after_frame(false, true));
    assert!(!debug_render_after_frame(true, true));
    assert!(debug_render_after_frame(true, false));
}
