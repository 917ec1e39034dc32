use debree::interaction::{
    submit_button_frame, InInteractionArray, InteractionTypes, ScrollSelector, INTERACTABLE_CG,
    PLAYER_CG, PLAYER_SENSOR_CG, STRUCTURES_CG,
};

#[test]
fn collision_groups_are_distinct_bits() {
    assert_eq!(PLAYER_CG, 1);
    assert_eq!(PLAYER_SENSOR_CG, 2);
    assert_eq!(INTERACTABLE_CG, 4);
    assert_eq!(STRUCTURES_CG, 8);
}

#[test]
fn e_key_enters_and_leaves() {
    let mut a = InInteractionArray::new();
    assert_eq!(a.in_interaction, InteractionTypes::default());
    assert!(a.e_key(false, Some(InteractionTypes::PipePuzzle)));
    assert!(!a.in_any_interaction);
    assert!(a.e_key(true, Some(InteractionTypes::PipePuzzle)));
    assert!(a.in_any_interaction);
    assert_eq!(a.in_interaction, InteractionTypes::PipePuzzle);
    assert!(!a.e_key(false, None));
    assert!(a.in_any_interaction);
    assert!(!a.e_key(true, None));
    assert!(!a.in_any_interaction);
    assert_eq!(a.in_interaction, InteractionTypes::PipePuzzle);
    assert!(a.e_key(true, None));
    assert!(!a.in_any_interaction);
}

#[test]
fn submit_frames() {
    assert_eq!(submit_button_frame(true), 1);
    assert_eq!(submit_button_frame(false), 0);
}

#[test]
fn selector_reach_and_hint() {
    let mut s = ScrollSelector::new();
    assert_eq!(s.hint_target(), None);
    assert_eq!(s.highlighted(), None);
    s.enter_reach(10);
    s.enter_reach(20);
    s.enter_reach(30);
    assert_eq!(s.hint_target(), Some(10));
    s.show_hint(99);
    assert_eq!(s.hint_target(), None);
    assert_eq!(s.highlighted(), Some(10));
}

#[test]
fn scrolling_moves_the_highlight() {
    let mut s = ScrollSelector::new();
    s.enter_reach(10);
    s.enter_reach(20);
    s.enter_reach(30);
    s.show_hint(99);
    assert_eq!(s.scroll(false, 0), None);
    assert_eq!(s.current_displayed, Some(99));
    assert_eq!(s.scroll(false, 2), Some(99));
    assert_eq!(s.current_selected, 2);
    assert_eq!(s.current_displayed, None);
    assert_eq!(s.scroll(false, 2), None);
    assert_eq!(s.current_selected, 1);
    assert_eq!(s.scroll(true, 0), None);
    assert_eq!(s.current_selected, 1);
    s.current_selected = 0;
    assert_eq!(s.scroll(true, 0), None);
    assert_eq!(s.current_selected, 2);
}

#[test]
fn scrolling_with_nothing_in_reach() {
    let mut s = ScrollSelector::new();
    assert_eq!(s.scroll(false, 3), None);
    assert_eq!(s.current_selected, 0);
}

#[test]
fn leaving_reach_resets_the_hint() {
    let mut s = ScrollSelector::new();
    s.enter_reach(10);
    s.enter_reach(20);
    s.current_selected = 1;
    s.show_hint(77);
    assert_eq!(s.leave_reach(20), Some(77));
    assert_eq!(s.selection_options, vec![10]);
    assert_eq!(s.current_selected, 0);
    assert_eq!(s.current_displayed, None);
    assert_eq!(s.leave_reach(55), None);
    assert_eq!(s.selection_options, vec![10]);
    assert_eq!(s.leave_reach(10), None);
    assert!(s.selection_options.is_empty());
}
