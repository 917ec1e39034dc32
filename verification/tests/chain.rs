use debree::chain::{chain_progress_text, decimal_string, graph_slot, record_sample, CHAIN_HISTORY};
use std::collections::VecDeque;

#[test]
fn progress_line_is_zero_padded() {
    assert_eq!(chain_progress_text(5), "Chain Reaction Progress 005 %");
    assert_eq!(chain_progress_text(42), "Chain Reaction Progress 042 %");
    assert_eq!(chain_progress_text(100), "Chain Reaction Progress 100 %");
    assert_eq!(chain_progress_text(0), "Chain Reaction Progress 000 %");
    assert_eq!(chain_progress_text(-5), "Chain Reaction Progress 0-5 %");
}

#[test]
fn decimal_digits() {
    assert_eq!(decimal_string(0), "0");
    assert_eq!(decimal_string(907), "907");
    assert_eq!(decimal_string(-42), "-42");
}

#[test]
fn history_keeps_the_newest() {
    let mut h: VecDeque<u32> = VecDeque::new();
    record_sample(&mut h, 1, 3);
    record_sample(&mut h, 2, 3);
    record_sample(&mut h, 3, 3);
    assert_eq!(h, VecDeque::from(vec![1, 2, 3]));
    record_sample(&mut h, 4, 3);
    assert_eq!(h, VecDeque::from(vec![2, 3, 4]));
    for i in 0..100 {
        record_sample(&mut h, i, CHAIN_HISTORY);
    }
    assert_eq!(h.len(), CHAIN_HISTORY);
    assert_eq!(h.back(), Some(&99));
    assert_eq!(h.front(), Some(&60));
}

#[test]
fn graph_slots() {
    assert_eq!(graph_slot(0), (0, 0));
    assert_eq!(graph_slot(7), (1, 3));
    assert_eq!(graph_slot(39), (9, 3));
}
