use gumbel_estimation::gen_data::{pick_all, record_draw, sample_duplicates};
use std::collections::HashSet;

#[test]
fn duplicates_come_from_universe() {
    let universe: Vec<u64> = vec![3, 1_000_000_007, u64::MAX - 1, 42];
    let dups = sample_duplicates(&universe, 1000);
    assert_eq!(dups.len(), 1000);
    assert!(dups.iter().all(|d| universe.contains(d)));
}

#[test]
fn duplicates_of_one_element() {
    let dups = sample_duplicates(&vec![17], 5);
    assert_eq!(dups, vec![17, 17, 17, 17, 17]);
    assert!(sample_duplicates(&vec![1, 2], 0).is_empty());
}

#[test]
fn pick_all_follows_indices() {
    let universe: Vec<u64> = vec![10, 20, 30];
    assert_eq!(pick_all(&universe, &vec![2, 0, 0, 1]), vec![30, 10, 10, 20]);
    assert!(pick_all(&universe, &vec![]).is_empty());
}

#[test]
fn record_draw_keeps_values_distinct() {
    let mut universe: HashSet<u64> = HashSet::new();
    assert!(!record_draw(&mut universe, 5, 3));
    assert!(!record_draw(&mut universe, 5, 3));
    assert_eq!(universe.len(), 1);
    assert!(!record_draw(&mut universe, 9, 3));
    assert!(record_draw(&mut universe, 1, 3));
    assert_eq!(universe.len(), 3);
    assert!(universe.contains(&5) && universe.contains(&9) && universe.contains(&1));
    let mut single: HashSet<u64> = HashSet::new();
    assert!(record_draw(&mut single, u64::MAX, 1));
}
