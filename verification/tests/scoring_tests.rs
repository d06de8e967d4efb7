use audio_fingerprint::scoring::{analyze_relative_timing, is_aligned, score_time_pairs};
use std::collections::HashMap;

#[test]
fn two_pairs_with_equal_gaps_cast_one_vote() {
    let times: Vec<[u32; 2]> = vec![[1000, 1000], [2000, 2000]];
    assert_eq!(score_time_pairs(&times), 1);
}

#[test]
fn gap_difference_of_exactly_the_tolerance_casts_no_vote() {
    assert!(!is_aligned(&[0, 0], &[200, 100]));
    assert!(!is_aligned(&[0, 0], &[100, 200]));
    let times: Vec<[u32; 2]> = vec![[0, 0], [200, 100]];
    assert_eq!(score_time_pairs(&times), 0);
    let times: Vec<[u32; 2]> = vec![[0, 0], [100, 200]];
    assert_eq!(score_time_pairs(&times), 0);
}

#[test]
fn gap_difference_just_below_the_tolerance_casts_a_vote() {
    assert!(is_aligned(&[0, 0], &[199, 100]));
    assert!(is_aligned(&[0, 0], &[100, 199]));
    assert!(is_aligned(&[500, 70], &[500, 70]));
}

#[test]
fn gaps_are_distances_whatever_the_order_of_the_times() {
    assert!(is_aligned(&[2000, 1000], &[1000, 2000]));
    assert!(is_aligned(&[0, u32::MAX], &[u32::MAX, 0]));
    assert!(!is_aligned(&[0, 0], &[u32::MAX, 0]));
}

#[test]
fn fewer_than_two_pairs_have_no_votes() {
    assert_eq!(score_time_pairs(&Vec::new()), 0);
    assert_eq!(score_time_pairs(&vec![[5, 5]]), 0);
}

#[test]
fn every_agreeing_pair_of_pairs_is_counted_once() {
    let times: Vec<[u32; 2]> = vec![[0, 0], [1000, 1000], [2000, 2000], [3000, 3000]];
    assert_eq!(score_time_pairs(&times), 6);
    let times: Vec<[u32; 2]> = vec![[0, 0], [1000, 1000], [2000, 9000]];
    assert_eq!(score_time_pairs(&times), 1);
}

#[test]
fn each_song_is_scored_on_its_own_pairs() {
    let mut matches: HashMap<i64, Vec<[u32; 2]>> = HashMap::new();
    matches.insert(1, vec![[0, 0], [1000, 1000], [2000, 2000]]);
    matches.insert(2, vec![[0, 0], [1000, 5000]]);
    matches.insert(3, vec![[7, 7]]);
    let scores = analyze_relative_timing(&matches);
    assert_eq!(scores.len(), 3);
    assert_eq!(scores[&1], 3);
    assert_eq!(scores[&2], 0);
    assert_eq!(scores[&3], 0);
}
