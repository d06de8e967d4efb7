use audio_fingerprint::filter::{count_target_zones_of, filter_matches};
use audio_fingerprint::hits::collect_hits;
use audio_fingerprint::keys::keys_of;
use audio_fingerprint::model::{Candidate, Couple, Hit, Match, Song};
use audio_fingerprint::ranking::{
    assemble_matches, query_candidates, rank_matches, ranked_matches, score_candidates,
};
use audio_fingerprint::tally::{count_target_zones, earliest_timestamps, group_time_pairs};
use std::collections::HashMap;

fn hit(song_id: i64, query_ms: u32, corpus_ms: u32) -> Hit {
    Hit { song_id, query_ms, corpus_ms }
}

fn found(song_id: i64, score: u64) -> Match {
    Match { song_id, youtube_url: format!("song {}", song_id), score }
}

#[test]
fn the_keys_of_a_map_are_listed_once_each() {
    let mut map: HashMap<u32, u32> = HashMap::new();
    assert!(keys_of(&map).is_empty());
    map.insert(3, 30);
    map.insert(1, 10);
    map.insert(2, 20);
    let mut keys = keys_of(&map);
    keys.sort();
    assert_eq!(keys, vec![1, 2, 3]);
}

#[test]
fn hits_are_collected_in_the_order_of_the_addresses() {
    let mut query: HashMap<u32, u32> = HashMap::new();
    query.insert(10, 100);
    query.insert(20, 200);
    query.insert(30, 300);
    let mut couples: HashMap<u32, Vec<Couple>> = HashMap::new();
    couples.insert(
        20,
        vec![Couple { anchor_time_ms: 7, song_id: 1 }, Couple { anchor_time_ms: 8, song_id: 2 }],
    );
    couples.insert(10, vec![Couple { anchor_time_ms: 9, song_id: 2 }]);
    couples.insert(40, vec![Couple { anchor_time_ms: 1, song_id: 3 }]);
    let hits = collect_hits(&query, &vec![20, 30, 10, 40], &couples);
    assert_eq!(hits, vec![hit(1, 200, 7), hit(2, 200, 8), hit(2, 100, 9)]);
}

#[test]
fn time_pairs_are_grouped_by_song_in_first_hit_order() {
    let hits = vec![hit(5, 1, 2), hit(3, 3, 4), hit(5, 5, 6), hit(3, 7, 8), hit(9, 9, 10)];
    let (songs, matches) = group_time_pairs(&hits);
    assert_eq!(songs, vec![5, 3, 9]);
    assert_eq!(matches.len(), 3);
    assert_eq!(matches[&5], vec![[1, 2], [5, 6]]);
    assert_eq!(matches[&3], vec![[3, 4], [7, 8]]);
    assert_eq!(matches[&9], vec![[9, 10]]);
}

#[test]
fn the_earliest_stored_timestamp_of_each_song_is_kept() {
    let hits = vec![hit(5, 0, 700), hit(3, 0, 40), hit(5, 0, 300), hit(5, 0, 900), hit(3, 0, 40)];
    let timestamps = earliest_timestamps(&hits);
    assert_eq!(timestamps.len(), 2);
    assert_eq!(timestamps[&5], 300);
    assert_eq!(timestamps[&3], 40);
}

#[test]
fn the_hits_of_each_stored_timestamp_are_counted() {
    let hits = vec![hit(5, 0, 700), hit(5, 1, 700), hit(3, 2, 700), hit(5, 3, 100), hit(5, 4, 700)];
    let zones = count_target_zones(&hits);
    assert_eq!(zones.len(), 2);
    assert_eq!(zones[&5].len(), 2);
    assert_eq!(zones[&5][&700], 3);
    assert_eq!(zones[&5][&100], 1);
    assert_eq!(zones[&3][&700], 1);
}

fn zones_of(counts: &[(u32, i32)]) -> HashMap<u32, i32> {
    counts.iter().copied().collect()
}

#[test]
fn a_timestamp_is_a_target_zone_from_five_hits_on() {
    assert_eq!(count_target_zones_of(&zones_of(&[])), 0);
    assert_eq!(count_target_zones_of(&zones_of(&[(1, 4), (2, 5), (3, 6), (4, 0), (5, -9)])), 2);
}

#[test]
fn songs_with_too_few_target_zones_are_filtered_out() {
    let mut matches: HashMap<i64, Vec<[u32; 2]>> = HashMap::new();
    matches.insert(1, vec![[1, 1]]);
    matches.insert(2, vec![[2, 2], [3, 3]]);
    matches.insert(3, vec![[4, 4]]);
    matches.insert(4, vec![[5, 5]]);
    let mut zones: HashMap<i64, HashMap<u32, i32>> = HashMap::new();
    zones.insert(1, zones_of(&[(10, 5), (20, 5), (30, 4)]));
    zones.insert(2, zones_of(&[(10, 5), (20, 9), (30, 7)]));
    zones.insert(3, zones_of(&[(10, 4)]));
    let kept = filter_matches(3, matches.clone(), &zones);
    assert_eq!(kept.len(), 1);
    assert_eq!(kept[&2], vec![[2, 2], [3, 3]]);
    let kept = filter_matches(2, matches.clone(), &zones);
    assert_eq!(kept.len(), 2);
    assert!(kept.contains_key(&1) && kept.contains_key(&2));
    // With no threshold a song still needs one target zone.
    let kept = filter_matches(0, matches, &zones);
    assert_eq!(kept.len(), 2);
    assert!(kept.contains_key(&1) && kept.contains_key(&2));
}

#[test]
fn every_song_that_was_hit_is_a_candidate() {
    let hits = vec![
        hit(5, 0, 1000),
        hit(3, 0, 40),
        hit(5, 1000, 2000),
        hit(5, 2000, 3000),
        hit(5, 3000, 900),
    ];
    let candidates = score_candidates(&hits);
    assert_eq!(
        candidates,
        vec![
            Candidate { song_id: 5, score: 3, first_seen_ms: 900 },
            Candidate { song_id: 3, score: 0, first_seen_ms: 40 },
        ]
    );
    assert!(score_candidates(&Vec::new()).is_empty());
}

#[test]
fn the_candidates_of_a_query_are_scored_on_its_hits() {
    let mut query: HashMap<u32, u32> = HashMap::new();
    query.insert(0xa, 1000);
    query.insert(0xb, 2000);
    let mut couples: HashMap<u32, Vec<Couple>> = HashMap::new();
    couples.insert(0xa, vec![Couple { anchor_time_ms: 1000, song_id: 1 }]);
    couples.insert(0xb, vec![Couple { anchor_time_ms: 2000, song_id: 1 }]);
    let candidates = query_candidates(&query, &vec![0xb, 0xa], &couples);
    assert_eq!(candidates, vec![Candidate { song_id: 1, score: 1, first_seen_ms: 1000 }]);
}

#[test]
fn candidates_without_metadata_make_no_match() {
    let candidates = vec![
        Candidate { song_id: 1, score: 4, first_seen_ms: 0 },
        Candidate { song_id: 2, score: 9, first_seen_ms: 0 },
        Candidate { song_id: 3, score: 6, first_seen_ms: 0 },
    ];
    let metadata = vec![
        Some(Song { id: 1, youtube_url: "one".to_string() }),
        None,
        Some(Song { id: 30, youtube_url: "three".to_string() }),
    ];
    let list = assemble_matches(&candidates, &metadata);
    assert_eq!(list.len(), 2);
    assert_eq!((list[0].song_id, list[0].score, list[0].youtube_url.as_str()), (1, 4, "one"));
    assert_eq!((list[1].song_id, list[1].score, list[1].youtube_url.as_str()), (3, 6, "three"));
    let ranked = ranked_matches(&candidates, &metadata);
    assert_eq!(ranked.len(), 2);
    assert_eq!((ranked[0].song_id, ranked[0].score), (3, 6));
    assert_eq!((ranked[1].song_id, ranked[1].score), (1, 4));
}

#[test]
fn matches_are_ranked_by_score_highest_first() {
    let ranked = rank_matches(vec![found(1, 3), found(2, 7)]);
    assert_eq!(ranked[0].song_id, 2);
    assert_eq!(ranked[1].song_id, 1);
    let ranked = rank_matches(vec![found(1, 5), found(2, 0), found(3, 9), found(4, 5), found(5, 7)]);
    let order: Vec<(i64, u64)> = ranked.iter().map(|m| (m.song_id, m.score)).collect();
    assert_eq!(order, vec![(3, 9), (5, 7), (1, 5), (4, 5), (2, 0)]);
    assert!(rank_matches(Vec::new()).is_empty());
}

#[test]
fn the_order_of_the_addresses_changes_no_candidate() {
    let mut query: HashMap<u32, u32> = HashMap::new();
    let mut couples: HashMap<u32, Vec<Couple>> = HashMap::new();
    for k in 0..6u32 {
        query.insert(k, 1000 * k);
        couples.insert(
            k,
            vec![
                Couple { anchor_time_ms: 1000 * k + 7000, song_id: 1 },
                Couple { anchor_time_ms: 90_000 - 3000 * k, song_id: 2 },
                Couple { anchor_time_ms: 1000 * k + 90, song_id: 2 },
            ],
        );
    }
    let mut forward = query_candidates(&query, &vec![0, 1, 2, 3, 4, 5], &couples);
    let mut shuffled = query_candidates(&query, &vec![4, 0, 5, 2, 1, 3], &couples);
    forward.sort_by_key(|c| c.song_id);
    shuffled.sort_by_key(|c| c.song_id);
    assert_eq!(forward, shuffled);
    assert_eq!(
        forward,
        vec![
            Candidate { song_id: 1, score: 15, first_seen_ms: 7000 },
            Candidate { song_id: 2, score: 15, first_seen_ms: 90 },
        ]
    );
}
