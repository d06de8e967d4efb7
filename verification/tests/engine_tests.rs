use audio_fingerprint::engine::{
    build_fingerprint, fetch_metadata, find_matches, find_matches_fgp, query_times, DatabaseClient,
};
use audio_fingerprint::error::{MatchError, ShazamError};
use audio_fingerprint::model::{Candidate, Couple, Song, SpectralBin};
use std::collections::HashMap;

struct FakeStorage {
    rows: Vec<(u32, Couple)>,
    songs: Vec<Song>,
    fail_couples: bool,
    fail_songs: bool,
}

impl FakeStorage {
    fn new() -> FakeStorage {
        FakeStorage { rows: Vec::new(), songs: Vec::new(), fail_couples: false, fail_songs: false }
    }

    fn insert_song(&mut self, id: i64, url: &str) {
        self.songs.push(Song { id, youtube_url: url.to_string() });
    }

    fn insert_fingerprint(&mut self, address: u32, couple: Couple) {
        self.rows.push((address, couple));
    }
}

impl DatabaseClient for FakeStorage {
    fn get_couples(&self, addresses: &[u32]) -> Result<HashMap<u32, Vec<Couple>>, MatchError> {
        if self.fail_couples {
            return Err(MatchError::DatabaseError("couples".to_string()));
        }
        let mut found: HashMap<u32, Vec<Couple>> = HashMap::new();
        for address in addresses {
            let mut couples = Vec::new();
            for (a, c) in &self.rows {
                if a == address {
                    couples.push(*c);
                }
            }
            found.insert(*address, couples);
        }
        Ok(found)
    }

    fn get_song_by_id(&self, song_id: i64) -> Result<Option<Song>, MatchError> {
        if self.fail_songs {
            return Err(MatchError::DatabaseError("songs".to_string()));
        }
        Ok(self.songs.iter().find(|s| s.id == song_id).cloned())
    }
}

fn couple(anchor_time_ms: u32, song_id: i64) -> Couple {
    Couple { anchor_time_ms, song_id }
}

#[test]
fn an_ingested_fingerprint_is_found_again_with_score_one() {
    let mut storage = FakeStorage::new();
    storage.insert_song(1, "https://example.org/one");
    storage.insert_fingerprint(0xa, couple(1000, 1));
    storage.insert_fingerprint(0xb, couple(2000, 1));
    let mut query: HashMap<u32, u32> = HashMap::new();
    query.insert(0xa, 1000);
    query.insert(0xb, 2000);
    let (matches, _elapsed) = find_matches_fgp(&query, &storage).unwrap();
    assert_eq!(matches.len(), 1);
    assert_eq!(matches[0].song_id, 1);
    assert_eq!(matches[0].score, 1);
    assert_eq!(matches[0].youtube_url, "https://example.org/one");
}

#[test]
fn a_song_without_metadata_is_left_out_and_the_query_succeeds() {
    let mut storage = FakeStorage::new();
    storage.insert_song(1, "https://example.org/one");
    storage.insert_fingerprint(0xa, couple(1000, 1));
    storage.insert_fingerprint(0xb, couple(2000, 1));
    storage.insert_fingerprint(0xa, couple(1000, 99));
    storage.insert_fingerprint(0xb, couple(2000, 99));
    let mut query: HashMap<u32, u32> = HashMap::new();
    query.insert(0xa, 1000);
    query.insert(0xb, 2000);
    let (matches, _elapsed) = find_matches_fgp(&query, &storage).unwrap();
    assert_eq!(matches.len(), 1);
    assert_eq!(matches[0].song_id, 1);
}

#[test]
fn the_song_with_the_higher_score_comes_first() {
    let mut storage = FakeStorage::new();
    storage.insert_song(3, "three");
    storage.insert_song(7, "seven");
    let mut query: HashMap<u32, u32> = HashMap::new();
    // Song 3: three hits in step with the query, three votes.
    for k in 0..3u32 {
        storage.insert_fingerprint(k, couple(1000 * k, 3));
    }
    // Song 7: four hits in step with the query, six votes, and two more
    // hits that are in step with each other only, one vote.
    for k in 0..4u32 {
        storage.insert_fingerprint(k, couple(1000 * k + 50_000, 7));
    }
    storage.insert_fingerprint(0, couple(500_000, 7));
    storage.insert_fingerprint(1, couple(501_000, 7));
    for k in 0..4u32 {
        query.insert(k, 1000 * k);
    }
    let (matches, _elapsed) = find_matches_fgp(&query, &storage).unwrap();
    assert_eq!(matches.len(), 2);
    assert_eq!(matches[0].song_id, 7);
    assert_eq!(matches[0].score, 7);
    assert_eq!(matches[1].song_id, 3);
    assert_eq!(matches[1].score, 3);
}

#[test]
fn a_query_without_hits_has_no_matches() {
    let mut storage = FakeStorage::new();
    storage.insert_song(1, "one");
    storage.insert_fingerprint(0xa, couple(1000, 1));
    let mut query: HashMap<u32, u32> = HashMap::new();
    query.insert(0xc, 1000);
    let (matches, _elapsed) = find_matches_fgp(&query, &storage).unwrap();
    assert!(matches.is_empty());
    let (matches, _elapsed) = find_matches_fgp(&HashMap::new(), &storage).unwrap();
    assert!(matches.is_empty());
}

#[test]
fn a_failure_of_the_couple_lookup_ends_the_query() {
    let mut storage = FakeStorage::new();
    storage.fail_couples = true;
    let mut query: HashMap<u32, u32> = HashMap::new();
    query.insert(0xa, 1000);
    match find_matches_fgp(&query, &storage) {
        Err(MatchError::DatabaseError(message)) => assert_eq!(message, "couples"),
        _ => panic!("the lookup failure was not reported"),
    }
}

#[test]
fn a_failure_of_the_metadata_lookup_ends_the_query() {
    let mut storage = FakeStorage::new();
    storage.insert_fingerprint(0xa, couple(1000, 1));
    storage.fail_songs = true;
    let mut query: HashMap<u32, u32> = HashMap::new();
    query.insert(0xa, 1000);
    match find_matches_fgp(&query, &storage) {
        Err(MatchError::DatabaseError(message)) => assert_eq!(message, "songs"),
        _ => panic!("the lookup failure was not reported"),
    }
}

#[test]
fn metadata_is_fetched_candidate_by_candidate() {
    let mut storage = FakeStorage::new();
    storage.insert_song(2, "two");
    let candidates = vec![
        Candidate { song_id: 1, score: 0, first_seen_ms: 0 },
        Candidate { song_id: 2, score: 0, first_seen_ms: 0 },
    ];
    let metadata = fetch_metadata(&storage, &candidates).unwrap();
    assert_eq!(metadata.len(), 2);
    assert!(metadata[0].is_none());
    assert_eq!(metadata[1].as_ref().unwrap().youtube_url, "two");
}

#[test]
fn the_query_times_are_the_anchor_times_of_the_fingerprint() {
    let mut fingerprints: HashMap<u32, Couple> = HashMap::new();
    fingerprints.insert(5, couple(1234, 42));
    fingerprints.insert(9, couple(0, 42));
    let query = query_times(&fingerprints);
    assert_eq!(query.len(), 2);
    assert_eq!(query[&5], 1234);
    assert_eq!(query[&9], 0);
}

fn frame_with(strong: &[(usize, u64, i32)]) -> Vec<SpectralBin> {
    let mut frame = vec![SpectralBin { re: 0, magnitude: 0 }; 513];
    for (idx, magnitude, re) in strong {
        frame[*idx] = SpectralBin { re: *re, magnitude: *magnitude };
    }
    frame
}

#[test]
fn a_signal_failure_ends_the_query_as_a_spectrogram_error() {
    let storage = FakeStorage::new();
    let failed: Result<Vec<Vec<SpectralBin>>, ShazamError> =
        Err(ShazamError::InvalidSampleRate("Sample rates must be positive".to_string()));
    match find_matches(&storage, &failed, 1_000_000) {
        Err(MatchError::SpectrogramError(message)) => {
            assert_eq!(message, "Invalid sample rate: Sample rates must be positive")
        }
        _ => panic!("the signal failure was not reported"),
    }
}

#[test]
fn a_spectrogram_is_identified_by_the_fingerprint_stored_for_it() {
    let spectrogram: Vec<Vec<SpectralBin>> = vec![
        frame_with(&[(3, 900, 3)]),
        frame_with(&[(12, 900, 12)]),
        frame_with(&[(25, 900, 25)]),
        frame_with(&[(50, 900, 50)]),
    ];
    let stored = build_fingerprint(&spectrogram, 4_000_000, 11);
    assert_eq!(stored.len(), 6);
    let mut storage = FakeStorage::new();
    storage.insert_song(11, "eleven");
    for (address, couple) in &stored {
        storage.insert_fingerprint(*address, *couple);
    }
    let (matches, _elapsed) = find_matches(&storage, &Ok(spectrogram), 4_000_000).unwrap();
    assert_eq!(matches.len(), 1);
    assert_eq!(matches[0].song_id, 11);
    assert_eq!(matches[0].score, 15);
}

#[test]
fn a_query_without_addresses_asks_storage_nothing() {
    let mut storage = FakeStorage::new();
    storage.fail_couples = true;
    storage.fail_songs = true;
    let (matches, _elapsed) = find_matches_fgp(&HashMap::new(), &storage).unwrap();
    assert!(matches.is_empty());
}

#[test]
fn without_candidates_no_metadata_is_asked_for() {
    let mut storage = FakeStorage::new();
    storage.fail_songs = true;
    assert!(fetch_metadata(&storage, &Vec::new()).unwrap().is_empty());
    let candidates = vec![Candidate { song_id: 1, score: 0, first_seen_ms: 0 }];
    assert!(fetch_metadata(&storage, &candidates).is_err());
}

#[test]
fn a_spectrogram_without_a_fingerprint_has_no_matches_and_asks_storage_nothing() {
    let mut storage = FakeStorage::new();
    storage.fail_couples = true;
    storage.fail_songs = true;
    let silent: Vec<Vec<SpectralBin>> = vec![frame_with(&[]), frame_with(&[])];
    let (matches, _elapsed) = find_matches(&storage, &Ok(silent), 2_000_000).unwrap();
    assert!(matches.is_empty());
    let one_peak: Vec<Vec<SpectralBin>> = vec![frame_with(&[(3, 900, 3)])];
    let (matches, _elapsed) = find_matches(&storage, &Ok(one_peak), 1_000_000).unwrap();
    assert!(matches.is_empty());
    let (matches, _elapsed) = find_matches(&storage, &Ok(Vec::new()), 0).unwrap();
    assert!(matches.is_empty());
}

#[test]
fn a_query_is_the_same_whatever_song_its_fingerprint_names() {
    let spectrogram: Vec<Vec<SpectralBin>> = vec![
        frame_with(&[(3, 900, 3)]),
        frame_with(&[(12, 900, 12), (200, 800, -4)]),
        frame_with(&[(25, 900, 25)]),
        frame_with(&[(50, 900, 50)]),
    ];
    let for_one = query_times(&build_fingerprint(&spectrogram, 4_000_000, 1));
    let for_other = query_times(&build_fingerprint(&spectrogram, 4_000_000, -77));
    assert!(!for_one.is_empty());
    assert_eq!(for_one, for_other);
}

#[test]
fn the_matches_of_a_spectrogram_are_those_of_its_query() {
    let stored_audio: Vec<Vec<SpectralBin>> = vec![
        frame_with(&[(3, 900, 3)]),
        frame_with(&[(12, 900, 12)]),
        frame_with(&[(25, 900, 25)]),
        frame_with(&[(50, 900, 50)]),
        frame_with(&[(100, 900, 100)]),
    ];
    let mut storage = FakeStorage::new();
    storage.insert_song(11, "eleven");
    storage.insert_song(12, "twelve");
    for (address, couple) in &build_fingerprint(&stored_audio, 5_000_000, 11) {
        storage.insert_fingerprint(*address, *couple);
    }
    for (address, couple) in &build_fingerprint(&stored_audio[..3].to_vec(), 3_000_000, 12) {
        storage.insert_fingerprint(*address, *couple);
    }
    let query = query_times(&build_fingerprint(&stored_audio, 5_000_000, 0));
    let (by_query, _elapsed) = find_matches_fgp(&query, &storage).unwrap();
    let (by_audio, _elapsed) = find_matches(&storage, &Ok(stored_audio), 5_000_000).unwrap();
    let summary = |list: &Vec<audio_fingerprint::model::Match>| -> Vec<(i64, u64, String)> {
        list.iter().map(|m| (m.song_id, m.score, m.youtube_url.clone())).collect()
    };
    assert_eq!(summary(&by_audio), summary(&by_query));
    assert_eq!(by_audio.len(), 2);
    assert_eq!(by_audio[0].song_id, 11);
}
