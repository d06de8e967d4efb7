//! Groups the hits of a query by song: the time pairs to score, the earliest
//! stored timestamp, and how often each stored timestamp was hit.

use crate::model::Hit;
use std::collections::HashMap;
use vstd::prelude::*;

verus! {

broadcast use vstd::std_specs::hash::group_hash_axioms;

/// The time pairs `[query_ms, corpus_ms]` of the hits of `song`, in hit order.
pub open spec fn pairs_of(hits: Seq<Hit>, song: i64) -> Seq<[u32; 2]>
    decreases hits.len(),
{
    if hits.len() == 0 {
        Seq::empty()
    } else {
        let h = hits.last();
        let rest = pairs_of(hits.drop_last(), song);
        if h.song_id == song {
            rest.push([h.query_ms, h.corpus_ms])
        } else {
            rest
        }
    }
}

/// The songs that were hit, each once, in the order of their first hit.
pub open spec fn songs_of(hits: Seq<Hit>) -> Seq<i64>
    decreases hits.len(),
{
    if hits.len() == 0 {
        Seq::empty()
    } else {
        let rest = songs_of(hits.drop_last());
        if rest.contains(hits.last().song_id) {
            rest
        } else {
            rest.push(hits.last().song_id)
        }
    }
}

/// The smallest stored timestamp among the hits of `song`, if it was hit.
pub open spec fn earliest_of(hits: Seq<Hit>, song: i64) -> Option<u32>
    decreases hits.len(),
{
    if hits.len() == 0 {
        None
    } else {
        let h = hits.last();
        let rest = earliest_of(hits.drop_last(), song);
        if h.song_id != song {
            rest
        } else {
            match rest {
                Some(t) => Some(if h.corpus_ms < t { h.corpus_ms } else { t }),
                None => Some(h.corpus_ms),
            }
        }
    }
}

/// How many hits of `song` carry the stored timestamp `corpus_ms`.
pub open spec fn zone_hits(hits: Seq<Hit>, song: i64, corpus_ms: u32) -> nat
    decreases hits.len(),
{
    if hits.len() == 0 {
        0
    } else {
        let h = hits.last();
        zone_hits(hits.drop_last(), song, corpus_ms) + if h.song_id == song && h.corpus_ms
            == corpus_ms {
            1nat
        } else {
            0nat
        }
    }
}

/// A hit count as it is stored: the count itself, held at the largest `i32`.
pub open spec fn stored_count(n: nat) -> i32 {
    if n <= i32::MAX {
        n as i32
    } else {
        i32::MAX
    }
}

/// The time pairs of every song that was hit, and the songs in first-hit order.
pub open spec fn is_grouping(
    songs: Seq<i64>,
    matches: Map<i64, Vec<[u32; 2]>>,
    hits: Seq<Hit>,
) -> bool {
    &&& songs == songs_of(hits)
    &&& forall|s: i64| #[trigger] matches.contains_key(s) <==> pairs_of(hits, s).len() > 0
    &&& forall|s: i64| #[trigger] matches.contains_key(s) ==> matches[s]@ == pairs_of(hits, s)
}

/// The earliest stored timestamp of every song that was hit.
pub open spec fn is_first_seen(timestamps: Map<i64, u32>, hits: Seq<Hit>) -> bool {
    &&& forall|s: i64| #[trigger] timestamps.contains_key(s) <==> earliest_of(hits, s) is Some
    &&& forall|s: i64| #[trigger]
        timestamps.contains_key(s) ==> earliest_of(hits, s) == Some(timestamps[s])
}

/// For every song that was hit, the hit count of each of its stored timestamps.
pub open spec fn is_zone_count(zones: Map<i64, HashMap<u32, i32>>, hits: Seq<Hit>) -> bool {
    &&& forall|s: i64| #[trigger] zones.contains_key(s) <==> pairs_of(hits, s).len() > 0
    &&& forall|s: i64, t: u32|
        zones.contains_key(s) ==> (#[trigger] zones[s]@.contains_key(t) <==> zone_hits(hits, s, t)
            > 0)
    &&& forall|s: i64, t: u32|
        zones.contains_key(s) && #[trigger] zones[s]@.contains_key(t) ==> zones[s]@[t]
            == stored_count(zone_hits(hits, s, t))
}

proof fn lemma_take_step(hits: Seq<Hit>, k: int)
    requires
        0 <= k < hits.len(),
    ensures
        hits.take(k + 1).drop_last() == hits.take(k),
        hits.take(k + 1).last() == hits[k],
        hits.take(k + 1).len() == k + 1,
{
    assert(hits.take(k + 1).drop_last() =~= hits.take(k));
}

/// A song is listed exactly when it has a time pair, and is listed once.
pub proof fn lemma_songs_of(hits: Seq<Hit>)
    ensures
        songs_of(hits).no_duplicates(),
        forall|s: i64| #[trigger] songs_of(hits).contains(s) <==> pairs_of(hits, s).len() > 0,
        forall|s: i64| #[trigger] earliest_of(hits, s) is Some <==> pairs_of(hits, s).len() > 0,
    decreases hits.len(),
{
    if hits.len() > 0 {
        let rest = songs_of(hits.drop_last());
        let song = hits.last().song_id;
        lemma_songs_of(hits.drop_last());
        assert forall|s: i64| #[trigger] earliest_of(hits, s) is Some <==> pairs_of(hits, s).len()
            > 0 by {
            assert(earliest_of(hits.drop_last(), s) is Some <==> pairs_of(
                hits.drop_last(),
                s,
            ).len() > 0);
        }
        assert forall|s: i64| #[trigger] songs_of(hits).contains(s) <==> pairs_of(hits, s).len()
            > 0 by {
            if rest.contains(song) {
            } else {
                assert(rest.push(song).last() == song);
                if s != song && rest.push(song).contains(s) {
                    let i = choose|i: int| 0 <= i < rest.push(song).len() && rest.push(song)[i] == s;
                    assert(rest[i] == s);
                }
                if rest.contains(s) {
                    let i = choose|i: int| 0 <= i < rest.len() && rest[i] == s;
                    assert(rest.push(song)[i] == s);
                }
            }
        }
    }
}

/// Groups the time pairs of the hits by song, keeping the order of the hits
/// within a song and listing the songs in the order of their first hit.
pub fn group_time_pairs(hits: &Vec<Hit>) -> (grouped: (Vec<i64>, HashMap<i64, Vec<[u32; 2]>>))
    ensures
        is_grouping(grouped.0@, grouped.1@, hits@),
{
    let mut songs: Vec<i64> = Vec::new();
    let mut matches: HashMap<i64, Vec<[u32; 2]>> = HashMap::new();
    let mut k: usize = 0;
    while k < hits.len()
        invariant
            k <= hits.len(),
            is_grouping(songs@, matches@, hits@.take(k as int)),
        decreases hits.len() - k,
    {
        let hit = hits[k];
        let ghost done = hits@.take(k as int);
        let ghost before = matches@;
        proof {
            lemma_take_step(hits@, k as int);
            lemma_songs_of(done);
        }
        let mut times: Vec<[u32; 2]> = match matches.remove(&hit.song_id) {
            Some(times) => times,
            None => {
                songs.push(hit.song_id);
                Vec::new()
            },
        };
        times.push([hit.query_ms, hit.corpus_ms]);
        matches.insert(hit.song_id, times);
        proof {
            let now = hits@.take(k + 1);
            assert forall|s: i64| #[trigger] matches@.contains_key(s) <==> pairs_of(now, s).len()
                > 0 by {
                if s != hit.song_id {
                    assert(before.contains_key(s) <==> matches@.contains_key(s));
                }
            }
            assert forall|s: i64| #[trigger] matches@.contains_key(s) implies matches@[s]@
                == pairs_of(now, s) by {
                if s != hit.song_id {
                    assert(before.contains_key(s));
                    assert(matches@[s] == before[s]);
                } else {
                    if before.contains_key(s) {
                    } else {
                        assert(pairs_of(done, s).len() == 0);
                        assert(pairs_of(done, s) =~= Seq::<[u32; 2]>::empty());
                    }
                }
            }
        }
        k = k + 1;
    }
    proof {
        assert(hits@.take(hits.len() as int) =~= hits@);
    }
    (songs, matches)
}

/// Finds, for every song that was hit, the earliest of its stored timestamps.
pub fn earliest_timestamps(hits: &Vec<Hit>) -> (timestamps: HashMap<i64, u32>)
    ensures
        is_first_seen(timestamps@, hits@),
{
    let mut timestamps: HashMap<i64, u32> = HashMap::new();
    let mut k: usize = 0;
    while k < hits.len()
        invariant
            k <= hits.len(),
            is_first_seen(timestamps@, hits@.take(k as int)),
        decreases hits.len() - k,
    {
        let hit = hits[k];
        let ghost before = timestamps@;
        proof {
            lemma_take_step(hits@, k as int);
        }
        let earlier: bool = match timestamps.get(&hit.song_id) {
            Some(existing) => hit.corpus_ms < *existing,
            None => true,
        };
        if earlier {
            timestamps.insert(hit.song_id, hit.corpus_ms);
        }
        proof {
            let now = hits@.take(k + 1);
            assert forall|s: i64| #[trigger] timestamps@.contains_key(s) <==> earliest_of(
                now,
                s,
            ) is Some by {
                if s != hit.song_id {
                    assert(before.contains_key(s) <==> timestamps@.contains_key(s));
                } else {
                    assert(before.contains_key(s) || earlier);
                }
            }
            assert forall|s: i64| #[trigger] timestamps@.contains_key(s) implies earliest_of(
                now,
                s,
            ) == Some(timestamps@[s]) by {
                if s != hit.song_id {
                    assert(before.contains_key(s));
                } else {
                    if before.contains_key(s) {
                    }
                }
            }
        }
        k = k + 1;
    }
    proof {
        assert(hits@.take(hits.len() as int) =~= hits@);
    }
    timestamps
}

/// A stored timestamp is hit at most as often as its song.
pub proof fn lemma_zone_hits_bound(hits: Seq<Hit>, song: i64, corpus_ms: u32)
    ensures
        zone_hits(hits, song, corpus_ms) <= pairs_of(hits, song).len(),
    decreases hits.len(),
{
    if hits.len() > 0 {
        lemma_zone_hits_bound(hits.drop_last(), song, corpus_ms);
    }
}

/// Counts, for every song that was hit, how often each of its stored
/// timestamps was hit.
pub fn count_target_zones(hits: &Vec<Hit>) -> (zones: HashMap<i64, HashMap<u32, i32>>)
    ensures
        is_zone_count(zones@, hits@),
{
    let mut zones: HashMap<i64, HashMap<u32, i32>> = HashMap::new();
    let mut k: usize = 0;
    while k < hits.len()
        invariant
            k <= hits.len(),
            is_zone_count(zones@, hits@.take(k as int)),
        decreases hits.len() - k,
    {
        let hit = hits[k];
        let ghost done = hits@.take(k as int);
        let ghost before = zones@;
        proof {
            lemma_take_step(hits@, k as int);
        }
        let mut of_song: HashMap<u32, i32> = match zones.remove(&hit.song_id) {
            Some(of_song) => of_song,
            None => HashMap::new(),
        };
        let ghost of_song_before = of_song@;
        proof {
            assert forall|t: u32| #[trigger]
                of_song_before.contains_key(t) <==> zone_hits(done, hit.song_id, t) > 0 by {
                if before.contains_key(hit.song_id) {
                    assert(before[hit.song_id]@.contains_key(t) <==> zone_hits(
                        done,
                        hit.song_id,
                        t,
                    ) > 0);
                } else {
                    lemma_zone_hits_bound(done, hit.song_id, t);
                }
            }
            assert forall|t: u32| #[trigger] of_song_before.contains_key(t) implies of_song_before[t]
                == stored_count(zone_hits(done, hit.song_id, t)) by {
                assert(before.contains_key(hit.song_id));
                assert(before[hit.song_id]@.contains_key(t));
            }
        }
        let count: i32 = match of_song.get(&hit.corpus_ms) {
            Some(count) => if *count < i32::MAX {
                *count + 1
            } else {
                i32::MAX
            },
            None => 1,
        };
        of_song.insert(hit.corpus_ms, count);
        zones.insert(hit.song_id, of_song);
        proof {
            let now = hits@.take(k + 1);
            assert forall|s: i64| #[trigger] zones@.contains_key(s) <==> pairs_of(now, s).len()
                > 0 by {
                if s != hit.song_id {
                    assert(before.contains_key(s) <==> zones@.contains_key(s));
                }
            }
            assert forall|s: i64, t: u32| zones@.contains_key(s) implies (#[trigger] zones@[s]@.contains_key(
                t,
            ) <==> zone_hits(now, s, t) > 0) by {
                if s != hit.song_id {
                    assert(before.contains_key(s));
                    assert(zones@[s] == before[s]);
                    assert(before[s]@.contains_key(t) <==> zone_hits(done, s, t) > 0);
                } else {
                    assert(of_song_before.contains_key(t) <==> zone_hits(done, s, t) > 0);
                }
            }
            assert forall|s: i64, t: u32|
                zones@.contains_key(s) && #[trigger] zones@[s]@.contains_key(t) implies zones@[s]@[t]
                == stored_count(zone_hits(now, s, t)) by {
                if s != hit.song_id {
                    assert(before.contains_key(s));
                    assert(zones@[s] == before[s]);
                    assert(before[s]@.contains_key(t));
                } else {
                    if t != hit.corpus_ms {
                        assert(of_song_before.contains_key(t));
                    } else {
                        assert(of_song_before.contains_key(t) <==> zone_hits(done, s, t) > 0);
                        if of_song_before.contains_key(t) {
                            assert(of_song_before[t] == stored_count(zone_hits(done, s, t)));
                        }
                    }
                }
            }
        }
        k = k + 1;
    }
    proof {
        assert(hits@.take(hits.len() as int) =~= hits@);
    }
    zones
}

} // verus!
