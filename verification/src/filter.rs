//! The target-zone density filter: a song stays a candidate only if enough
//! of its stored timestamps were hit often enough.

use crate::keys::keys_of;
use crate::permutation::lemma_longer_prefix;
use std::collections::HashMap;
use vstd::prelude::*;

verus! {

broadcast use vstd::std_specs::hash::group_hash_axioms;

/// Hits that a stored timestamp needs before it counts as a target zone.
pub const TARGET_ZONE_SIZE: usize = 5;

/// Whether the stored timestamp `t` was hit often enough to be a target zone.
pub open spec fn is_target_zone(zone_counts: Map<u32, i32>, t: u32) -> bool {
    zone_counts.contains_key(t) && zone_counts[t] >= TARGET_ZONE_SIZE as int
}

/// The stored timestamps of one song that are target zones.
pub open spec fn target_zones_of(zone_counts: Map<u32, i32>) -> Set<u32> {
    Set::new(|t: u32| is_target_zone(zone_counts, t))
}

/// A song passes when it has at least one target zone and at least
/// `threshold` of them.
pub open spec fn passes_filter(
    threshold: usize,
    target_zones: Map<i64, HashMap<u32, i32>>,
    song: i64,
) -> bool {
    &&& target_zones.contains_key(song)
    &&& target_zones_of(target_zones[song]@).len() >= 1
    &&& target_zones_of(target_zones[song]@).len() >= threshold
}

/// The target zones among the listed timestamps.
pub open spec fn target_zones_among(times: Seq<u32>, zone_counts: Map<u32, i32>) -> Set<u32> {
    Set::new(|t: u32| times.contains(t) && is_target_zone(zone_counts, t))
}

/// How many of the listed timestamps are target zones, counted one by one.
pub open spec fn count_target_zones_among(times: Seq<u32>, zone_counts: Map<u32, i32>) -> nat
    decreases times.len(),
{
    if times.len() == 0 {
        0
    } else {
        count_target_zones_among(times.drop_last(), zone_counts) + if is_target_zone(
            zone_counts,
            times.last(),
        ) {
            1nat
        } else {
            0nat
        }
    }
}

/// Counting one by one over a list without repeats gives the size of the set.
pub proof fn lemma_count_target_zones(times: Seq<u32>, zone_counts: Map<u32, i32>)
    requires
        times.no_duplicates(),
    ensures
        target_zones_among(times, zone_counts).finite(),
        target_zones_among(times, zone_counts).len() == count_target_zones_among(
            times,
            zone_counts,
        ),
        count_target_zones_among(times, zone_counts) <= times.len(),
    decreases times.len(),
{
    if times.len() == 0 {
        assert(target_zones_among(times, zone_counts) =~= Set::<u32>::empty());
    } else {
        let shorter = times.drop_last();
        let last = times.last();
        lemma_count_target_zones(shorter, zone_counts);
        let among = target_zones_among(times, zone_counts);
        let among_shorter = target_zones_among(shorter, zone_counts);
        assert(!shorter.contains(last)) by {
            if shorter.contains(last) {
                let i = choose|i: int| 0 <= i < shorter.len() && shorter[i] == last;
                assert(times[i] == times[times.len() - 1]);
            }
        }
        assert forall|t: u32| times.contains(t) <==> (shorter.contains(t) || t == last) by {
            if times.contains(t) {
                let i = choose|i: int| 0 <= i < times.len() && times[i] == t;
                if i < shorter.len() {
                    assert(shorter[i] == t);
                }
            }
            if shorter.contains(t) {
                let i = choose|i: int| 0 <= i < shorter.len() && shorter[i] == t;
                assert(times[i] == t);
            }
            assert(times[times.len() - 1] == last);
        }
        if is_target_zone(zone_counts, last) {
            assert(among =~= among_shorter.insert(last));
        } else {
            assert(among =~= among_shorter);
        }
    }
}

/// Counts the target zones of one song.
pub fn count_target_zones_of(zone_counts: &HashMap<u32, i32>) -> (count: usize)
    ensures
        count == target_zones_of(zone_counts@).len(),
{
    let times: Vec<u32> = keys_of(zone_counts);
    let mut count: usize = 0;
    let mut k: usize = 0;
    while k < times.len()
        invariant
            k <= times.len(),
            times@.no_duplicates(),
            forall|t: u32| times@.contains(t) <==> #[trigger] zone_counts@.contains_key(t),
            count == count_target_zones_among(times@.take(k as int), zone_counts@),
            count <= k,
        decreases times.len() - k,
    {
        let t: u32 = times[k];
        proof {
            assert(times@.take(k + 1).drop_last() =~= times@.take(k as int));
            assert(times@.take(k + 1).last() == t);
            assert(times@.contains(t));
        }
        match zone_counts.get(&t) {
            Some(hits) => {
                if *hits >= TARGET_ZONE_SIZE as i32 {
                    count = count + 1;
                }
            },
            None => {},
        }
        k = k + 1;
    }
    proof {
        assert(times@.take(times.len() as int) =~= times@);
        lemma_count_target_zones(times@, zone_counts@);
        assert(target_zones_among(times@, zone_counts@) =~= target_zones_of(zone_counts@));
    }
    count
}

/// Drops every song that does not pass the filter; the time pairs of the
/// songs that stay are untouched.
pub fn filter_matches(
    threshold: usize,
    matches: HashMap<i64, Vec<[u32; 2]>>,
    target_zones: &HashMap<i64, HashMap<u32, i32>>,
) -> (kept: HashMap<i64, Vec<[u32; 2]>>)
    ensures
        forall|s: i64| #[trigger]
            kept@.contains_key(s) <==> matches@.contains_key(s) && passes_filter(
                threshold,
                target_zones@,
                s,
            ),
        forall|s: i64| #[trigger] kept@.contains_key(s) ==> kept@[s] == matches@[s],
{
    let songs: Vec<i64> = keys_of(&matches);
    let mut kept = matches;
    let mut k: usize = 0;
    while k < songs.len()
        invariant
            k <= songs.len(),
            forall|s: i64| songs@.contains(s) <==> #[trigger] matches@.contains_key(s),
            forall|s: i64| #[trigger]
                kept@.contains_key(s) <==> matches@.contains_key(s) && (songs@.take(
                    k as int,
                ).contains(s) ==> passes_filter(threshold, target_zones@, s)),
            forall|s: i64| #[trigger] kept@.contains_key(s) ==> kept@[s] == matches@[s],
        decreases songs.len() - k,
    {
        let song_id: i64 = songs[k];
        let ghost before = kept@;
        let passes: bool = match target_zones.get(&song_id) {
            Some(zone_counts) => {
                let count: usize = count_target_zones_of(zone_counts);
                count >= 1 && count >= threshold
            },
            None => false,
        };
        if !passes {
            kept.remove(&song_id);
        }
        proof {
            lemma_longer_prefix(songs@, k as int);
            assert forall|s: i64| #[trigger]
                kept@.contains_key(s) <==> matches@.contains_key(s) && (songs@.take(
                    k + 1,
                ).contains(s) ==> passes_filter(threshold, target_zones@, s)) by {
                if s != song_id {
                    assert(before.contains_key(s) <==> kept@.contains_key(s));
                }
            }
        }
        k = k + 1;
    }
    proof {
        assert(songs@.take(songs.len() as int) =~= songs@);
    }
    kept
}

} // verus!
