//! Time-alignment scoring of the time pairs that a query shares with one song.

use crate::keys::keys_of;
use crate::permutation::{lemma_last_in_reordered, lemma_longer_prefix};
use std::collections::HashMap;
use vstd::prelude::*;

verus! {

broadcast use vstd::std_specs::hash::group_hash_axioms;

/// Milliseconds of slack below which two time gaps count as the same gap.
pub const ALIGNMENT_TOLERANCE_MS: u32 = 100;

/// Distance between two millisecond timestamps.
pub open spec fn time_gap(a: u32, b: u32) -> int {
    if a >= b {
        a - b
    } else {
        b - a
    }
}

/// Two time pairs `[query_ms, corpus_ms]` agree when the gap between their
/// query times and the gap between their corpus times differ by less than
/// the tolerance.
pub open spec fn aligned(p: [u32; 2], q: [u32; 2]) -> bool {
    let sample_diff = time_gap(p[0], q[0]);
    let corpus_diff = time_gap(p[1], q[1]);
    -(ALIGNMENT_TOLERANCE_MS as int) < sample_diff - corpus_diff < ALIGNMENT_TOLERANCE_MS as int
}

/// How many of the time pairs agree with `p`.
pub open spec fn aligned_with(times: Seq<[u32; 2]>, p: [u32; 2]) -> nat
    decreases times.len(),
{
    if times.len() == 0 {
        0
    } else {
        aligned_with(times.drop_last(), p) + if aligned(times.last(), p) {
            1nat
        } else {
            0nat
        }
    }
}

/// Number of unordered pairs of time pairs that agree: every time pair is
/// counted against those before it.
pub open spec fn vote_count(times: Seq<[u32; 2]>) -> nat
    decreases times.len(),
{
    if times.len() == 0 {
        0
    } else {
        vote_count(times.drop_last()) + aligned_with(times.drop_last(), times.last())
    }
}

/// The score that a vote count is reported as: the count itself, held at the
/// largest `u64` where it would not fit.
pub open spec fn score_of(votes: nat) -> u64 {
    if votes <= u64::MAX {
        votes as u64
    } else {
        u64::MAX
    }
}

/// Whether two time pairs agree does not depend on their order.
pub proof fn lemma_aligned_symmetric(p: [u32; 2], q: [u32; 2])
    ensures
        aligned(p, q) == aligned(q, p),
{
}

/// Two time pairs cast one vote where their gaps differ by less than the
/// tolerance and none otherwise: none, in particular, where the gaps differ
/// by exactly the tolerance.
pub proof fn lemma_tolerance_is_strict(p: [u32; 2], q: [u32; 2])
    ensures
        vote_count(seq![p, q]) == if aligned(p, q) {
            1nat
        } else {
            0nat
        },
        time_gap(p[0], q[0]) - time_gap(p[1], q[1]) == ALIGNMENT_TOLERANCE_MS ==> vote_count(
            seq![p, q],
        ) == 0,
        time_gap(p[1], q[1]) - time_gap(p[0], q[0]) == ALIGNMENT_TOLERANCE_MS ==> vote_count(
            seq![p, q],
        ) == 0,
{
    let times = seq![p, q];
    let first = times.drop_last();
    assert(first =~= seq![p]);
    assert(first.drop_last() =~= Seq::<[u32; 2]>::empty());
    assert(vote_count(first.drop_last()) == 0);
    assert(aligned_with(first.drop_last(), p) == 0);
    assert(vote_count(first) == 0);
    assert(aligned_with(first.drop_last(), q) == 0);
    assert(aligned_with(first, q) == if aligned(p, q) {
        1nat
    } else {
        0nat
    });
}

/// A song with fewer than two time pairs has no votes.
pub proof fn lemma_lone_pair_has_no_votes(times: Seq<[u32; 2]>)
    requires
        times.len() <= 1,
    ensures
        vote_count(times) == 0,
{
    if times.len() == 1 {
        assert(vote_count(times.drop_last()) == 0);
        assert(aligned_with(times.drop_last(), times.last()) == 0);
    }
}

/// Putting one more time pair anywhere into a list adds to `aligned_with`
/// exactly when the new pair agrees.
pub proof fn lemma_aligned_with_insert(times: Seq<[u32; 2]>, k: int, x: [u32; 2], p: [u32; 2])
    requires
        0 <= k <= times.len(),
    ensures
        aligned_with(times.insert(k, x), p) == aligned_with(times, p) + if aligned(x, p) {
            1nat
        } else {
            0nat
        },
    decreases times.len(),
{
    let longer = times.insert(k, x);
    if k == times.len() {
        assert(longer.drop_last() =~= times);
        assert(longer.last() == x);
    } else {
        assert(longer.drop_last() =~= times.drop_last().insert(k, x));
        assert(longer.last() == times.last());
        lemma_aligned_with_insert(times.drop_last(), k, x, p);
    }
}

/// Putting one more time pair anywhere into a list adds as many votes as
/// there are time pairs that agree with it.
pub proof fn lemma_vote_count_insert(times: Seq<[u32; 2]>, k: int, x: [u32; 2])
    requires
        0 <= k <= times.len(),
    ensures
        vote_count(times.insert(k, x)) == vote_count(times) + aligned_with(times, x),
    decreases times.len(),
{
    let longer = times.insert(k, x);
    if k == times.len() {
        assert(longer.drop_last() =~= times);
        assert(longer.last() == x);
    } else {
        let shorter = times.drop_last();
        let y = times.last();
        assert(longer.drop_last() =~= shorter.insert(k, x));
        assert(longer.last() == y);
        lemma_vote_count_insert(shorter, k, x);
        lemma_aligned_with_insert(shorter, k, x, y);
        lemma_aligned_symmetric(x, y);
    }
}

/// How many time pairs agree with `p` does not depend on their order.
pub proof fn lemma_aligned_with_reordered(
    times: Seq<[u32; 2]>,
    reordered: Seq<[u32; 2]>,
    p: [u32; 2],
)
    requires
        times.to_multiset() == reordered.to_multiset(),
    ensures
        aligned_with(times, p) == aligned_with(reordered, p),
    decreases times.len(),
{
    vstd::seq_lib::to_multiset_len(times);
    vstd::seq_lib::to_multiset_len(reordered);
    if times.len() > 0 {
        let x = times.last();
        let shorter = times.drop_last();
        let k = lemma_last_in_reordered(times, reordered);
        let rest = reordered.remove(k);
        assert(reordered =~= rest.insert(k, x));
        lemma_aligned_with_reordered(shorter, rest, p);
        lemma_aligned_with_insert(rest, k, x, p);
    }
}

/// The votes of a song do not depend on the order of its time pairs.
pub proof fn lemma_vote_count_reordered(times: Seq<[u32; 2]>, reordered: Seq<[u32; 2]>)
    requires
        times.to_multiset() == reordered.to_multiset(),
    ensures
        vote_count(times) == vote_count(reordered),
    decreases times.len(),
{
    vstd::seq_lib::to_multiset_len(times);
    vstd::seq_lib::to_multiset_len(reordered);
    if times.len() > 0 {
        let x = times.last();
        let shorter = times.drop_last();
        let k = lemma_last_in_reordered(times, reordered);
        let rest = reordered.remove(k);
        assert(reordered =~= rest.insert(k, x));
        lemma_vote_count_reordered(shorter, rest);
        lemma_aligned_with_reordered(shorter, rest, x);
        lemma_vote_count_insert(rest, k, x);
    } else {
        assert(reordered =~= Seq::<[u32; 2]>::empty());
    }
}

/// Decides whether two time pairs agree.
pub fn is_aligned(p: &[u32; 2], q: &[u32; 2]) -> (r: bool)
    ensures
        r == aligned(*p, *q),
{
    let sample_diff: i64 = if p[0] >= q[0] {
        (p[0] - q[0]) as i64
    } else {
        (q[0] - p[0]) as i64
    };
    let corpus_diff: i64 = if p[1] >= q[1] {
        (p[1] - q[1]) as i64
    } else {
        (q[1] - p[1]) as i64
    };
    let slack: i64 = sample_diff - corpus_diff;
    -(ALIGNMENT_TOLERANCE_MS as i64) < slack && slack < ALIGNMENT_TOLERANCE_MS as i64
}

/// Scores one song: counts the unordered pairs of its time pairs that agree.
pub fn score_time_pairs(times: &Vec<[u32; 2]>) -> (score: u64)
    ensures
        score == score_of(vote_count(times@)),
{
    let n: usize = times.len();
    let mut count: u64 = 0;
    let mut j: usize = 0;
    while j < n
        invariant
            n == times.len(),
            j <= n,
            count == score_of(vote_count(times@.take(j as int))),
        decreases n - j,
    {
        let ghost before: nat = vote_count(times@.take(j as int));
        let ghost earlier = times@.take(j as int);
        let mut i: usize = 0;
        while i < j
            invariant
                n == times.len(),
                i <= j < n,
                earlier == times@.take(j as int),
                count == score_of(before + aligned_with(earlier.take(i as int), times@[j as int])),
            decreases j - i,
        {
            proof {
                assert(earlier.take(i + 1).drop_last() =~= earlier.take(i as int));
                assert(earlier.take(i + 1).last() == times@[i as int]);
            }
            if is_aligned(&times[i], &times[j]) {
                if count < u64::MAX {
                    count = count + 1;
                }
            }
            i = i + 1;
        }
        proof {
            assert(earlier.take(j as int) =~= earlier);
            assert(times@.take(j + 1).drop_last() =~= earlier);
            assert(times@.take(j + 1).last() == times@[j as int]);
        }
        j = j + 1;
    }
    proof {
        assert(times@.take(n as int) =~= times@);
    }
    count
}

/// The score of every song of `matches`.
pub open spec fn is_scoring(scores: Map<i64, u64>, matches: Map<i64, Vec<[u32; 2]>>) -> bool {
    &&& forall|s: i64| #[trigger] scores.contains_key(s) <==> matches.contains_key(s)
    &&& forall|s: i64| #[trigger]
        scores.contains_key(s) ==> scores[s] == score_of(vote_count(matches[s]@))
}

/// Scores every song by the agreement among its time pairs.
pub fn analyze_relative_timing(matches: &HashMap<i64, Vec<[u32; 2]>>) -> (scores: HashMap<
    i64,
    u64,
>)
    ensures
        is_scoring(scores@, matches@),
{
    let songs: Vec<i64> = keys_of(matches);
    let mut scores: HashMap<i64, u64> = HashMap::new();
    let mut k: usize = 0;
    while k < songs.len()
        invariant
            k <= songs.len(),
            forall|s: i64| songs@.contains(s) <==> #[trigger] matches@.contains_key(s),
            forall|s: i64| #[trigger]
                scores@.contains_key(s) <==> songs@.take(k as int).contains(s),
            forall|s: i64| #[trigger]
                scores@.contains_key(s) ==> scores@[s] == score_of(vote_count(matches@[s]@)),
        decreases songs.len() - k,
    {
        let song_id: i64 = songs[k];
        let ghost before = scores@;
        proof {
            lemma_longer_prefix(songs@, k as int);
        }
        match matches.get(&song_id) {
            Some(times) => {
                let score: u64 = score_time_pairs(times);
                scores.insert(song_id, score);
            },
            None => {},
        }
        proof {
            assert forall|s: i64| #[trigger]
                scores@.contains_key(s) <==> songs@.take(k + 1).contains(s) by {
                if s != song_id {
                    assert(before.contains_key(s) <==> scores@.contains_key(s));
                }
            }
        }
        k = k + 1;
    }
    proof {
        assert(songs@.take(songs.len() as int) =~= songs@);
    }
    scores
}

} // verus!
