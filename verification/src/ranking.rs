//! From hits to the ranked result: one candidate per song, the matches of
//! the candidates whose metadata exists, and their order by score.

use crate::hits::{collect_hits, query_hits};
use crate::model::{Candidate, Couple, Hit, Match, Song};
use crate::scoring::{analyze_relative_timing, score_of, vote_count};
use crate::tally::{
    earliest_of, earliest_timestamps, group_time_pairs, lemma_songs_of, pairs_of, songs_of,
};
use std::collections::HashMap;
use vstd::prelude::*;

verus! {

broadcast use vstd::std_specs::hash::group_hash_axioms;

/// The candidate that the hits make of `song`.
pub open spec fn candidate_of(hits: Seq<Hit>, song: i64) -> Candidate {
    Candidate {
        song_id: song,
        score: score_of(vote_count(pairs_of(hits, song))),
        first_seen_ms: match earliest_of(hits, song) {
            Some(t) => t,
            None => 0,
        },
    }
}

/// One candidate per song that was hit, in the order of the songs' first hits.
pub open spec fn candidates_of(hits: Seq<Hit>) -> Seq<Candidate> {
    Seq::new(songs_of(hits).len(), |i: int| candidate_of(hits, songs_of(hits)[i]))
}

/// The match that a candidate and its metadata make.
pub open spec fn match_of(candidate: Candidate, song: Song) -> Match {
    Match { song_id: candidate.song_id, youtube_url: song.youtube_url, score: candidate.score }
}

/// The matches of the candidates whose metadata is present, in candidate
/// order. `metadata[i]` answers for `candidates[i]`.
pub open spec fn present_matches(candidates: Seq<Candidate>, metadata: Seq<Option<Song>>) -> Seq<
    Match,
>
    decreases candidates.len(),
{
    if candidates.len() == 0 || metadata.len() == 0 {
        Seq::empty()
    } else {
        let rest = present_matches(candidates.drop_last(), metadata.drop_last());
        match metadata.last() {
            Some(song) => rest.push(match_of(candidates.last(), song)),
            None => rest,
        }
    }
}

/// Scores are in descending order.
pub open spec fn is_ranked(list: Seq<Match>) -> bool {
    forall|i: int, j: int| 0 <= i < j < list.len() ==> list[i].score >= list[j].score
}

/// Where a match of the given score goes into a ranked list: behind the
/// leading matches that score at least as much.
pub open spec fn rank_position(list: Seq<Match>, score: u64) -> int
    decreases list.len(),
{
    if list.len() == 0 || list[0].score < score {
        0
    } else {
        1 + rank_position(list.drop_first(), score)
    }
}

/// The list in rank order: its matches are put into place one after the
/// other, so that of two matches with the same score the earlier stays first.
pub open spec fn ranked_of(list: Seq<Match>) -> Seq<Match>
    decreases list.len(),
{
    if list.len() == 0 {
        Seq::empty()
    } else {
        let ranked = ranked_of(list.drop_last());
        ranked.insert(rank_position(ranked, list.last().score), list.last())
    }
}

/// The place behind `j` leading matches that score at least as much, where
/// the next match, if any, scores less.
proof fn lemma_rank_position(list: Seq<Match>, score: u64, j: int)
    requires
        0 <= j <= list.len(),
        forall|k: int| 0 <= k < j ==> list[k].score >= score,
        j == list.len() || list[j].score < score,
    ensures
        rank_position(list, score) == j,
    decreases list.len(),
{
    if j > 0 {
        let rest = list.drop_first();
        assert forall|k: int| 0 <= k < j - 1 implies rest[k].score >= score by {
            assert(rest[k] == list[k + 1]);
        }
        lemma_rank_position(rest, score, j - 1);
    }
}

/// No two matches name the same song.
pub open spec fn has_distinct_songs(list: Seq<Match>) -> bool {
    forall|i: int, j: int| 0 <= i < j < list.len() ==> list[i].song_id != list[j].song_id
}

/// No two candidates name the same song.
pub open spec fn has_distinct_candidates(candidates: Seq<Candidate>) -> bool {
    forall|i: int, j: int|
        0 <= i < j < candidates.len() ==> candidates[i].song_id != candidates[j].song_id
}

/// Scores every song that was hit and notes its earliest stored timestamp.
pub fn score_candidates(hits: &Vec<Hit>) -> (candidates: Vec<Candidate>)
    ensures
        candidates@ == candidates_of(hits@),
{
    let (songs, matches) = group_time_pairs(hits);
    let scores: HashMap<i64, u64> = analyze_relative_timing(&matches);
    let timestamps: HashMap<i64, u32> = earliest_timestamps(hits);
    let mut candidates: Vec<Candidate> = Vec::new();
    let mut k: usize = 0;
    proof {
        lemma_songs_of(hits@);
    }
    while k < songs.len()
        invariant
            k <= songs.len(),
            songs@ == songs_of(hits@),
            crate::tally::is_grouping(songs@, matches@, hits@),
            crate::scoring::is_scoring(scores@, matches@),
            crate::tally::is_first_seen(timestamps@, hits@),
            forall|s: i64| #[trigger] songs_of(hits@).contains(s) <==> pairs_of(hits@, s).len() > 0,
            forall|s: i64| #[trigger]
                earliest_of(hits@, s) is Some <==> pairs_of(hits@, s).len() > 0,
            candidates@ == candidates_of(hits@).take(k as int),
        decreases songs.len() - k,
    {
        let song_id: i64 = songs[k];
        proof {
            assert(songs_of(hits@).contains(song_id));
            assert(matches@.contains_key(song_id));
            assert(scores@.contains_key(song_id));
            assert(earliest_of(hits@, song_id) is Some);
            assert(timestamps@.contains_key(song_id));
        }
        let score: u64 = match scores.get(&song_id) {
            Some(score) => *score,
            None => 0,
        };
        let first_seen_ms: u32 = match timestamps.get(&song_id) {
            Some(t) => *t,
            None => 0,
        };
        candidates.push(Candidate { song_id, score, first_seen_ms });
        proof {
            let all = candidates_of(hits@);
            assert(all.take(k + 1) =~= all.take(k as int).push(all[k as int]));
        }
        k = k + 1;
    }
    proof {
        let all = candidates_of(hits@);
        assert(all.take(songs.len() as int) =~= all);
    }
    candidates
}

/// Builds the match of every candidate whose metadata is present and leaves
/// out the others. `metadata[i]` answers for `candidates[i]`.
pub fn assemble_matches(candidates: &Vec<Candidate>, metadata: &Vec<Option<Song>>) -> (list: Vec<
    Match,
>)
    requires
        metadata.len() == candidates.len(),
    ensures
        list@ == present_matches(candidates@, metadata@),
{
    let mut list: Vec<Match> = Vec::new();
    let mut k: usize = 0;
    while k < candidates.len()
        invariant
            k <= candidates.len(),
            metadata.len() == candidates.len(),
            list@ == present_matches(candidates@.take(k as int), metadata@.take(k as int)),
        decreases candidates.len() - k,
    {
        proof {
            assert(candidates@.take(k + 1).drop_last() =~= candidates@.take(k as int));
            assert(metadata@.take(k + 1).drop_last() =~= metadata@.take(k as int));
        }
        let candidate = candidates[k];
        match &metadata[k] {
            Some(song) => {
                list.push(
                    Match {
                        song_id: candidate.song_id,
                        youtube_url: song.youtube_url.clone(),
                        score: candidate.score,
                    },
                );
            },
            None => {},
        }
        k = k + 1;
    }
    proof {
        assert(candidates@.take(candidates.len() as int) =~= candidates@);
        assert(metadata@.take(candidates.len() as int) =~= metadata@);
    }
    list
}

/// Orders the matches by score, highest first. Matches of equal score keep
/// the order they came in.
pub fn rank_matches(matches: Vec<Match>) -> (ranked: Vec<Match>)
    ensures
        ranked@ == ranked_of(matches@),
        is_ranked(ranked@),
        ranked@.to_multiset() == matches@.to_multiset(),
        ranked@.len() == matches@.len(),
{
    let mut ranked = matches;
    let n: usize = ranked.len();
    let mut i: usize = 0;
    while i < n
        invariant
            i <= n,
            n == ranked.len(),
            ranked@.to_multiset() == matches@.to_multiset(),
            is_ranked(ranked@.take(i as int)),
            ranked@ == ranked_of(matches@.take(i as int)) + matches@.skip(i as int),
            ranked_of(matches@.take(i as int)).len() == i,
            matches@.len() == n,
        decreases n - i,
    {
        let ghost before = ranked@;
        let ghost placed = ranked_of(matches@.take(i as int));
        proof {
            assert(before[i as int] == matches@.skip(i as int)[0]);
            assert(before.take(i as int) =~= placed);
        }
        let score: u64 = ranked[i].score;
        let mut j: usize = 0;
        while j < i && ranked[j].score >= score
            invariant
                j <= i < n,
                n == ranked.len(),
                ranked@ == before,
                forall|k: int| 0 <= k < j ==> before[k].score >= score,
            decreases i - j,
        {
            j = j + 1;
        }
        let moved: Match = ranked.remove(i);
        ranked.insert(j, moved);
        proof {
            lemma_rank_position(placed, score, j as int);
            assert(matches@.take(i + 1).drop_last() =~= matches@.take(i as int));
            assert(matches@.take(i + 1).last() == moved);
            assert(ranked@ =~= placed.insert(j as int, moved) + matches@.skip(i + 1));
            vstd::seq_lib::to_multiset_remove(before, i as int);
            vstd::seq_lib::to_multiset_insert(before.remove(i as int), j as int, moved);
            assert(ranked@.to_multiset() =~= before.to_multiset()) by {
                broadcast use vstd::multiset::group_multiset_axioms;

                vstd::seq_lib::to_multiset_contains(before, moved);
                assert(before.contains(moved));
            }
            let sorted = ranked@.take(i + 1);
            assert forall|a: int, b: int| 0 <= a < b < sorted.len() implies sorted[a].score
                >= sorted[b].score by {
                let old_a = if a < j { a } else { a - 1 };
                let old_b = if b < j { b } else { b - 1 };
                if a != j && b != j {
                    assert(before.take(i as int)[old_a].score >= before.take(i as int)[old_b].score);
                } else if a == j {
                    assert(before.take(i as int)[j as int].score >= before.take(
                        i as int,
                    )[old_b].score || old_b == j);
                }
            }
        }
        i = i + 1;
    }
    proof {
        assert(ranked@.take(n as int) =~= ranked@);
        assert(matches@.take(n as int) =~= matches@);
        assert(ranked@ =~= ranked_of(matches@));
        vstd::seq_lib::to_multiset_len(ranked@);
        vstd::seq_lib::to_multiset_len(matches@);
    }
    ranked
}

/// The candidates of a query: joins the query's fingerprint with the couples
/// that storage returned, address by address in the order of `addresses`, and
/// scores every song that was hit.
pub fn query_candidates(
    sample_fingerprint: &HashMap<u32, u32>,
    addresses: &Vec<u32>,
    couples_map: &HashMap<u32, Vec<Couple>>,
) -> (candidates: Vec<Candidate>)
    ensures
        candidates@ == candidates_of(
            query_hits(sample_fingerprint@, addresses@, couples_map@),
        ),
        has_distinct_candidates(candidates@),
{
    let hits: Vec<Hit> = collect_hits(sample_fingerprint, addresses, couples_map);
    proof {
        lemma_candidates_distinct(hits@);
    }
    score_candidates(&hits)
}

/// The result list of a query: the matches of the candidates whose metadata
/// is present, highest score first. `metadata[i]` answers for `candidates[i]`.
pub fn ranked_matches(candidates: &Vec<Candidate>, metadata: &Vec<Option<Song>>) -> (list: Vec<
    Match,
>)
    requires
        metadata.len() == candidates.len(),
    ensures
        list@ == ranked_of(present_matches(candidates@, metadata@)),
        is_ranked(list@),
        list@.to_multiset() == present_matches(candidates@, metadata@).to_multiset(),
        list@.len() == present_matches(candidates@, metadata@).len(),
        has_distinct_candidates(candidates@) ==> has_distinct_songs(list@),
{
    let present: Vec<Match> = assemble_matches(candidates, metadata);
    let list: Vec<Match> = rank_matches(present);
    proof {
        if has_distinct_candidates(candidates@) {
            lemma_present_distinct(candidates@, metadata@);
            lemma_reordered_distinct(present@, list@);
        }
    }
    list
}

/// The candidates of any hits name each song once.
pub proof fn lemma_candidates_distinct(hits: Seq<Hit>)
    ensures
        has_distinct_candidates(candidates_of(hits)),
{
    lemma_songs_of(hits);
}

/// Whether `m` is the match of a candidate at index `from` or later.
spec fn comes_from(
    candidates: Seq<Candidate>,
    metadata: Seq<Option<Song>>,
    m: Match,
    from: int,
) -> bool {
    exists|i: int|
        from <= i < candidates.len() && metadata[i] is Some && #[trigger] match_of(
            candidates[i],
            metadata[i]->0,
        ) == m
}

/// The `k`-th present match comes from a candidate with metadata, at index
/// `k` or later.
proof fn lemma_present_origin(candidates: Seq<Candidate>, metadata: Seq<Option<Song>>)
    requires
        metadata.len() == candidates.len(),
    ensures
        present_matches(candidates, metadata).len() <= candidates.len(),
        forall|k: int|
            0 <= k < present_matches(candidates, metadata).len() ==> comes_from(
                candidates,
                metadata,
                #[trigger] present_matches(candidates, metadata)[k],
                k,
            ),
    decreases candidates.len(),
{
    if candidates.len() > 0 {
        let shorter = present_matches(candidates.drop_last(), metadata.drop_last());
        lemma_present_origin(candidates.drop_last(), metadata.drop_last());
        let present = present_matches(candidates, metadata);
        assert forall|k: int| 0 <= k < present.len() implies comes_from(
            candidates,
            metadata,
            #[trigger] present[k],
            k,
        ) by {
            if k < shorter.len() {
                assert(comes_from(candidates.drop_last(), metadata.drop_last(), shorter[k], k));
                let i = choose|i: int|
                    k <= i < candidates.drop_last().len() && metadata.drop_last()[i] is Some
                        && #[trigger] match_of(
                        candidates.drop_last()[i],
                        metadata.drop_last()[i]->0,
                    ) == shorter[k];
                assert(match_of(candidates[i], metadata[i]->0) == present[k]);
            } else {
                let i = candidates.len() - 1;
                assert(match_of(candidates[i], metadata[i]->0) == present[k]);
            }
        }
    }
}

/// A candidate without metadata has no match; a candidate with metadata has
/// the match made of the two.
pub proof fn lemma_present_matches(
    candidates: Seq<Candidate>,
    metadata: Seq<Option<Song>>,
    i: int,
)
    requires
        metadata.len() == candidates.len(),
        0 <= i < candidates.len(),
        has_distinct_candidates(candidates),
    ensures
        metadata[i] is None ==> forall|k: int|
            0 <= k < present_matches(candidates, metadata).len() ==> #[trigger] present_matches(
                candidates,
                metadata,
            )[k].song_id != candidates[i].song_id,
        metadata[i] is Some ==> present_matches(candidates, metadata).contains(
            match_of(candidates[i], metadata[i]->0),
        ),
    decreases candidates.len(),
{
    let present = present_matches(candidates, metadata);
    let shorter = present_matches(candidates.drop_last(), metadata.drop_last());
    lemma_present_origin(candidates, metadata);
    if metadata[i] is None {
        assert forall|k: int| 0 <= k < present.len() implies #[trigger] present[k].song_id
            != candidates[i].song_id by {
            assert(comes_from(candidates, metadata, present[k], k));
            let o = choose|o: int|
                k <= o < candidates.len() && metadata[o] is Some && #[trigger] match_of(
                    candidates[o],
                    metadata[o]->0,
                ) == present[k];
            assert(o != i);
            if o < i {
                assert(candidates[o].song_id != candidates[i].song_id);
            } else {
                assert(candidates[i].song_id != candidates[o].song_id);
            }
        }
    } else {
        if i == candidates.len() - 1 {
            assert(present.last() == match_of(candidates[i], metadata[i]->0));
        } else {
            lemma_present_matches(candidates.drop_last(), metadata.drop_last(), i);
            let m = match_of(candidates[i], metadata[i]->0);
            let k = choose|k: int| 0 <= k < shorter.len() && shorter[k] == m;
            assert(present[k] == m);
        }
    }
}

/// The present matches of distinct candidates name each song once.
pub proof fn lemma_present_distinct(candidates: Seq<Candidate>, metadata: Seq<Option<Song>>)
    requires
        metadata.len() == candidates.len(),
        has_distinct_candidates(candidates),
    ensures
        has_distinct_songs(present_matches(candidates, metadata)),
    decreases candidates.len(),
{
    if candidates.len() > 0 {
        let shorter = present_matches(candidates.drop_last(), metadata.drop_last());
        lemma_present_distinct(candidates.drop_last(), metadata.drop_last());
        lemma_present_origin(candidates.drop_last(), metadata.drop_last());
        let present = present_matches(candidates, metadata);
        assert forall|a: int, b: int| 0 <= a < b < present.len() implies present[a].song_id
            != present[b].song_id by {
            if b < shorter.len() {
                assert(shorter[a].song_id != shorter[b].song_id);
            } else {
                assert(comes_from(candidates.drop_last(), metadata.drop_last(), shorter[a], a));
                let o = choose|o: int|
                    a <= o < candidates.drop_last().len() && metadata.drop_last()[o] is Some
                        && #[trigger] match_of(
                        candidates.drop_last()[o],
                        metadata.drop_last()[o]->0,
                    ) == shorter[a];
                assert(candidates[o].song_id != candidates[candidates.len() - 1].song_id);
            }
        }
    }
}

/// Reordering a list keeps its songs distinct.
pub proof fn lemma_reordered_distinct(list: Seq<Match>, reordered: Seq<Match>)
    requires
        has_distinct_songs(list),
        reordered.to_multiset() == list.to_multiset(),
    ensures
        has_distinct_songs(reordered),
{
    assert(list.no_duplicates());
    list.lemma_multiset_has_no_duplicates();
    reordered.lemma_multiset_has_no_duplicates_conv();
    assert forall|i: int, j: int| 0 <= i < j < reordered.len() implies reordered[i].song_id
        != reordered[j].song_id by {
        vstd::seq_lib::to_multiset_contains(list, reordered[i]);
        vstd::seq_lib::to_multiset_contains(list, reordered[j]);
        vstd::seq_lib::to_multiset_contains(reordered, reordered[i]);
        vstd::seq_lib::to_multiset_contains(reordered, reordered[j]);
        assert(reordered.contains(reordered[i]));
        assert(reordered.contains(reordered[j]));
        let a = choose|a: int| 0 <= a < list.len() && list[a] == reordered[i];
        let b = choose|b: int| 0 <= b < list.len() && list[b] == reordered[j];
        assert(reordered[i] != reordered[j]);
        assert(a != b);
        if a < b {
            assert(list[a].song_id != list[b].song_id);
        } else {
            assert(list[b].song_id != list[a].song_id);
        }
    }
}

} // verus!
