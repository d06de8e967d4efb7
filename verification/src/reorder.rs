//! The candidates of a query do not depend on the order in which its
//! addresses are walked.

use crate::hits::{hits_at, query_hits};
use crate::model::{Couple, Hit};
use crate::ranking::candidate_of;
use crate::permutation::lemma_last_in_reordered;
use crate::scoring::lemma_vote_count_reordered;
use crate::tally::{earliest_of, lemma_songs_of, pairs_of, songs_of};
use vstd::prelude::*;

verus! {

/// The smaller of an earliest timestamp so far and one more timestamp.
pub open spec fn earlier_of(so_far: Option<u32>, t: u32) -> Option<u32> {
    match so_far {
        Some(s) => Some(if t < s { t } else { s }),
        None => Some(t),
    }
}

/// The smallest stored timestamp among the time pairs, if there is any.
pub open spec fn earliest_in(pairs: Seq<[u32; 2]>) -> Option<u32>
    decreases pairs.len(),
{
    if pairs.len() == 0 {
        None
    } else {
        earlier_of(earliest_in(pairs.drop_last()), pairs.last()[1])
    }
}

/// The earliest stored timestamp of a song is that of its time pairs.
pub proof fn lemma_earliest_of_pairs(hits: Seq<Hit>, song: i64)
    ensures
        earliest_of(hits, song) == earliest_in(pairs_of(hits, song)),
    decreases hits.len(),
{
    if hits.len() > 0 {
        lemma_earliest_of_pairs(hits.drop_last(), song);
        let rest = pairs_of(hits.drop_last(), song);
        let h = hits.last();
        if h.song_id == song {
            let pair = [h.query_ms, h.corpus_ms];
            assert(rest.push(pair).drop_last() =~= rest);
            assert(rest.push(pair).last() == pair);
        }
    }
}

/// Putting one more time pair anywhere into a list lowers the earliest
/// timestamp to the new one where that is earlier.
pub proof fn lemma_earliest_in_insert(pairs: Seq<[u32; 2]>, k: int, x: [u32; 2])
    requires
        0 <= k <= pairs.len(),
    ensures
        earliest_in(pairs.insert(k, x)) == earlier_of(earliest_in(pairs), x[1]),
    decreases pairs.len(),
{
    let longer = pairs.insert(k, x);
    if k == pairs.len() {
        assert(longer.drop_last() =~= pairs);
        assert(longer.last() == x);
    } else {
        assert(longer.drop_last() =~= pairs.drop_last().insert(k, x));
        assert(longer.last() == pairs.last());
        lemma_earliest_in_insert(pairs.drop_last(), k, x);
    }
}

/// The earliest timestamp of a list of time pairs does not depend on their
/// order.
pub proof fn lemma_earliest_in_reordered(pairs: Seq<[u32; 2]>, reordered: Seq<[u32; 2]>)
    requires
        pairs.to_multiset() == reordered.to_multiset(),
    ensures
        earliest_in(pairs) == earliest_in(reordered),
    decreases pairs.len(),
{
    vstd::seq_lib::to_multiset_len(pairs);
    vstd::seq_lib::to_multiset_len(reordered);
    if pairs.len() > 0 {
        let k = lemma_last_in_reordered(pairs, reordered);
        lemma_earliest_in_reordered(pairs.drop_last(), reordered.remove(k));
        lemma_earliest_in_insert(reordered.remove(k), k, pairs.last());
    } else {
        assert(reordered =~= Seq::<[u32; 2]>::empty());
    }
}

/// The time pairs of hits that follow one another are those of the first
/// hits followed by those of the second.
pub proof fn lemma_pairs_of_concat(first: Seq<Hit>, second: Seq<Hit>, song: i64)
    ensures
        pairs_of(first + second, song) == pairs_of(first, song) + pairs_of(second, song),
    decreases second.len(),
{
    if second.len() == 0 {
        assert(first + second =~= first);
        assert(pairs_of(first, song) + pairs_of(second, song) =~= pairs_of(first, song));
    } else {
        assert((first + second).drop_last() =~= first + second.drop_last());
        assert((first + second).last() == second.last());
        lemma_pairs_of_concat(first, second.drop_last(), song);
        let h = second.last();
        if h.song_id == song {
            let pair = [h.query_ms, h.corpus_ms];
            assert((pairs_of(first, song) + pairs_of(second.drop_last(), song)).push(pair)
                =~= pairs_of(first, song) + pairs_of(second.drop_last(), song).push(pair));
        }
    }
}

/// The time pairs that a song has from a walk over the addresses.
pub open spec fn walk_pairs(
    fingerprint: Map<u32, u32>,
    addresses: Seq<u32>,
    couples: Map<u32, Vec<Couple>>,
    song: i64,
) -> Seq<[u32; 2]> {
    pairs_of(query_hits(fingerprint, addresses, couples), song)
}

/// Walking one more address, wherever in the walk, adds the time pairs that
/// the song has under that address and changes no other.
pub proof fn lemma_walk_insert(
    fingerprint: Map<u32, u32>,
    addresses: Seq<u32>,
    couples: Map<u32, Vec<Couple>>,
    song: i64,
    k: int,
    a: u32,
)
    requires
        0 <= k <= addresses.len(),
    ensures
        walk_pairs(fingerprint, addresses.insert(k, a), couples, song).to_multiset()
            == walk_pairs(fingerprint, addresses, couples, song).to_multiset().add(
            pairs_of(hits_at(fingerprint, couples, a), song).to_multiset(),
        ),
    decreases addresses.len(),
{
    broadcast use vstd::multiset::group_multiset_axioms;

    let longer = addresses.insert(k, a);
    let of_a = pairs_of(hits_at(fingerprint, couples, a), song);
    if k == addresses.len() {
        assert(longer.drop_last() =~= addresses);
        assert(longer.last() == a);
        lemma_pairs_of_concat(
            query_hits(fingerprint, addresses, couples),
            hits_at(fingerprint, couples, a),
            song,
        );
        vstd::seq_lib::lemma_multiset_commutative(
            walk_pairs(fingerprint, addresses, couples, song),
            of_a,
        );
    } else {
        let shorter = addresses.drop_last();
        let last = addresses.last();
        let of_last = pairs_of(hits_at(fingerprint, couples, last), song);
        assert(longer.drop_last() =~= shorter.insert(k, a));
        assert(longer.last() == last);
        lemma_walk_insert(fingerprint, shorter, couples, song, k, a);
        lemma_pairs_of_concat(
            query_hits(fingerprint, shorter.insert(k, a), couples),
            hits_at(fingerprint, couples, last),
            song,
        );
        lemma_pairs_of_concat(
            query_hits(fingerprint, shorter, couples),
            hits_at(fingerprint, couples, last),
            song,
        );
        vstd::seq_lib::lemma_multiset_commutative(
            walk_pairs(fingerprint, shorter.insert(k, a), couples, song),
            of_last,
        );
        vstd::seq_lib::lemma_multiset_commutative(
            walk_pairs(fingerprint, shorter, couples, song),
            of_last,
        );
        assert(walk_pairs(fingerprint, longer, couples, song).to_multiset() =~= walk_pairs(
            fingerprint,
            addresses,
            couples,
            song,
        ).to_multiset().add(of_a.to_multiset()));
    }
}

/// Walking the same addresses in another order gives a song the same time
/// pairs, in another order.
pub proof fn lemma_walk_reordered(
    fingerprint: Map<u32, u32>,
    addresses: Seq<u32>,
    reordered: Seq<u32>,
    couples: Map<u32, Vec<Couple>>,
    song: i64,
)
    requires
        addresses.to_multiset() == reordered.to_multiset(),
    ensures
        walk_pairs(fingerprint, addresses, couples, song).to_multiset() == walk_pairs(
            fingerprint,
            reordered,
            couples,
            song,
        ).to_multiset(),
    decreases addresses.len(),
{
    vstd::seq_lib::to_multiset_len(addresses);
    vstd::seq_lib::to_multiset_len(reordered);
    if addresses.len() > 0 {
        let k = lemma_last_in_reordered(addresses, reordered);
        let rest = reordered.remove(k);
        lemma_walk_reordered(fingerprint, addresses.drop_last(), rest, couples, song);
        lemma_walk_insert(fingerprint, rest, couples, song, k, addresses.last());
        lemma_walk_insert(
            fingerprint,
            addresses.drop_last(),
            couples,
            song,
            addresses.len() - 1,
            addresses.last(),
        );
        assert(addresses.drop_last().insert(addresses.len() - 1, addresses.last())
            =~= addresses);
    } else {
        assert(reordered =~= Seq::<u32>::empty());
    }
}

/// The order in which the addresses of a query are walked changes neither
/// which songs are candidates nor the score or the earliest timestamp of any
/// of them.
pub proof fn lemma_candidates_ignore_address_order(
    fingerprint: Map<u32, u32>,
    addresses: Seq<u32>,
    reordered: Seq<u32>,
    couples: Map<u32, Vec<Couple>>,
    song: i64,
)
    requires
        addresses.to_multiset() == reordered.to_multiset(),
    ensures
        songs_of(query_hits(fingerprint, addresses, couples)).contains(song) <==> songs_of(
            query_hits(fingerprint, reordered, couples),
        ).contains(song),
        candidate_of(query_hits(fingerprint, addresses, couples), song) == candidate_of(
            query_hits(fingerprint, reordered, couples),
            song,
        ),
{
    let hits = query_hits(fingerprint, addresses, couples);
    let hits_reordered = query_hits(fingerprint, reordered, couples);
    let pairs = walk_pairs(fingerprint, addresses, couples, song);
    let pairs_reordered = walk_pairs(fingerprint, reordered, couples, song);
    lemma_walk_reordered(fingerprint, addresses, reordered, couples, song);
    vstd::seq_lib::to_multiset_len(pairs);
    vstd::seq_lib::to_multiset_len(pairs_reordered);
    lemma_songs_of(hits);
    lemma_songs_of(hits_reordered);
    lemma_vote_count_reordered(pairs, pairs_reordered);
    lemma_earliest_of_pairs(hits, song);
    lemma_earliest_of_pairs(hits_reordered, song);
    lemma_earliest_in_reordered(pairs, pairs_reordered);
}

} // verus!
