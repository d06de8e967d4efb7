//! Joins a query fingerprint with the couples that storage returned for its
//! addresses.

use crate::model::{Couple, Hit};
use std::collections::HashMap;
use vstd::prelude::*;

verus! {

broadcast use vstd::std_specs::hash::group_hash_axioms;

/// The hits that one address contributes: one per stored couple, in stored order.
pub open spec fn hits_of_address(query_ms: u32, couples: Seq<Couple>) -> Seq<Hit> {
    Seq::new(
        couples.len(),
        |i: int|
            Hit { song_id: couples[i].song_id, query_ms, corpus_ms: couples[i].anchor_time_ms },
    )
}

/// What the address `a` contributes: nothing unless both the query and the
/// storage reply know it.
pub open spec fn hits_at(
    fingerprint: Map<u32, u32>,
    couples: Map<u32, Vec<Couple>>,
    a: u32,
) -> Seq<Hit> {
    if fingerprint.contains_key(a) && couples.contains_key(a) {
        hits_of_address(fingerprint[a], couples[a]@)
    } else {
        Seq::empty()
    }
}

/// All hits of a query, address by address in the order of `addresses`.
pub open spec fn query_hits(
    fingerprint: Map<u32, u32>,
    addresses: Seq<u32>,
    couples: Map<u32, Vec<Couple>>,
) -> Seq<Hit>
    decreases addresses.len(),
{
    if addresses.len() == 0 {
        Seq::empty()
    } else {
        query_hits(fingerprint, addresses.drop_last(), couples) + hits_at(
            fingerprint,
            couples,
            addresses.last(),
        )
    }
}

/// Walks the query's addresses in the given order and lists every stored
/// couple found under one of them, paired with the query's anchor time.
pub fn collect_hits(
    sample_fingerprint: &HashMap<u32, u32>,
    addresses: &Vec<u32>,
    couples_map: &HashMap<u32, Vec<Couple>>,
) -> (hits: Vec<Hit>)
    ensures
        hits@ == query_hits(sample_fingerprint@, addresses@, couples_map@),
{
    let mut hits: Vec<Hit> = Vec::new();
    let mut i: usize = 0;
    while i < addresses.len()
        invariant
            i <= addresses.len(),
            hits@ == query_hits(sample_fingerprint@, addresses@.take(i as int), couples_map@),
        decreases addresses.len() - i,
    {
        let address: u32 = addresses[i];
        let ghost done = hits@;
        proof {
            assert(addresses@.take(i + 1).drop_last() =~= addresses@.take(i as int));
            assert(addresses@.take(i + 1).last() == address);
        }
        match (sample_fingerprint.get(&address), couples_map.get(&address)) {
            (Some(query_ms), Some(couples)) => {
                let mut k: usize = 0;
                while k < couples.len()
                    invariant
                        k <= couples.len(),
                        hits@ == done + hits_of_address(*query_ms, couples@).take(k as int),
                    decreases couples.len() - k,
                {
                    let couple = couples[k];
                    hits.push(
                        Hit {
                            song_id: couple.song_id,
                            query_ms: *query_ms,
                            corpus_ms: couple.anchor_time_ms,
                        },
                    );
                    proof {
                        let all = hits_of_address(*query_ms, couples@);
                        assert(all.take(k + 1) =~= all.take(k as int).push(all[k as int]));
                    }
                    k = k + 1;
                }
                proof {
                    let all = hits_of_address(*query_ms, couples@);
                    assert(all.take(couples.len() as int) =~= all);
                }
            },
            _ => {
                proof {
                    assert(done + Seq::<Hit>::empty() =~= done);
                }
            },
        }
        i = i + 1;
    }
    proof {
        assert(addresses@.take(addresses.len() as int) =~= addresses@);
    }
    hits
}

} // verus!
