//! The query path of the match engine against a storage collaborator.

use crate::clock::generate_unique_id;
use crate::error::{MatchError, ShazamError};
use crate::fingerprint::{
    anchor_times, collapse, fingerprint, generated_entries, lemma_anchor_times_ignore_song,
};
use crate::keys::keys_of;
use crate::model::{Candidate, Couple, Match, Peak, Song, SpectralBin};
use crate::peaks::{covers_bands, extract_peaks, peaks_of};
use crate::permutation::lemma_longer_prefix;
use crate::hits::query_hits;
use crate::ranking::{
    candidates_of, has_distinct_songs, is_ranked, present_matches, query_candidates,
    ranked_matches, ranked_of,
};
use std::collections::HashMap;
use std::time::{Duration, Instant};
use vstd::prelude::*;

verus! {

broadcast use vstd::std_specs::hash::group_hash_axioms;

/// The storage collaborator, as far as a query needs it. Nothing is assumed
/// of what an implementation returns.
pub trait DatabaseClient {
    /// All stored couples that share one of `addresses`, by address, across
    /// all songs of the corpus. No address is asked for twice.
    fn get_couples(&self, addresses: &[u32]) -> Result<HashMap<u32, Vec<Couple>>, MatchError>
        requires
            addresses@.no_duplicates(),
    ;

    /// The metadata of a song, or `None` where the corpus has no such song.
    fn get_song_by_id(&self, song_id: i64) -> Result<Option<Song>, MatchError>;
}

/// Asks storage for the metadata of each candidate in turn and stops at the
/// first failure: the answers come back one for each candidate, in candidate
/// order. Without candidates storage is not asked, and the answers are none.
pub fn fetch_metadata<D: DatabaseClient>(db_client: &D, candidates: &Vec<Candidate>) -> (result:
    Result<Vec<Option<Song>>, MatchError>)
    ensures
        result matches Ok(metadata) ==> metadata.len() == candidates.len(),
        candidates.len() == 0 ==> result is Ok,
{
    let mut metadata: Vec<Option<Song>> = Vec::new();
    let mut k: usize = 0;
    while k < candidates.len()
        invariant
            k <= candidates.len(),
            metadata.len() == k,
        decreases candidates.len() - k,
    {
        match db_client.get_song_by_id(candidates[k].song_id) {
            Ok(song) => metadata.push(song),
            Err(e) => {
                return Err(e);
            },
        }
        k = k + 1;
    }
    Ok(metadata)
}

/// The list is what a query with this fingerprint returns where storage
/// answers with these couples and this metadata: the fingerprint's addresses
/// are walked in the order of `addresses`, every song that was hit is a
/// candidate, `metadata[i]` answers for the `i`-th candidate, and the
/// matches of the candidates with metadata are ranked.
pub open spec fn is_result_for(
    list: Seq<Match>,
    fingerprint: Map<u32, u32>,
    addresses: Seq<u32>,
    couples: Map<u32, Vec<Couple>>,
    metadata: Seq<Option<Song>>,
) -> bool {
    let candidates = candidates_of(query_hits(fingerprint, addresses, couples));
    &&& addresses.no_duplicates()
    &&& forall|a: u32| addresses.contains(a) <==> #[trigger] fingerprint.contains_key(a)
    &&& metadata.len() == candidates.len()
    &&& list == ranked_of(present_matches(candidates, metadata))
}

/// The list is what a query with this fingerprint returns for some answers
/// of storage.
pub open spec fn is_query_result(list: Seq<Match>, fingerprint: Map<u32, u32>) -> bool {
    exists|addresses: Seq<u32>, couples: Map<u32, Vec<Couple>>, metadata: Seq<Option<Song>>|
        #[trigger] is_result_for(list, fingerprint, addresses, couples, metadata)
}

/// Identifies the songs that share addresses with the query fingerprint
/// `address -> anchor_time_ms`, ranked by score, and reports how long the
/// query took.
///
/// Storage is asked once for the couples of all the query's addresses and
/// once per candidate for its metadata. A failure of storage ends the query
/// with that failure. A candidate without metadata is left out. A query
/// without addresses asks storage nothing and has no matches.
pub fn find_matches_fgp<D: DatabaseClient>(
    sample_fingerprint: &HashMap<u32, u32>,
    db_client: &D,
) -> (result: Result<(Vec<Match>, Duration), MatchError>)
    ensures
        result matches Ok((list, _)) ==> is_ranked(list@) && has_distinct_songs(list@),
        result matches Ok((list, _)) ==> is_query_result(list@, sample_fingerprint@),
        sample_fingerprint@.is_empty() ==> (result matches Ok((list, _)) && list@.len() == 0),
{
    let start_time: Instant = Instant::now();
    let addresses: Vec<u32> = keys_of(sample_fingerprint);
    if addresses.len() == 0 {
        let list: Vec<Match> = Vec::new();
        proof {
            let no_addresses = Seq::<u32>::empty();
            let no_couples = Map::<u32, Vec<Couple>>::empty();
            let no_metadata = Seq::<Option<Song>>::empty();
            assert(addresses@ =~= no_addresses);
            assert(is_result_for(
                list@,
                sample_fingerprint@,
                no_addresses,
                no_couples,
                no_metadata,
            ));
        }
        return Ok((list, start_time.elapsed()));
    }
    let couples_map: HashMap<u32, Vec<Couple>> = match db_client.get_couples(
        addresses.as_slice(),
    ) {
        Ok(couples_map) => couples_map,
        Err(e) => {
            return Err(e);
        },
    };
    let candidates: Vec<Candidate> = query_candidates(
        sample_fingerprint,
        &addresses,
        &couples_map,
    );
    let metadata: Vec<Option<Song>> = match fetch_metadata(db_client, &candidates) {
        Ok(metadata) => metadata,
        Err(e) => {
            return Err(e);
        },
    };
    let list: Vec<Match> = ranked_matches(&candidates, &metadata);
    proof {
        assert(is_result_for(
            list@,
            sample_fingerprint@,
            addresses@,
            couples_map@,
            metadata@,
        ));
    }
    Ok((list, start_time.elapsed()))
}

/// The fingerprint of a spectrogram: the rows of its peaks, collapsed by
/// address.
pub open spec fn fingerprint_of(
    spectrogram: Seq<Vec<SpectralBin>>,
    audio_duration_us: u64,
    song_id: i64,
) -> Map<u32, Couple> {
    collapse(
        generated_entries(
            peaks_of(spectrogram, audio_duration_us, spectrogram.len() as int),
            song_id,
        ),
    )
}

/// The query that a spectrogram makes: the anchor times of its fingerprint,
/// address by address.
pub open spec fn query_of(spectrogram: Seq<Vec<SpectralBin>>, audio_duration_us: u64) -> Map<
    u32,
    u32,
> {
    anchor_times(fingerprint_of(spectrogram, audio_duration_us, 0))
}

/// The query that a spectrogram makes does not depend on the song that its
/// fingerprint is generated for.
pub proof fn lemma_query_ignores_song(
    spectrogram: Seq<Vec<SpectralBin>>,
    audio_duration_us: u64,
    song_id: i64,
)
    ensures
        anchor_times(fingerprint_of(spectrogram, audio_duration_us, song_id)) == query_of(
            spectrogram,
            audio_duration_us,
        ),
{
    lemma_anchor_times_ignore_song(
        peaks_of(spectrogram, audio_duration_us, spectrogram.len() as int),
        song_id,
        0,
    );
}

/// The anchor times of a fingerprint, address by address.
pub open spec fn is_query_of(query: Map<u32, u32>, fingerprints: Map<u32, Couple>) -> bool {
    &&& forall|a: u32| #[trigger] query.contains_key(a) <==> fingerprints.contains_key(a)
    &&& forall|a: u32| #[trigger]
        query.contains_key(a) ==> query[a] == fingerprints[a].anchor_time_ms
}

/// Builds the fingerprint of a spectrogram for the song `song_id`: extracts
/// the peaks and hashes them pairwise.
pub fn build_fingerprint(
    spectrogram: &Vec<Vec<SpectralBin>>,
    audio_duration_us: u64,
    song_id: i64,
) -> (fingerprints: HashMap<u32, Couple>)
    requires
        covers_bands(spectrogram@),
    ensures
        fingerprints@ == fingerprint_of(spectrogram@, audio_duration_us, song_id),
{
    let peaks: Vec<Peak> = extract_peaks(spectrogram, audio_duration_us);
    fingerprint(peaks, song_id)
}

/// Reduces a fingerprint to what a query needs of it: the anchor time of
/// each address. The song is dropped.
pub fn query_times(fingerprints: &HashMap<u32, Couple>) -> (query: HashMap<u32, u32>)
    ensures
        query@ == anchor_times(fingerprints@),
        is_query_of(query@, fingerprints@),
{
    let addresses: Vec<u32> = keys_of(fingerprints);
    let mut query: HashMap<u32, u32> = HashMap::new();
    let mut k: usize = 0;
    while k < addresses.len()
        invariant
            k <= addresses.len(),
            forall|a: u32| addresses@.contains(a) <==> #[trigger] fingerprints@.contains_key(a),
            forall|a: u32| #[trigger]
                query@.contains_key(a) <==> addresses@.take(k as int).contains(a),
            forall|a: u32| #[trigger]
                query@.contains_key(a) ==> fingerprints@.contains_key(a) && query@[a]
                    == fingerprints@[a].anchor_time_ms,
        decreases addresses.len() - k,
    {
        let address: u32 = addresses[k];
        let ghost before = query@;
        proof {
            lemma_longer_prefix(addresses@, k as int);
        }
        match fingerprints.get(&address) {
            Some(couple) => {
                query.insert(address, couple.anchor_time_ms);
            },
            None => {},
        }
        proof {
            assert forall|a: u32| #[trigger]
                query@.contains_key(a) <==> addresses@.take(k + 1).contains(a) by {
                if a != address {
                    assert(before.contains_key(a) <==> query@.contains_key(a));
                }
            }
        }
        k = k + 1;
    }
    proof {
        assert(addresses@.take(addresses.len() as int) =~= addresses@);
        assert(query@ =~= anchor_times(fingerprints@));
    }
    query
}

/// Identifies the audio whose spectrogram the signal stages produced.
///
/// A failure of the signal stages ends the query as a `SpectrogramError`
/// with that failure's text, before storage is asked anything. Otherwise
/// the spectrogram is fingerprinted and the fingerprint's anchor times are
/// matched against storage: the result is that of `find_matches_fgp` on the
/// query that the spectrogram makes, whatever identifier the fingerprint was
/// generated with. A spectrogram whose fingerprint is empty has no matches,
/// and storage is not asked.
pub fn find_matches<D: DatabaseClient>(
    db_client: &D,
    spectrogram: &Result<Vec<Vec<SpectralBin>>, ShazamError>,
    audio_duration_us: u64,
) -> (result: Result<(Vec<Match>, Duration), MatchError>)
    requires
        spectrogram matches Ok(frames) ==> covers_bands(frames@),
    ensures
        spectrogram matches Err(failure) ==> (result matches Err(
            MatchError::SpectrogramError(message),
        ) && message@ == failure.text()),
        result matches Ok((list, _)) ==> is_ranked(list@) && has_distinct_songs(list@),
        spectrogram matches Ok(frames) ==> (result matches Ok((list, _)) ==> is_query_result(
            list@,
            query_of(frames@, audio_duration_us),
        )),
        spectrogram matches Ok(frames) ==> (query_of(frames@, audio_duration_us).is_empty() ==> (
        result matches Ok((list, _)) && list@.len() == 0)),
{
    let start_time: Instant = Instant::now();
    match spectrogram {
        Err(failure) => Err(MatchError::from_signal_failure(failure)),
        Ok(frames) => {
            let song_id: i64 = generate_unique_id();
            let sample_fingerprint: HashMap<u32, Couple> = build_fingerprint(
                frames,
                audio_duration_us,
                song_id,
            );
            let query: HashMap<u32, u32> = query_times(&sample_fingerprint);
            proof {
                lemma_query_ignores_song(frames@, audio_duration_us, song_id);
            }
            match find_matches_fgp(&query, db_client) {
                Ok((list, _)) => Ok((list, start_time.elapsed())),
                Err(e) => Err(e),
            }
        },
    }
}

} // verus!
