//! The records that pass between the fingerprint generator, the storage
//! collaborator and the match engine.

use vstd::prelude::*;

verus! {

/// One bin of a spectrum, as far as peak extraction and hashing read it: the
/// whole part of the real component of the spectral value, and the value's
/// magnitude in a linear unit of the producer's choice.
#[derive(Debug, Clone, Copy, PartialEq, Eq, Structural)]
pub struct SpectralBin {
    pub re: i32,
    pub magnitude: u64,
}

/// A salient point of the spectrogram: when it occurs, in microseconds from
/// the start of the audio, and the whole part of the real component of the
/// spectral value found there.
#[derive(Debug, Clone, Copy, PartialEq, Eq, Structural)]
pub struct Peak {
    pub time_us: u64,
    pub freq: i32,
}

/// The payload stored under an address: when the anchor peak occurred in the
/// song, and which song it was.
#[derive(Debug, Clone, Copy, PartialEq, Eq, Structural)]
pub struct Couple {
    pub anchor_time_ms: u32,
    pub song_id: i64,
}

/// One row of the stored corpus: an address and the couple stored under it.
#[derive(Debug, Clone, Copy, PartialEq, Eq, Structural)]
pub struct FingerPrint {
    pub address: u32,
    pub anchor_time_ms: u32,
    pub song_id: i64,
}

impl FingerPrint {
    /// The row that stores the anchor time and the song under the address.
    pub fn new(address: u32, anchor_time_ms: u32, song_id: i64) -> (row: FingerPrint)
        ensures
            row == (FingerPrint { address, anchor_time_ms, song_id }),
    {
        FingerPrint { address, anchor_time_ms, song_id }
    }

    /// The couple of the row.
    pub open spec fn spec_couple(&self) -> Couple {
        Couple { anchor_time_ms: self.anchor_time_ms, song_id: self.song_id }
    }

    /// The couple of the row.
    #[verifier::when_used_as_spec(spec_couple)]
    pub fn couple(&self) -> (couple: Couple)
        ensures
            couple == self.spec_couple(),
    {
        Couple { anchor_time_ms: self.anchor_time_ms, song_id: self.song_id }
    }
}

/// A song of the corpus. The storage layer assigns the identifier.
#[derive(Debug, Clone)]
pub struct Song {
    pub id: i64,
    pub youtube_url: String,
}

/// One candidate of a query's result, with its vote count as score.
#[derive(Debug, Clone)]
pub struct Match {
    pub song_id: i64,
    pub youtube_url: String,
    pub score: u64,
}

/// One stored couple that shares an address with the query: the song it
/// belongs to, the query's anchor time for that address and the stored one.
#[derive(Debug, Clone, Copy, PartialEq, Eq, Structural)]
pub struct Hit {
    pub song_id: i64,
    pub query_ms: u32,
    pub corpus_ms: u32,
}

/// A song that the query hit, before its metadata is known.
#[derive(Debug, Clone, Copy, PartialEq, Eq, Structural)]
pub struct Candidate {
    pub song_id: i64,
    pub score: u64,
    /// The earliest stored timestamp that the query hit. Informational.
    pub first_seen_ms: u32,
}

} // verus!
