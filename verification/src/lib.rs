//! Acoustic fingerprinting: spectral peaks are hashed pairwise into 32-bit
//! addresses, and a query is identified by the time alignment of the
//! addresses it shares with a stored corpus.

pub mod clock;
pub mod decimation;
pub mod engine;
pub mod error;
pub mod filename;
pub mod filter;
pub mod fingerprint;
pub mod frames;
pub mod hits;
pub mod keys;
pub mod model;
pub mod multipart;
pub mod peaks;
pub mod permutation;
pub mod random;
pub mod ranking;
pub mod reorder;
pub mod samples;
pub mod scoring;
pub mod tally;
