//! The layout of the short-time spectra: how many frames a decimated signal
//! gives, and which samples each frame holds.

use crate::decimation::{output_len_of, rates_are_valid, ratio_of, Decimation, DSP_RATIO};
use crate::error::ShazamError;
use vstd::prelude::*;

verus! {

/// Samples per frame, and the length of the transform.
pub const FREQ_BIN_SIZE: usize = 1024;

/// Samples from the start of one frame to the start of the next.
pub const HOP_SIZE: usize = 32;

/// Bins of the spectrum of one frame.
pub const SPECTRUM_BINS: usize = 513;

/// Cutoff of the low-pass filter that precedes decimation, in hertz.
pub const MAX_FREQ_HZ: u32 = 5000;

/// Frames that a decimated signal of `signal_len` samples gives.
pub open spec fn frame_count_of(signal_len: int) -> int {
    signal_len / (FREQ_BIN_SIZE - HOP_SIZE)
}

/// First sample of frame `i`.
pub open spec fn frame_start_of(i: int) -> int {
    i * HOP_SIZE
}

/// First sample after frame `i`: a full frame, or as much as the signal has.
pub open spec fn frame_end_of(i: int, signal_len: int) -> int {
    if frame_start_of(i) + FREQ_BIN_SIZE <= signal_len {
        frame_start_of(i) + FREQ_BIN_SIZE
    } else {
        signal_len
    }
}

/// The duration of `sample_count` samples at `sample_rate`, in whole
/// microseconds, held at the largest `u64`.
pub open spec fn duration_us_of(sample_count: usize, sample_rate: u32) -> u64 {
    let us = sample_count as int * 1_000_000 / sample_rate as int;
    if us >= u64::MAX {
        u64::MAX
    } else {
        us as u64
    }
}

/// The duration of the audio that the samples hold.
pub fn audio_duration_us(sample_count: usize, sample_rate: u32) -> (duration: u64)
    requires
        sample_rate > 0,
    ensures
        duration == duration_us_of(sample_count, sample_rate),
{
    let us: u128 = (sample_count as u128) * 1_000_000 / (sample_rate as u128);
    if us >= u64::MAX as u128 {
        u64::MAX
    } else {
        us as u64
    }
}

/// The number of frames of a decimated signal.
pub fn frame_count(signal_len: usize) -> (frames: usize)
    ensures
        frames == frame_count_of(signal_len as int),
{
    signal_len / (FREQ_BIN_SIZE - HOP_SIZE)
}

/// The samples of frame `i`. Where fewer than a full frame are left, the
/// frame is to be padded with zeros up to the frame size.
pub fn frame_span(signal_len: usize, i: usize) -> (span: (usize, usize))
    requires
        i < frame_count_of(signal_len as int),
    ensures
        span.0 == frame_start_of(i as int),
        span.1 == frame_end_of(i as int, signal_len as int),
        span.0 < span.1 <= signal_len,
        span.1 - span.0 <= FREQ_BIN_SIZE,
{
    let start: usize = i * HOP_SIZE;
    let end: usize = if signal_len - start >= FREQ_BIN_SIZE {
        start + FREQ_BIN_SIZE
    } else {
        signal_len
    };
    (start, end)
}

/// A frame is short only where the whole signal is shorter than a frame,
/// and it is then the only frame.
pub proof fn lemma_short_frame(signal_len: usize, i: int)
    requires
        0 <= i < frame_count_of(signal_len as int),
        frame_end_of(i, signal_len as int) - frame_start_of(i) < FREQ_BIN_SIZE,
    ensures
        i == 0,
        frame_count_of(signal_len as int) == 1,
        signal_len < FREQ_BIN_SIZE,
        frame_end_of(i, signal_len as int) == signal_len,
{
}

/// The layout of a spectrogram: the decimation of the filtered signal and
/// the number of frames of the decimated signal.
#[derive(Debug, Clone, Copy, PartialEq, Eq, Structural)]
pub struct SpectrogramPlan {
    pub decimation: Decimation,
    pub decimated_len: usize,
    pub frames: usize,
}

/// Lays out the spectrogram of `sample_len` samples at `sample_rate`: the
/// signal is decimated to a `DSP_RATIO`-th of its rate and cut into frames.
/// Fails exactly when that lower rate would be zero.
pub fn plan_spectrogram(sample_len: usize, sample_rate: usize) -> (result: Result<
    SpectrogramPlan,
    ShazamError,
>)
    ensures
        sample_rate >= DSP_RATIO <==> result is Ok,
        result matches Ok(plan) ==> {
            &&& plan.decimation.wf()
            &&& plan.decimation.input_len == sample_len
            &&& plan.decimation.ratio == ratio_of(sample_rate, (sample_rate / DSP_RATIO) as usize)
            &&& plan.decimated_len == output_len_of(sample_len as int, plan.decimation.ratio as int)
            &&& plan.frames == frame_count_of(plan.decimated_len as int)
        },
        result matches Err(e) ==> (e matches ShazamError::InvalidSampleRate(message) && message@
            == "Sample rates must be positive"@),
{
    match Decimation::plan(sample_len, sample_rate, sample_rate / DSP_RATIO) {
        Ok(decimation) => {
            let decimated_len: usize = decimation.output_len();
            Ok(SpectrogramPlan { decimation, decimated_len, frames: frame_count(decimated_len) })
        },
        Err(e) => Err(e),
    }
}

} // verus!
