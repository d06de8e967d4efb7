//! The peak extractor: in every frame of the spectrogram, the strongest bin
//! of each frequency band is a peak if it stands out against the other bands.

use crate::model::{Peak, SpectralBin};
use vstd::prelude::*;

verus! {

/// Number of frequency bands.
pub const BAND_COUNT: usize = 6;

/// First bin that no band inspects.
pub const BAND_LIMIT: usize = 512;

/// First bin of band `b`.
pub open spec fn band_start(b: int) -> int {
    if b <= 0 {
        0
    } else if b == 1 {
        10
    } else if b == 2 {
        20
    } else if b == 3 {
        40
    } else if b == 4 {
        80
    } else {
        160
    }
}

/// First bin after band `b`.
pub open spec fn band_end(b: int) -> int {
    if b <= 0 {
        10
    } else if b == 1 {
        20
    } else if b == 2 {
        40
    } else if b == 3 {
        80
    } else if b == 4 {
        160
    } else {
        BAND_LIMIT as int
    }
}

/// Every frame is long enough for the bands.
pub open spec fn covers_bands(spectrogram: Seq<Vec<SpectralBin>>) -> bool {
    forall|f: int| 0 <= f < spectrogram.len() ==> (#[trigger] spectrogram[f]).len() >= BAND_LIMIT
}

/// `idx` is the strongest bin of `[lo, hi)`: no bin there is stronger, and
/// every bin before it is weaker.
pub open spec fn is_strongest(frame: Seq<SpectralBin>, lo: int, hi: int, idx: int) -> bool {
    &&& lo <= idx < hi
    &&& forall|k: int| lo <= k < hi ==> (#[trigger] frame[k]).magnitude <= frame[idx].magnitude
    &&& forall|k: int| lo <= k < idx ==> (#[trigger] frame[k]).magnitude < frame[idx].magnitude
}

/// The strongest bin of `[lo, hi)`, the lowest one where several tie.
pub open spec fn strongest(frame: Seq<SpectralBin>, lo: int, hi: int) -> int
    decreases hi - lo,
{
    if hi <= lo + 1 {
        lo
    } else {
        let before = strongest(frame, lo, hi - 1);
        if frame[hi - 1].magnitude > frame[before].magnitude {
            hi - 1
        } else {
            before
        }
    }
}

/// The strongest bin of band `b`.
pub open spec fn band_peak(frame: Seq<SpectralBin>, b: int) -> int {
    strongest(frame, band_start(b), band_end(b))
}

/// The magnitudes of the strongest bins of the first `bands` bands, summed.
pub open spec fn band_total(frame: Seq<SpectralBin>, bands: int) -> int
    decreases bands,
{
    if bands <= 0 {
        0
    } else {
        band_total(frame, bands - 1) + frame[band_peak(frame, bands - 1)].magnitude
    }
}

/// A band stands out when its strongest magnitude exceeds the mean of the
/// strongest magnitudes of all bands.
pub open spec fn stands_out(frame: Seq<SpectralBin>, b: int) -> bool {
    BAND_COUNT * frame[band_peak(frame, b)].magnitude > band_total(frame, BAND_COUNT as int)
}

/// The share of the audio's duration that one frame stands for.
pub open spec fn frame_duration_us(duration_us: u64, frames: int) -> int {
    duration_us as int / frames
}

/// The time of a peak found at bin `idx` of frame `f`: the frame's start,
/// and the bin's share of the frame's duration.
pub open spec fn peak_time_us(duration_us: u64, frames: int, f: int, frame_len: int, idx: int) -> int {
    f * frame_duration_us(duration_us, frames) + idx * frame_duration_us(duration_us, frames)
        / frame_len
}

/// The peak of band `b` of frame `f`.
pub open spec fn peak_of_band(
    frame: Seq<SpectralBin>,
    duration_us: u64,
    frames: int,
    f: int,
    b: int,
) -> Peak {
    Peak {
        time_us: peak_time_us(
            duration_us,
            frames,
            f,
            frame.len() as int,
            band_peak(frame, b),
        ) as u64,
        freq: frame[band_peak(frame, b)].re,
    }
}

/// The peaks of the first `bands` bands of frame `f`, in band order.
pub open spec fn frame_peaks(
    frame: Seq<SpectralBin>,
    duration_us: u64,
    frames: int,
    f: int,
    bands: int,
) -> Seq<Peak>
    decreases bands,
{
    if bands <= 0 {
        Seq::empty()
    } else {
        let before = frame_peaks(frame, duration_us, frames, f, bands - 1);
        if stands_out(frame, bands - 1) {
            before.push(peak_of_band(frame, duration_us, frames, f, bands - 1))
        } else {
            before
        }
    }
}

/// The peaks of the first `upto` frames, in frame order.
pub open spec fn peaks_of(spectrogram: Seq<Vec<SpectralBin>>, duration_us: u64, upto: int) -> Seq<
    Peak,
>
    decreases upto,
{
    if upto <= 0 {
        Seq::empty()
    } else {
        peaks_of(spectrogram, duration_us, upto - 1) + frame_peaks(
            spectrogram[upto - 1]@,
            duration_us,
            spectrogram.len() as int,
            upto - 1,
            BAND_COUNT as int,
        )
    }
}

/// `strongest` finds the strongest bin, and there is only one.
pub proof fn lemma_strongest(frame: Seq<SpectralBin>, lo: int, hi: int)
    requires
        0 <= lo < hi <= frame.len(),
    ensures
        is_strongest(frame, lo, hi, strongest(frame, lo, hi)),
        forall|idx: int| is_strongest(frame, lo, hi, idx) ==> idx == strongest(frame, lo, hi),
    decreases hi - lo,
{
    if hi > lo + 1 {
        lemma_strongest(frame, lo, hi - 1);
    }
    let found = strongest(frame, lo, hi);
    assert forall|idx: int| is_strongest(frame, lo, hi, idx) implies idx == found by {
        if idx < found {
            assert(frame[idx].magnitude < frame[found].magnitude);
        } else if found < idx {
            assert(frame[found].magnitude < frame[idx].magnitude);
        }
    }
}

/// Times do not go back from one peak to the next.
pub open spec fn is_time_ordered(peaks: Seq<Peak>) -> bool {
    forall|i: int, j: int| 0 <= i < j < peaks.len() ==> peaks[i].time_us <= peaks[j].time_us
}

/// Every time lies in `[lo, hi]`.
pub open spec fn times_within(peaks: Seq<Peak>, lo: int, hi: int) -> bool {
    forall|i: int| 0 <= i < peaks.len() ==> lo <= (#[trigger] peaks[i]).time_us <= hi
}

/// A bin's share of a frame's duration grows with the bin and stays within
/// the frame's duration.
proof fn lemma_share_grows(d: int, len: int, idx1: int, idx2: int)
    requires
        d >= 0,
        0 <= idx1 <= idx2 <= len,
        0 < len,
    ensures
        0 <= idx1 * d / len <= idx2 * d / len <= d,
{
    assert(0 <= idx1 * d <= idx2 * d <= len * d) by (nonlinear_arith)
        requires
            d >= 0,
            0 <= idx1 <= idx2 <= len,
    ;
    assert(0 <= idx1 * d / len <= idx2 * d / len) by (nonlinear_arith)
        requires
            0 <= idx1 * d <= idx2 * d,
            len > 0,
    ;
    assert(idx2 * d / len <= d) by (nonlinear_arith)
        requires
            idx2 * d <= len * d,
            len > 0,
            d >= 0,
    ;
}

/// Frame `f` of `frames` lies within the audio.
proof fn lemma_frame_within(duration_us: u64, frames: int, f: int)
    requires
        0 <= f < frames,
    ensures
        0 <= frame_duration_us(duration_us, frames),
        0 <= f * frame_duration_us(duration_us, frames),
        (f + 1) * frame_duration_us(duration_us, frames) == f * frame_duration_us(
            duration_us,
            frames,
        ) + frame_duration_us(duration_us, frames),
        (f + 1) * frame_duration_us(duration_us, frames) <= duration_us,
{
    let d = frame_duration_us(duration_us, frames);
    assert(frames * d <= duration_us && d >= 0) by (nonlinear_arith)
        requires
            frames > 0,
            d == duration_us as int / frames,
    ;
    assert((f + 1) * d <= frames * d) by (nonlinear_arith)
        requires
            f + 1 <= frames,
            d >= 0,
    ;
    assert((f + 1) * d == f * d + d) by (nonlinear_arith);
    assert(f * d >= 0) by (nonlinear_arith)
        requires
            d >= 0,
            f >= 0,
    ;
}

/// First bin after the first `bands` bands.
pub open spec fn bands_reach(bands: int) -> int {
    if bands <= 0 {
        0
    } else {
        band_end(bands - 1)
    }
}

/// The peaks of the first `bands` bands of a frame are in time order and lie
/// between the frame's start and the time of the first bin after those bands.
proof fn lemma_frame_peaks_ordered(
    frame: Seq<SpectralBin>,
    duration_us: u64,
    frames: int,
    f: int,
    bands: int,
)
    requires
        frame.len() >= BAND_LIMIT,
        0 <= f < frames,
        0 <= bands <= BAND_COUNT,
    ensures
        is_time_ordered(frame_peaks(frame, duration_us, frames, f, bands)),
        times_within(
            frame_peaks(frame, duration_us, frames, f, bands),
            f * frame_duration_us(duration_us, frames),
            peak_time_us(duration_us, frames, f, frame.len() as int, bands_reach(bands)),
        ),
        peak_time_us(duration_us, frames, f, frame.len() as int, bands_reach(bands)) <= (f + 1)
            * frame_duration_us(duration_us, frames),
    decreases bands,
{
    let d = frame_duration_us(duration_us, frames);
    let len = frame.len() as int;
    lemma_frame_within(duration_us, frames, f);
    lemma_share_grows(d, len, bands_reach(bands), bands_reach(bands));
    if bands > 0 {
        let b = bands - 1;
        lemma_frame_peaks_ordered(frame, duration_us, frames, f, b);
        lemma_strongest(frame, band_start(b), band_end(b));
        let idx = band_peak(frame, b);
        lemma_share_grows(d, len, bands_reach(b), idx);
        lemma_share_grows(d, len, idx, bands_reach(bands));
        let before = frame_peaks(frame, duration_us, frames, f, b);
        let now = frame_peaks(frame, duration_us, frames, f, bands);
        let peak = peak_of_band(frame, duration_us, frames, f, b);
        assert(peak.time_us == peak_time_us(duration_us, frames, f, len, idx));
        assert forall|i: int| 0 <= i < now.len() implies f * d <= (#[trigger] now[i]).time_us
            <= peak_time_us(duration_us, frames, f, len, bands_reach(bands)) by {
            if i < before.len() {
                assert(before[i] == now[i]);
            }
        }
        assert forall|i: int, j: int| 0 <= i < j < now.len() implies now[i].time_us
            <= now[j].time_us by {
            if j < before.len() {
                assert(before[i].time_us <= before[j].time_us);
            } else {
                assert(before[i] == now[i]);
            }
        }
    }
}

/// The peaks of a spectrogram come out in time order, none later than the
/// end of the audio.
pub proof fn lemma_peaks_time_ordered(
    spectrogram: Seq<Vec<SpectralBin>>,
    duration_us: u64,
    upto: int,
)
    requires
        covers_bands(spectrogram),
        0 <= upto <= spectrogram.len(),
    ensures
        is_time_ordered(peaks_of(spectrogram, duration_us, upto)),
        times_within(
            peaks_of(spectrogram, duration_us, upto),
            0,
            upto * frame_duration_us(duration_us, spectrogram.len() as int),
        ),
        upto * frame_duration_us(duration_us, spectrogram.len() as int) <= duration_us,
    decreases upto,
{
    let frames = spectrogram.len() as int;
    let d = frame_duration_us(duration_us, frames);
    if upto > 0 {
        let f = upto - 1;
        lemma_peaks_time_ordered(spectrogram, duration_us, f);
        lemma_frame_within(duration_us, frames, f);
        lemma_frame_peaks_ordered(spectrogram[f]@, duration_us, frames, f, BAND_COUNT as int);
        let before = peaks_of(spectrogram, duration_us, f);
        let of_frame = frame_peaks(spectrogram[f]@, duration_us, frames, f, BAND_COUNT as int);
        let now = peaks_of(spectrogram, duration_us, upto);
        assert(now == before + of_frame);
        assert forall|i: int| 0 <= i < now.len() implies 0 <= (#[trigger] now[i]).time_us <= upto
            * d by {
            if i < before.len() {
                assert(now[i] == before[i]);
            } else {
                assert(now[i] == of_frame[i - before.len()]);
            }
        }
        assert forall|i: int, j: int| 0 <= i < j < now.len() implies now[i].time_us
            <= now[j].time_us by {
            if j < before.len() {
                assert(before[i].time_us <= before[j].time_us);
            } else if i < before.len() {
                assert(now[i] == before[i]);
                assert(now[j] == of_frame[j - before.len()]);
            } else {
                assert(of_frame[i - before.len()].time_us <= of_frame[j - before.len()].time_us);
            }
        }
    } else {
        assert(0 * d == 0) by (nonlinear_arith);
    }
}

/// Decides whether every frame is long enough for the bands.
pub fn has_band_coverage(spectrogram: &Vec<Vec<SpectralBin>>) -> (covered: bool)
    ensures
        covered == covers_bands(spectrogram@),
{
    let mut f: usize = 0;
    while f < spectrogram.len()
        invariant
            f <= spectrogram.len(),
            forall|g: int| 0 <= g < f ==> (#[trigger] spectrogram@[g]).len() >= BAND_LIMIT,
        decreases spectrogram.len() - f,
    {
        if spectrogram[f].len() < BAND_LIMIT {
            return false;
        }
        f = f + 1;
    }
    true
}

/// The bounds of band `b`.
pub fn band_bounds(b: usize) -> (bounds: (usize, usize))
    requires
        b < BAND_COUNT,
    ensures
        bounds.0 == band_start(b as int),
        bounds.1 == band_end(b as int),
        bounds.0 < bounds.1 <= BAND_LIMIT,
{
    if b == 0 {
        (0, 10)
    } else if b == 1 {
        (10, 20)
    } else if b == 2 {
        (20, 40)
    } else if b == 3 {
        (40, 80)
    } else if b == 4 {
        (80, 160)
    } else {
        (160, BAND_LIMIT)
    }
}

/// Finds the strongest bin of `[lo, hi)`, the lowest one where several tie.
pub fn strongest_bin(frame: &Vec<SpectralBin>, lo: usize, hi: usize) -> (idx: usize)
    requires
        lo < hi <= frame.len(),
    ensures
        idx == strongest(frame@, lo as int, hi as int),
        lo <= idx < hi,
{
    let mut idx: usize = lo;
    let mut k: usize = lo + 1;
    while k < hi
        invariant
            lo < k <= hi <= frame.len(),
            lo <= idx < k,
            idx == strongest(frame@, lo as int, k as int),
        decreases hi - k,
    {
        if frame[k].magnitude > frame[idx].magnitude {
            idx = k;
        }
        k = k + 1;
    }
    idx
}

/// Extracts the peaks of one frame, in band order: the strongest bin of
/// every band that stands out. `f` is the frame's index among `frames`.
pub fn extract_frame_peaks(
    frame: &Vec<SpectralBin>,
    audio_duration_us: u64,
    frames: usize,
    f: usize,
) -> (peaks: Vec<Peak>)
    requires
        frame.len() >= BAND_LIMIT,
        f < frames,
    ensures
        peaks@ == frame_peaks(frame@, audio_duration_us, frames as int, f as int, BAND_COUNT as int),
{
    let mut found: Vec<usize> = Vec::new();
    let mut total: u128 = 0;
    let mut b: usize = 0;
    while b < BAND_COUNT
        invariant
            b <= BAND_COUNT,
            frame.len() >= BAND_LIMIT,
            found.len() == b,
            forall|c: int| 0 <= c < b ==> found[c] == band_peak(frame@, c) && found[c] < BAND_LIMIT,
            total == band_total(frame@, b as int),
            total <= b * u64::MAX,
        decreases BAND_COUNT - b,
    {
        let (lo, hi) = band_bounds(b);
        let idx: usize = strongest_bin(frame, lo, hi);
        total = total + frame[idx].magnitude as u128;
        found.push(idx);
        b = b + 1;
    }
    let frame_duration: u64 = audio_duration_us / (frames as u64);
    let frame_start: u64 = start_of_frame(audio_duration_us, frames, f);
    let mut peaks: Vec<Peak> = Vec::new();
    let mut b: usize = 0;
    while b < BAND_COUNT
        invariant
            b <= BAND_COUNT,
            f < frames,
            frame.len() >= BAND_LIMIT,
            found.len() == BAND_COUNT,
            forall|c: int|
                0 <= c < BAND_COUNT ==> found[c] == band_peak(frame@, c) && found[c] < BAND_LIMIT,
            total == band_total(frame@, BAND_COUNT as int),
            frame_duration == frame_duration_us(audio_duration_us, frames as int),
            frame_start == f * frame_duration,
            frame_start + frame_duration <= audio_duration_us,
            peaks@ == frame_peaks(
                frame@,
                audio_duration_us,
                frames as int,
                f as int,
                b as int,
            ),
        decreases BAND_COUNT - b,
    {
        let idx: usize = found[b];
        if (BAND_COUNT as u128) * (frame[idx].magnitude as u128) > total {
            let within: u64 = share_of(frame_duration, idx, frame.len());
            peaks.push(Peak { time_us: frame_start + within, freq: frame[idx].re });
        }
        b = b + 1;
    }
    peaks
}

/// The start of frame `f` of `frames`: `f` frame durations.
pub fn start_of_frame(audio_duration_us: u64, frames: usize, f: usize) -> (start: u64)
    requires
        f < frames,
    ensures
        start == f * frame_duration_us(audio_duration_us, frames as int),
        start + frame_duration_us(audio_duration_us, frames as int) <= audio_duration_us,
{
    let frame_duration: u64 = audio_duration_us / (frames as u64);
    proof {
        let d = frame_duration as int;
        let n = frames as int;
        assert(n * d <= audio_duration_us) by (nonlinear_arith)
            requires
                n > 0,
                d == audio_duration_us as int / n,
        ;
        assert((f + 1) * d <= n * d) by (nonlinear_arith)
            requires
                f + 1 <= n,
                d >= 0,
        ;
        assert((f + 1) * d == f * d + d) by (nonlinear_arith);
        assert(f * d >= 0) by (nonlinear_arith)
            requires
                d >= 0,
        ;
    }
    ((f as u128) * (frame_duration as u128)) as u64
}

/// The share `idx / len` of a frame's duration, rounded down.
pub fn share_of(frame_duration: u64, idx: usize, len: usize) -> (share: u64)
    requires
        idx < len,
    ensures
        share == idx * frame_duration / (len as int),
        share <= frame_duration,
{
    proof {
        let d = frame_duration as int;
        assert(idx * d <= len * d) by (nonlinear_arith)
            requires
                idx < len,
                d >= 0,
        ;
        assert(idx * d / (len as int) <= d) by (nonlinear_arith)
            requires
                idx * d <= len * d,
                len > 0,
                d >= 0,
        ;
        assert(idx * d >= 0) by (nonlinear_arith)
            requires
                d >= 0,
        ;
        assert(idx * d <= u64::MAX * u64::MAX) by (nonlinear_arith)
            requires
                0 <= idx <= u64::MAX,
                0 <= d <= u64::MAX,
        ;
        assert(idx * d / (len as int) >= 0) by (nonlinear_arith)
            requires
                idx * d >= 0,
                len > 0,
        ;
    }
    (((idx as u128) * (frame_duration as u128)) / (len as u128)) as u64
}

/// Extracts the peaks of a spectrogram, frame by frame and band by band.
pub fn extract_peaks(spectrogram: &Vec<Vec<SpectralBin>>, audio_duration_us: u64) -> (peaks: Vec<
    Peak,
>)
    requires
        covers_bands(spectrogram@),
    ensures
        peaks@ == peaks_of(spectrogram@, audio_duration_us, spectrogram.len() as int),
        is_time_ordered(peaks@),
        times_within(peaks@, 0, audio_duration_us as int),
{
    proof {
        lemma_peaks_time_ordered(spectrogram@, audio_duration_us, spectrogram.len() as int);
    }
    let mut peaks: Vec<Peak> = Vec::new();
    let frames: usize = spectrogram.len();
    let mut f: usize = 0;
    while f < frames
        invariant
            f <= frames,
            frames == spectrogram.len(),
            covers_bands(spectrogram@),
            peaks@ == peaks_of(spectrogram@, audio_duration_us, f as int),
        decreases frames - f,
    {
        let mut of_frame: Vec<Peak> = extract_frame_peaks(
            &spectrogram[f],
            audio_duration_us,
            frames,
            f,
        );
        peaks.append(&mut of_frame);
        f = f + 1;
    }
    peaks
}

} // verus!
