//! The layout of boxcar decimation: which block of input samples each output
//! sample is the mean of.

use crate::error::ShazamError;
use vstd::prelude::*;

verus! {

/// The rate of the decimated signal is the original rate divided by this.
pub const DSP_RATIO: usize = 4;

/// A decimation is possible: both rates are positive and the target is not
/// the higher one.
pub open spec fn rates_are_valid(original_sample_rate: usize, target_sample_rate: usize) -> bool {
    target_sample_rate != 0 && original_sample_rate != 0 && target_sample_rate
        <= original_sample_rate
}

/// What is wrong with a pair of rates that is not valid.
pub open spec fn rate_complaint(original_sample_rate: usize, target_sample_rate: usize) -> Seq<
    char,
> {
    if target_sample_rate == 0 || original_sample_rate == 0 {
        "Sample rates must be positive"@
    } else {
        "Target sample rate must be less than or equal to original sample rate"@
    }
}

/// Input samples per output sample.
pub open spec fn ratio_of(original_sample_rate: usize, target_sample_rate: usize) -> int {
    original_sample_rate as int / target_sample_rate as int
}

/// Output samples for `input_len` input samples: one per block, the last
/// block counted also where it is short.
pub open spec fn output_len_of(input_len: int, ratio: int) -> int {
    (input_len + ratio - 1) / ratio
}

/// The layout of one decimation: `ratio` input samples make one output
/// sample, over `input_len` input samples.
#[derive(Debug, Clone, Copy, PartialEq, Eq, Structural)]
pub struct Decimation {
    pub ratio: usize,
    pub input_len: usize,
}

impl Decimation {
    /// The ratio is positive.
    pub open spec fn wf(&self) -> bool {
        self.ratio >= 1
    }

    /// First input sample of block `k`.
    pub open spec fn block_start(&self, k: int) -> int {
        k * self.ratio
    }

    /// First input sample after block `k`.
    pub open spec fn block_end(&self, k: int) -> int {
        if (k + 1) * self.ratio <= self.input_len {
            (k + 1) * self.ratio
        } else {
            self.input_len as int
        }
    }

    /// Lays out the decimation of `input_len` samples from one rate to a
    /// lower one. Fails exactly when the rates are not valid.
    pub fn plan(input_len: usize, original_sample_rate: usize, target_sample_rate: usize) -> (result:
        Result<Decimation, ShazamError>)
        ensures
            rates_are_valid(original_sample_rate, target_sample_rate) <==> result is Ok,
            result matches Ok(plan) ==> plan.wf() && plan.input_len == input_len && plan.ratio
                == ratio_of(original_sample_rate, target_sample_rate),
            result matches Err(e) ==> (e matches ShazamError::InvalidSampleRate(message)
                && message@ == rate_complaint(original_sample_rate, target_sample_rate)),
    {
        if target_sample_rate == 0 || original_sample_rate == 0 {
            return Err(ShazamError::InvalidSampleRate("Sample rates must be positive".to_string()));
        }
        if target_sample_rate > original_sample_rate {
            return Err(
                ShazamError::InvalidSampleRate(
                    "Target sample rate must be less than or equal to original sample rate".to_string(),
                ),
            );
        }
        let ratio: usize = original_sample_rate / target_sample_rate;
        assert(ratio >= 1) by (nonlinear_arith)
            requires
                ratio == original_sample_rate as int / target_sample_rate as int,
                0 < target_sample_rate <= original_sample_rate,
        ;
        Ok(Decimation { ratio, input_len })
    }

    /// The number of output samples.
    pub fn output_len(&self) -> (len: usize)
        requires
            self.wf(),
        ensures
            len == output_len_of(self.input_len as int, self.ratio as int),
            len <= self.input_len,
    {
        let whole: usize = self.input_len / self.ratio;
        let rest: usize = self.input_len % self.ratio;
        proof {
            let n = self.input_len as int;
            let r = self.ratio as int;
            assert(n == r * (n / r) + n % r && 0 <= n % r < r) by (nonlinear_arith)
                requires
                    r >= 1,
                    n >= 0,
            ;
            assert(n / r <= n) by (nonlinear_arith)
                requires
                    r >= 1,
                    n >= 0,
            ;
            if n % r == 0 {
                assert((n + r - 1) / r == n / r) by (nonlinear_arith)
                    requires
                        r >= 1,
                        n == r * (n / r),
                ;
            } else {
                assert((n + r - 1) / r == n / r + 1) by (nonlinear_arith)
                    requires
                        r >= 1,
                        n == r * (n / r) + n % r,
                        0 < n % r < r,
                ;
                assert(n / r < n) by (nonlinear_arith)
                    requires
                        r >= 1,
                        n == r * (n / r) + n % r,
                        0 < n % r < r,
                        n / r >= 0,
                ;
            }
        }
        if rest == 0 {
            whole
        } else {
            whole + 1
        }
    }

    /// The block of input samples that output sample `k` is the mean of:
    /// `ratio` samples from `k * ratio` on, or as many as are left.
    pub fn block(&self, k: usize) -> (bounds: (usize, usize))
        requires
            self.wf(),
            k < output_len_of(self.input_len as int, self.ratio as int),
        ensures
            bounds.0 == self.block_start(k as int),
            bounds.1 == self.block_end(k as int),
            bounds.0 < bounds.1 <= self.input_len,
            bounds.1 - bounds.0 <= self.ratio,
    {
        proof {
            let n = self.input_len as int;
            let r = self.ratio as int;
            let kk = k as int;
            assert(kk * r < n) by (nonlinear_arith)
                requires
                    r >= 1,
                    n >= 0,
                    0 <= kk < (n + r - 1) / r,
            ;
            assert((kk + 1) * r == kk * r + r) by (nonlinear_arith);
            assert(kk * r >= 0) by (nonlinear_arith)
                requires
                    kk >= 0,
                    r >= 1,
            ;
        }
        let start: usize = k * self.ratio;
        let end: usize = if self.input_len - start > self.ratio {
            start + self.ratio
        } else {
            self.input_len
        };
        (start, end)
    }
}

/// The blocks tile the input: the first starts at the first sample, each
/// starts where the one before it ends, and the last ends with the input.
pub proof fn lemma_blocks_tile(plan: Decimation, k: int)
    requires
        plan.wf(),
        0 <= k < output_len_of(plan.input_len as int, plan.ratio as int),
    ensures
        plan.block_start(0) == 0,
        k + 1 < output_len_of(plan.input_len as int, plan.ratio as int) ==> plan.block_end(k)
            == plan.block_start(k + 1),
        k + 1 == output_len_of(plan.input_len as int, plan.ratio as int) ==> plan.block_end(k)
            == plan.input_len,
{
    let n = plan.input_len as int;
    let r = plan.ratio as int;
    assert(0 * r == 0) by (nonlinear_arith);
    if k + 1 < (n + r - 1) / r {
        assert((k + 1) * r < n) by (nonlinear_arith)
            requires
                r >= 1,
                n >= 0,
                0 <= k + 1 < (n + r - 1) / r,
        ;
    } else {
        assert((k + 1) * r >= n) by (nonlinear_arith)
            requires
                r >= 1,
                n >= 0,
                k + 1 == (n + r - 1) / r,
        ;
    }
}

/// Halving the rate halves the length, rounded up.
pub proof fn lemma_halving(input_len: usize)
    ensures
        ratio_of(8, 4) == 2,
        output_len_of(input_len as int, 2) == (input_len + 1) / 2,
        output_len_of(input_len as int, 2) * 2 >= input_len,
        output_len_of(input_len as int, 2) * 2 <= input_len + 1,
{
}

} // verus!
