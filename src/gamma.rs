use vstd::prelude::*;
use crate::error::PipelineError;
use crate::frame::Frame;

verus! {

/// Channels that enter the mean intensity: at most the first three.
pub open spec fn sampled_channels(f: Frame) -> int {
    if f.channels >= 3 {
        3
    } else {
        f.channels as int
    }
}

/// Sum of the sampled channels of pixel `p`.
pub open spec fn pixel_sum(f: Frame, p: int) -> int {
    if f.channels >= 3 {
        f.sample(p, 0) + f.sample(p, 1) + f.sample(p, 2)
    } else if f.channels == 2 {
        f.sample(p, 0) + f.sample(p, 1)
    } else {
        f.sample(p, 0) as int
    }
}

/// Sum of the sampled channels over the first `p` pixels.
pub open spec fn sampled_sum(f: Frame, p: int) -> int
    decreases p,
{
    if p <= 0 {
        0
    } else {
        sampled_sum(f, p - 1) + pixel_sum(f, p - 1)
    }
}

/// The mean intensity of a frame as the fraction `total / samples`.
#[derive(Clone, Copy, Debug, PartialEq, Eq, Structural)]
pub struct MeanIntensity {
    pub total: u128,
    pub samples: u128,
}

proof fn lemma_sampled_sum_bounded(f: Frame, p: int)
    requires
        f.wf(),
        0 <= p <= f.pixel_count(),
    ensures
        0 <= sampled_sum(f, p) <= 765 * p,
    decreases p,
{
    if p > 0 {
        lemma_sampled_sum_bounded(f, p - 1);
    }
}

/// Sums the first (up to three) channels of every pixel of a non-empty
/// frame; their mean is the base of the gamma estimate.
pub fn mean_intensity(frame: &Frame) -> (r: Result<MeanIntensity, PipelineError>)
    requires
        frame.wf(),
    ensures
        r is Err <==> frame.data@.len() == 0,
        r is Err ==> r->Err_0 == PipelineError::InvalidInput,
        r is Ok ==> r->Ok_0.total == sampled_sum(*frame, frame.pixel_count())
            && r->Ok_0.samples == frame.pixel_count() * sampled_channels(*frame),
        r is Ok ==> r->Ok_0.samples > 0,
{
    let len = frame.data.len();
    if len == 0 {
        return Err(PipelineError::InvalidInput);
    }
    let c = frame.channels;
    let ghost pixels = frame.pixel_count();
    proof {
        assert(pixels >= 0) by (nonlinear_arith)
            requires
                pixels == frame.width as int * frame.height as int,
        ;
    }
    let n = len / c;
    proof {
        assert(n == pixels) by (nonlinear_arith)
            requires
                n == (pixels * c) / c as int,
                c >= 1,
        ;
        assert(pixels > 0) by (nonlinear_arith)
            requires
                len == pixels * c,
                len > 0,
                pixels >= 0,
                c >= 1,
        ;
    }
    let mut total: u128 = 0;
    let mut p: usize = 0;
    while p < n
        invariant
            p <= n,
            n == pixels,
            pixels == frame.pixel_count(),
            frame.wf(),
            len == frame.data@.len(),
            len == pixels * c,
            c == frame.channels,
            total == sampled_sum(*frame, p as int),
        decreases n - p,
    {
        proof {
            assert(p * c + c <= pixels * c) by (nonlinear_arith)
                requires
                    p < pixels,
                    c >= 1,
            ;
            lemma_sampled_sum_bounded(*frame, p as int);
        }
        let base = p * c;
        let s: u128 = if c >= 3 {
            frame.data[base] as u128 + frame.data[base + 1] as u128 + frame.data[base + 2] as u128
        } else if c == 2 {
            frame.data[base] as u128 + frame.data[base + 1] as u128
        } else {
            frame.data[base] as u128
        };
        total = total + s;
        p += 1;
    }
    let k: u128 = if c >= 3 {
        3
    } else {
        c as u128
    };
    proof {
        assert(n as int * k as int <= 0xffff_ffff_ffff_ffff * 3) by (nonlinear_arith)
            requires
                n as int <= 0xffff_ffff_ffff_ffff,
                0 <= k as int <= 3,
        ;
        assert(n as int * k as int > 0) by (nonlinear_arith)
            requires
                n as int > 0,
                k as int >= 1,
        ;
    }
    Ok(MeanIntensity { total, samples: n as u128 * k })
}

} // verus!
