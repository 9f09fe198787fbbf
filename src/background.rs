use vstd::prelude::*;
use crate::error::PipelineError;
use crate::frame::{Frame, MAX_CHANNELS};

verus! {

/// Fixed-point scale of the running means: one intensity step.
pub const FIXED_ONE: u32 = 256;

/// Largest running mean, intensity 255 in fixed point.
pub const MAX_MEAN: u32 = 65280;

/// Frames over which the model warms up when none is given.
pub const DEFAULT_HISTORY: u32 = 100;

/// Deviation, in intensity steps, beyond which a sample is foreground when
/// none is given.
pub const DEFAULT_THRESHOLD: u8 = 30;

/// Mask value of a foreground pixel; background pixels are 0.
pub const FOREGROUND: u8 = 255;

/// Weight `num / den` of the newest frame in the running means.
#[derive(Clone, Copy, Debug, PartialEq, Eq, Structural)]
pub struct LearningRate {
    pub num: u32,
    pub den: u32,
}

impl LearningRate {
    /// The rate lies in (0, 1].
    pub open spec fn wf(&self) -> bool {
        0 < self.num <= self.den
    }

    /// The rate `num / den`, where it lies in (0, 1].
    pub fn new(num: u32, den: u32) -> (r: Option<LearningRate>)
        ensures
            r is Some <==> 0 < num <= den,
            r is Some ==> r->Some_0 == (LearningRate { num, den }),
    {
        if 0 < num && num <= den {
            Some(LearningRate { num, den })
        } else {
            None
        }
    }

    /// One half, the rate used when none is given.
    pub fn half() -> (r: LearningRate)
        ensures
            r == (LearningRate { num: 1, den: 2 }),
            r.wf(),
    {
        LearningRate { num: 1, den: 2 }
    }
}

/// What the background model holds, seen as mathematical values.
pub struct ModelView {
    /// Frames over which the model warms up (at least 1).
    pub history: int,
    /// Deviation threshold in intensity steps.
    pub threshold: int,
    /// Frames taken in so far, counted up to `history`; 0 before the first.
    pub warm_frames: int,
    pub width: int,
    pub height: int,
    pub channels: int,
    /// Running mean of each sample, in fixed point.
    pub means: Seq<u32>,
}

impl ModelView {
    pub open spec fn wf(&self) -> bool {
        &&& 1 <= self.history <= u32::MAX
        &&& 0 <= self.threshold <= 255
        &&& 0 <= self.warm_frames <= self.history
        &&& self.warm_frames > 0 ==> {
            &&& 1 <= self.channels <= MAX_CHANNELS
            &&& self.means.len() == self.width * self.height * self.channels
            &&& forall|i: int| 0 <= i < self.means.len() ==> self.means[i] <= MAX_MEAN
        }
    }

    /// The frame has the shape of those seen before, or none was seen yet.
    pub open spec fn fits(&self, f: Frame) -> bool {
        self.warm_frames == 0 || (f.width == self.width && f.height == self.height && f.channels
            == self.channels)
    }

    /// Number of frames the running means average over at the next frame.
    pub open spec fn span(&self) -> int {
        if self.warm_frames + 1 < self.history {
            self.warm_frames + 1
        } else {
            self.history
        }
    }

    /// Weight of the next frame: the given rate, or `1 / span` while that is
    /// larger, so that the means start as plain averages of the first frames.
    pub open spec fn weight(&self, rate: LearningRate) -> (int, int) {
        if rate.num as int * self.span() >= rate.den as int {
            (rate.num as int, rate.den as int)
        } else {
            (1, self.span())
        }
    }
}

/// A running mean moved toward sample `x` by the weight `num / den`, rounded
/// to nearest.
pub open spec fn blend(mean: int, x: int, num: int, den: int) -> int {
    (mean * (den - num) + x * FIXED_ONE * num + den / 2) / den
}

/// Sample `x` lies farther than `threshold` steps from the running mean.
pub open spec fn deviates(mean: int, x: int, threshold: int) -> bool {
    let d = x * FIXED_ONE - mean;
    (if d >= 0 {
        d
    } else {
        -d
    }) > threshold * FIXED_ONE
}

/// Sample `j` of pixel `p` deviates from its running mean.
pub open spec fn sample_deviates(
    means: Seq<u32>,
    data: Seq<u8>,
    p: int,
    c: int,
    j: int,
    threshold: int,
) -> bool {
    deviates(means[p * c + j] as int, data[p * c + j] as int, threshold)
}

/// One of the first `k` samples of pixel `p` deviates from its running mean.
pub open spec fn deviates_upto(
    means: Seq<u32>,
    data: Seq<u8>,
    p: int,
    c: int,
    threshold: int,
    k: int,
) -> bool {
    exists|j: int| 0 <= j < k && #[trigger] sample_deviates(means, data, p, c, j, threshold)
}

/// The mask that the model gives for frame `f`: nothing before the first
/// frame, and elsewhere `FOREGROUND` at each pixel with a deviating sample.
pub open spec fn mask_of(v: ModelView, f: Frame) -> Seq<u8> {
    Seq::new(
        f.pixel_count() as nat,
        |p: int|
            if v.warm_frames > 0 && deviates_upto(
                v.means,
                f.data@,
                p,
                f.channels as int,
                v.threshold,
                f.channels as int,
            ) {
                FOREGROUND
            } else {
                0u8
            },
    )
}

/// The model after taking in frame `f`: the first frame sets the means, each
/// later one blends into them.
pub open spec fn updated(v: ModelView, f: Frame, rate: LearningRate) -> ModelView {
    if v.warm_frames == 0 {
        ModelView {
            warm_frames: 1,
            width: f.width as int,
            height: f.height as int,
            channels: f.channels as int,
            means: Seq::new(f.data@.len(), |i: int| (f.data@[i] * FIXED_ONE) as u32),
            ..v
        }
    } else {
        let (num, den) = v.weight(rate);
        ModelView {
            warm_frames: v.span(),
            means: Seq::new(
                v.means.len(),
                |i: int| blend(v.means[i] as int, f.data@[i] as int, num, den) as u32,
            ),
            ..v
        }
    }
}

/// A per-pixel running estimate of the background, which classifies the
/// samples of each new frame against it and then adapts to that frame.
pub struct BackgroundModel {
    history: u32,
    threshold: u8,
    warm_frames: u32,
    width: usize,
    height: usize,
    channels: usize,
    means: Vec<u32>,
}

impl View for BackgroundModel {
    type V = ModelView;

    closed spec fn view(&self) -> ModelView {
        ModelView {
            history: self.history as int,
            threshold: self.threshold as int,
            warm_frames: self.warm_frames as int,
            width: self.width as int,
            height: self.height as int,
            channels: self.channels as int,
            means: self.means@,
        }
    }
}

impl BackgroundModel {
    pub open spec fn wf(&self) -> bool {
        self@.wf()
    }

    /// A model that has seen no frame, warming up over `history` frames (at
    /// least one) and calling foreground any sample more than `threshold`
    /// steps from its running mean.
    pub fn new(history: u32, threshold: u8) -> (r: BackgroundModel)
        ensures
            r.wf(),
            r@.history == if history == 0 {
                1
            } else {
                history as int
            },
            r@.threshold == threshold,
            r@.warm_frames == 0,
    {
        let h = if history == 0 {
            1
        } else {
            history
        };
        BackgroundModel {
            history: h,
            threshold,
            warm_frames: 0,
            width: 0,
            height: 0,
            channels: 0,
            means: Vec::new(),
        }
    }

    /// Whether the frame has the shape of those seen before, or none was seen
    /// yet.
    pub fn fits(&self, frame: &Frame) -> (r: bool)
        ensures
            r == self@.fits(*frame),
    {
        self.warm_frames == 0 || (self.width == frame.width && self.height == frame.height
            && self.channels == frame.channels)
    }

    /// Classifies the pixels of the next frame and takes the frame into the
    /// running means. The mask has the frame's width and height and one
    /// channel. An empty frame, or one whose shape differs from the frames
    /// seen before, is refused and leaves the model as it was.
    pub fn apply(&mut self, frame: &Frame, rate: LearningRate) -> (r: Result<Frame, PipelineError>)
        requires
            old(self).wf(),
            frame.wf(),
            rate.wf(),
        ensures
            final(self).wf(),
            frame.data@.len() == 0 ==> r == Err::<Frame, PipelineError>(
                PipelineError::InvalidInput,
            ),
            frame.data@.len() > 0 && !old(self)@.fits(*frame) ==> r == Err::<Frame, PipelineError>(
                PipelineError::DimensionMismatch,
            ),
            r is Err ==> *final(self) == *old(self),
            r is Ok <==> frame.data@.len() > 0 && old(self)@.fits(*frame),
            r is Ok ==> {
                &&& r->Ok_0.wf()
                &&& r->Ok_0.width == frame.width
                &&& r->Ok_0.height == frame.height
                &&& r->Ok_0.channels == 1
                &&& r->Ok_0.data@ == mask_of(old(self)@, *frame)
                &&& final(self)@ == updated(old(self)@, *frame, rate)
            },
    {
        let len = frame.data.len();
        if len == 0 {
            return Err(PipelineError::InvalidInput);
        }
        if self.warm_frames > 0 && !(self.width == frame.width && self.height == frame.height
            && self.channels == frame.channels) {
            return Err(PipelineError::DimensionMismatch);
        }
        let c = frame.channels;
        let ghost pixels = frame.pixel_count();
        proof {
            assert(pixels >= 0) by (nonlinear_arith)
                requires
                    pixels == frame.width as int * frame.height as int,
            ;
        }
        let n = len / c;
        proof {
            assert(n == pixels) by (nonlinear_arith)
                requires
                    n == (pixels * c) / c as int,
                    c >= 1,
            ;
        }
        if self.warm_frames == 0 {
            let mut means: Vec<u32> = Vec::with_capacity(len);
            let mut i: usize = 0;
            while i < len
                invariant
                    i <= len,
                    len == frame.data@.len(),
                    means@ =~= Seq::new(
                        len as nat,
                        |j: int| (frame.data@[j] * FIXED_ONE) as u32,
                    ).take(i as int),
                decreases len - i,
            {
                means.push(frame.data[i] as u32 * FIXED_ONE);
                i += 1;
            }
            proof {
                assert(means@ =~= Seq::new(len as nat, |j: int| (frame.data@[j] * FIXED_ONE) as u32));
            }
            let mask = vec![0u8; n];
            self.width = frame.width;
            self.height = frame.height;
            self.channels = c;
            self.means = means;
            self.warm_frames = 1;
            let out = Frame { width: frame.width, height: frame.height, channels: 1, data: mask };
            proof {
                assert(out.data@ =~= mask_of(old(self)@, *frame));
                assert(self@ =~= updated(old(self)@, *frame, rate));
            }
            return Ok(out);
        }
        let ghost v = self@;
        let m: u64 = if (self.warm_frames as u64) + 1 < self.history as u64 {
            self.warm_frames as u64 + 1
        } else {
            self.history as u64
        };
        proof {
            assert(rate.num as int * m as int <= 0xffff_ffff * 0xffff_ffff) by (nonlinear_arith)
                requires
                    0 <= rate.num as int <= 0xffff_ffff,
                    0 <= m as int <= 0xffff_ffff,
            ;
        }
        let (num, den): (u64, u64) = if rate.num as u64 * m >= rate.den as u64 {
            (rate.num as u64, rate.den as u64)
        } else {
            (1, m)
        };
        proof {
            assert(v.weight(rate) == (num as int, den as int));
        }
        let thr: u32 = self.threshold as u32 * FIXED_ONE;
        let ghost new_means = updated(v, *frame, rate).means;
        let ghost want_mask = mask_of(v, *frame);
        let mut means: Vec<u32> = Vec::with_capacity(len);
        let mut mask: Vec<u8> = Vec::with_capacity(n);
        let mut p: usize = 0;
        while p < n
            invariant
                p <= n,
                n == pixels,
                pixels == frame.pixel_count(),
                len == frame.data@.len(),
                len == pixels * c,
                len <= usize::MAX,
                c == frame.channels,
                1 <= c <= MAX_CHANNELS,
                v == self@,
                v.wf(),
                v.warm_frames > 0,
                v.fits(*frame),
                v.means.len() == len,
                0 < num <= den,
                den <= u32::MAX,
                thr == v.threshold * FIXED_ONE,
                v.weight(rate) == (num as int, den as int),
                new_means == updated(v, *frame, rate).means,
                want_mask == mask_of(v, *frame),
                means@ == new_means.take(p * c),
                forall|i: int| 0 <= i < means@.len() ==> means@[i] <= MAX_MEAN,
                mask@ == want_mask.take(p as int),
            decreases n - p,
        {
            proof {
                assert(p * c + c <= pixels * c) by (nonlinear_arith)
                    requires
                        p < pixels,
                        c >= 1,
                ;
            }
            let mut fg = false;
            let mut k: usize = 0;
            while k < c
                invariant
                    k <= c,
                    p < n,
                    n == pixels,
                    pixels == frame.pixel_count(),
                pixels == frame.pixel_count(),
                    len == frame.data@.len(),
                    p * c + c <= len,
                    len <= usize::MAX,
                    c == frame.channels,
                    v == self@,
                    v.wf(),
                    v.warm_frames > 0,
                    v.means.len() == len,
                    0 < num <= den,
                    den <= u32::MAX,
                    thr == v.threshold * FIXED_ONE,
                    v.weight(rate) == (num as int, den as int),
                    new_means == updated(v, *frame, rate).means,
                    means@ == new_means.take(p * c + k),
                    want_mask == mask_of(v, *frame),
                    mask@ == want_mask.take(p as int),
                    forall|i: int| 0 <= i < means@.len() ==> means@[i] <= MAX_MEAN,
                    fg == deviates_upto(v.means, frame.data@, p as int, c as int, v.threshold, k as int),
                decreases c - k,
            {
                let idx = p * c + k;
                let x: u32 = frame.data[idx] as u32 * FIXED_ONE;
                let mean: u32 = self.means[idx];
                let dev: u32 = if x >= mean {
                    x - mean
                } else {
                    mean - x
                };
                let ghost before = fg;
                if dev > thr {
                    fg = true;
                }
                proof {
                    if fg && !before {
                        assert(sample_deviates(v.means, frame.data@, p as int, c as int, k as int, v.threshold));
                    }
                    assert(fg == deviates_upto(v.means, frame.data@, p as int, c as int, v.threshold, k + 1));
                }
                proof {
                    let mm = mean as int;
                    let xx = x as int;
                    let a = num as int;
                    let b = den as int;
                    assert(mm * (b - a) + xx * a <= MAX_MEAN * b) by (nonlinear_arith)
                        requires
                            0 <= mm <= MAX_MEAN,
                            0 <= xx <= MAX_MEAN,
                            0 < a <= b,
                    ;
                    assert(mm * (b - a) <= MAX_MEAN * 0xffff_ffff) by (nonlinear_arith)
                        requires
                            0 <= mm <= MAX_MEAN,
                            0 < a <= b,
                            b <= 0xffff_ffff,
                    ;
                    assert(xx * a <= MAX_MEAN * 0xffff_ffff) by (nonlinear_arith)
                        requires
                            0 <= xx <= MAX_MEAN,
                            0 < a <= b,
                            b <= 0xffff_ffff,
                    ;
                    assert((mm * (b - a) + xx * a + b / 2) / b <= MAX_MEAN) by (nonlinear_arith)
                        requires
                            mm * (b - a) + xx * a <= MAX_MEAN * b,
                            0 < b,
                            mm * (b - a) + xx * a >= 0,
                    ;
                }
                let blended: u64 = (mean as u64 * (den - num) + x as u64 * num + den / 2) / den;
                means.push(blended as u32);
                proof {
                    assert(means@ =~= new_means.take(p * c + k + 1));
                }
                k += 1;
            }
            proof {
                assert(want_mask[p as int] == if fg {
                    FOREGROUND
                } else {
                    0u8
                });
            }
            mask.push(
                if fg {
                    FOREGROUND
                } else {
                    0u8
                },
            );
            p += 1;
            proof {
                assert(p * c == (p - 1) * c + c) by (nonlinear_arith);
                assert(mask@ =~= want_mask.take(p as int));
            }
        }
        proof {
            assert(n * c == len);
            assert(means@ =~= new_means);
            assert(mask@ =~= want_mask);
        }
        self.means = means;
        self.warm_frames = m as u32;
        let out = Frame { width: frame.width, height: frame.height, channels: 1, data: mask };
        proof {
            assert(self@ =~= updated(v, *frame, rate));
        }
        Ok(out)
    }
}

/// The running means hold exactly the samples of `f`.
pub open spec fn settled_on(v: ModelView, f: Frame) -> bool {
    &&& v.warm_frames > 0
    &&& v.fits(f)
    &&& v.means.len() == f.data@.len()
    &&& forall|i: int| 0 <= i < f.data@.len() ==> v.means[i] == f.data@[i] * FIXED_ONE
}

/// The model after taking in frame `f` `n` times over.
pub open spec fn repeated(v: ModelView, f: Frame, rate: LearningRate, n: nat) -> ModelView
    decreases n,
{
    if n == 0 {
        v
    } else {
        updated(repeated(v, f, rate, (n - 1) as nat), f, rate)
    }
}

proof fn lemma_blend_keeps(x: int, num: int, den: int)
    requires
        0 < num <= den,
        x >= 0,
    ensures
        blend(x * FIXED_ONE, x, num, den) == x * FIXED_ONE,
{
    let a = x * FIXED_ONE;
    assert(a * (den - num) + a * num == a * den) by (nonlinear_arith);
    assert((a * den + den / 2) / den == a) by (nonlinear_arith)
        requires
            den > 0,
            a >= 0,
    ;
}

proof fn lemma_weight_positive(v: ModelView, rate: LearningRate)
    requires
        v.wf(),
        rate.wf(),
    ensures
        0 < v.weight(rate).0 <= v.weight(rate).1,
{
}

proof fn lemma_settled_quiet(v: ModelView, f: Frame, rate: LearningRate)
    requires
        v.wf(),
        f.wf(),
        rate.wf(),
        settled_on(v, f),
    ensures
        forall|p: int| 0 <= p < f.pixel_count() ==> mask_of(v, f)[p] == 0,
        settled_on(updated(v, f, rate), f),
        updated(v, f, rate).wf(),
{
    let c = f.channels as int;
    assert forall|p: int| 0 <= p < f.pixel_count() implies mask_of(v, f)[p] == 0 by {
        assert forall|j: int| 0 <= j < c implies !sample_deviates(
            v.means,
            f.data@,
            p,
            c,
            j,
            v.threshold,
        ) by {
            assert(p * c + j < f.pixel_count() * c) by (nonlinear_arith)
                requires
                    0 <= p < f.pixel_count(),
                    0 <= j < c,
            ;
            assert(p * c + j >= 0) by (nonlinear_arith)
                requires
                    0 <= p,
                    0 <= j,
                    c >= 1,
            ;
        }
    }
    lemma_weight_positive(v, rate);
    let (num, den) = v.weight(rate);
    let u = updated(v, f, rate);
    assert forall|i: int| 0 <= i < f.data@.len() implies u.means[i] == f.data@[i] * FIXED_ONE by {
        lemma_blend_keeps(f.data@[i] as int, num, den);
    }
}

/// A static scene raises no foreground: from a model that has seen no frame,
/// taking in one frame any number of times over leaves the model settled on
/// that frame, and the mask of every one of those frames is empty.
pub proof fn lemma_static_scene(v: ModelView, f: Frame, rate: LearningRate, n: nat)
    requires
        v.wf(),
        v.warm_frames == 0,
        f.wf(),
        rate.wf(),
    ensures
        repeated(v, f, rate, n).wf(),
        n > 0 ==> settled_on(repeated(v, f, rate, n), f),
        forall|p: int|
            0 <= p < f.pixel_count() ==> mask_of(repeated(v, f, rate, n), f)[p] == 0,
    decreases n,
{
    if n == 0 {
        assert forall|p: int| 0 <= p < f.pixel_count() implies mask_of(
            repeated(v, f, rate, n),
            f,
        )[p] == 0 by {}
    } else {
        lemma_static_scene(v, f, rate, (n - 1) as nat);
        let w = repeated(v, f, rate, (n - 1) as nat);
        if n == 1 {
            let u = updated(w, f, rate);
            assert(f.data@.len() == f.width * f.height * f.channels);
            assert forall|i: int| 0 <= i < u.means.len() implies u.means[i] <= MAX_MEAN by {}
            assert(u.wf());
            assert(settled_on(u, f));
        } else {
            lemma_settled_quiet(w, f, rate);
        }
        lemma_settled_quiet(repeated(v, f, rate, n), f, rate);
    }
}

} // verus!
