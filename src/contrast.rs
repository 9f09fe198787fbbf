use vstd::prelude::*;
use crate::error::PipelineError;
use crate::frame::Frame;
use crate::histogram::{build_histogram, count_le, Histogram, BUCKETS};
use crate::luminance::{gray_level, to_gray};
use crate::lut::{apply_table, mapped};

verus! {

/// Share of the pixel mass clipped over both tails when none is given, in
/// hundredths of a percent (one percent).
pub const DEFAULT_CLIP_BASIS_POINTS: u32 = 100;

/// Basis points in a whole, doubled: the clip share is halved over two tails.
pub const CLIP_SCALE: u128 = 20000;

/// A cumulative count `c` out of `total` has reached the lower clip threshold
/// `basis_points * total / 20000`.
pub open spec fn reaches_low(c: int, total: int, basis_points: int) -> bool {
    20000 * c >= basis_points * total
}

/// A cumulative count `c` out of `total` stays at or below
/// `total - basis_points * total / 20000`.
pub open spec fn within_high(c: int, total: int, basis_points: int) -> bool {
    20000 * c + basis_points * total <= 20000 * total
}

/// First bucket from `i` upward whose cumulative count reaches the lower
/// threshold; 255 where none does.
pub open spec fn lower_from(cum: Seq<u64>, basis_points: int, i: int) -> int
    decreases 255 - i,
{
    if i >= 255 || reaches_low(cum[i] as int, cum[255] as int, basis_points) {
        i
    } else {
        lower_from(cum, basis_points, i + 1)
    }
}

/// Last bucket from `i` downward whose cumulative count stays within the upper
/// threshold; 0 where none does.
pub open spec fn upper_from(cum: Seq<u64>, basis_points: int, i: int) -> int
    decreases i,
{
    if i <= 0 || within_high(cum[i] as int, cum[255] as int, basis_points) {
        i
    } else {
        upper_from(cum, basis_points, i - 1)
    }
}

/// The cumulative counts of the samples `s`, bucket by bucket.
pub open spec fn cumulative_of(s: Seq<u8>) -> Seq<u64> {
    Seq::new(256, |v: int| count_le(s, v) as u64)
}

/// The gray levels of a frame, pixel by pixel.
pub open spec fn gray_of(f: Frame) -> Seq<u8> {
    Seq::new(f.pixel_count() as nat, |p: int| gray_level(f, p) as u8)
}

/// Intensities kept by histogram clipping.
#[derive(Clone, Copy, Debug, PartialEq, Eq, Structural)]
pub struct ClipBounds {
    pub minimum_gray: u8,
    pub maximum_gray: u8,
}

/// A linear map `alpha * x + beta` clamped to the intensity range.
#[derive(Clone, Copy, Debug, PartialEq, Eq, Structural)]
pub enum LinearStretch {
    /// `alpha = 1`, `beta = 0`.
    Identity,
    /// `alpha = 255 / (high - low)`, `beta = -low * alpha`, with `low < high`.
    Range { low: u8, high: u8 },
}

/// The stretch of intensity `x`: clamped to 0 at or below `low`, to 255 at or
/// above `high`, and `255 * (x - low) / (high - low)` rounded half up between.
pub open spec fn stretched(x: int, s: LinearStretch) -> int {
    match s {
        LinearStretch::Identity => x,
        LinearStretch::Range { low, high } => {
            let d = high - low;
            if x <= low {
                0
            } else if x >= high {
                255
            } else {
                (510 * (x - low) + d) / (2 * d)
            }
        },
    }
}

/// The lookup table of a stretch.
pub open spec fn stretch_table(s: LinearStretch) -> Seq<u8> {
    Seq::new(256, |i: int| stretched(i, s) as u8)
}

/// The stretch that clip bounds call for: none where they leave no range.
pub open spec fn stretch_for(minimum_gray: int, maximum_gray: int) -> LinearStretch {
    if maximum_gray <= minimum_gray {
        LinearStretch::Identity
    } else {
        LinearStretch::Range { low: minimum_gray as u8, high: maximum_gray as u8 }
    }
}

/// The stretch estimated from the gray histogram of a frame.
pub open spec fn stretch_of(f: Frame, basis_points: int) -> LinearStretch {
    let cum = cumulative_of(gray_of(f));
    stretch_for(lower_from(cum, basis_points, 0), upper_from(cum, basis_points, 255))
}

/// The samples of a frame after contrast normalisation.
pub open spec fn normalized(f: Frame, basis_points: int) -> Seq<u8> {
    mapped(f.data@, stretch_table(stretch_of(f, basis_points)))
}

/// The stretch leaves every intensity where it is (`alpha = 1`, `beta = 0`).
pub open spec fn is_unit(s: LinearStretch) -> bool {
    s == LinearStretch::Identity || s == (LinearStretch::Range { low: 0, high: 255 })
}

/// Scans the cumulative counts for the first bucket that reaches the lower
/// threshold and the last one that stays within the upper threshold.
pub fn clip_bounds(hist: &Histogram, clip_basis_points: u32) -> (r: ClipBounds)
    requires
        hist.cumulative@.len() == BUCKETS,
    ensures
        r.minimum_gray == lower_from(hist.cumulative@, clip_basis_points as int, 0),
        r.maximum_gray == upper_from(hist.cumulative@, clip_basis_points as int, 255),
        forall|j: int|
            0 <= j < r.minimum_gray ==> !reaches_low(
                #[trigger] hist.cumulative@[j] as int,
                hist.cumulative@[255] as int,
                clip_basis_points as int,
            ),
        r.minimum_gray == 255 || reaches_low(
            hist.cumulative@[r.minimum_gray as int] as int,
            hist.cumulative@[255] as int,
            clip_basis_points as int,
        ),
        forall|j: int|
            r.maximum_gray < j < 256 ==> !within_high(
                #[trigger] hist.cumulative@[j] as int,
                hist.cumulative@[255] as int,
                clip_basis_points as int,
            ),
        r.maximum_gray == 0 || within_high(
            hist.cumulative@[r.maximum_gray as int] as int,
            hist.cumulative@[255] as int,
            clip_basis_points as int,
        ),
{
    let ghost cum = hist.cumulative@;
    let ghost bp = clip_basis_points as int;
    let total = hist.total() as u128;
    proof {
        assert(clip_basis_points as int * total as int <= 0xffff_ffff * 0xffff_ffff_ffff_ffff)
            by (nonlinear_arith)
            requires
                clip_basis_points as int <= 0xffff_ffff,
                total as int <= 0xffff_ffff_ffff_ffff,
                clip_basis_points as int >= 0,
                total as int >= 0,
        ;
    }
    let clip = clip_basis_points as u128 * total;
    let mut low: usize = 0;
    while low < 255 && !(CLIP_SCALE * (hist.cumulative[low] as u128) >= clip)
        invariant
            low <= 255,
            cum == hist.cumulative@,
            cum.len() == 256,
            total == cum[255],
            clip == bp * total,
            lower_from(cum, bp, low as int) == lower_from(cum, bp, 0),
            forall|j: int| 0 <= j < low ==> !reaches_low(#[trigger] cum[j] as int, cum[255] as int, bp),
        decreases 255 - low,
    {
        low += 1;
    }
    let mut high: usize = 255;
    while high > 0 && !(CLIP_SCALE * (hist.cumulative[high] as u128) + clip <= CLIP_SCALE * total)
        invariant
            high <= 255,
            cum == hist.cumulative@,
            cum.len() == 256,
            total == cum[255],
            clip == bp * total,
            clip <= 0xffff_ffff * 0xffff_ffff_ffff_ffff,
            upper_from(cum, bp, high as int) == upper_from(cum, bp, 255),
            forall|j: int| high < j < 256 ==> !within_high(#[trigger] cum[j] as int, cum[255] as int, bp),
        decreases high,
    {
        high -= 1;
    }
    ClipBounds { minimum_gray: low as u8, maximum_gray: high as u8 }
}

impl LinearStretch {
    /// The stretch that clip bounds call for; none where the upper bound does
    /// not lie above the lower one.
    pub fn from_bounds(b: ClipBounds) -> (r: LinearStretch)
        ensures
            r == stretch_for(b.minimum_gray as int, b.maximum_gray as int),
    {
        if b.maximum_gray <= b.minimum_gray {
            LinearStretch::Identity
        } else {
            LinearStretch::Range { low: b.minimum_gray, high: b.maximum_gray }
        }
    }

    /// The stretched value of one intensity.
    pub fn apply(&self, x: u8) -> (r: u8)
        requires
            *self is Range ==> self->low < self->high,
        ensures
            r as int == stretched(x as int, *self),
    {
        match *self {
            LinearStretch::Identity => x,
            LinearStretch::Range { low, high } => {
                if x <= low {
                    0
                } else if x >= high {
                    255
                } else {
                    let d = (high - low) as u32;
                    let num = 510 * ((x - low) as u32) + d;
                    let q = num / (2 * d);
                    proof {
                        let dd = d as int;
                        let nn = num as int;
                        assert(nn < 512 * dd);
                        assert(nn / (2 * dd) < 256) by (nonlinear_arith)
                            requires
                                nn < 512 * dd,
                                dd >= 1,
                                nn >= 0,
                        ;
                    }
                    q as u8
                }
            },
        }
    }

    /// The lookup table of the stretch, one entry per intensity.
    pub fn table(&self) -> (r: Vec<u8>)
        requires
            *self is Range ==> self->low < self->high,
        ensures
            r@ == stretch_table(*self),
    {
        let mut t: Vec<u8> = Vec::with_capacity(BUCKETS);
        let mut i: usize = 0;
        while i < BUCKETS
            invariant
                i <= BUCKETS,
                *self is Range ==> self->low < self->high,
                t@ == stretch_table(*self).take(i as int),
            decreases BUCKETS - i,
        {
            let v = self.apply(i as u8);
            t.push(v);
            i += 1;
            assert(t@ =~= stretch_table(*self).take(i as int));
        }
        assert(t@ =~= stretch_table(*self));
        t
    }
}

/// Derives the linear stretch of a frame from the clipped histogram of its
/// gray levels.
pub fn estimate_stretch(frame: &Frame, clip_basis_points: u32) -> (r: Result<
    LinearStretch,
    PipelineError,
>)
    requires
        frame.wf(),
    ensures
        r is Err <==> frame.data@.len() == 0,
        r is Err ==> r->Err_0 == PipelineError::InvalidInput,
        r is Ok ==> r->Ok_0 == stretch_of(*frame, clip_basis_points as int),
        r is Ok && r->Ok_0 is Range ==> r->Ok_0->low < r->Ok_0->high,
{
    if frame.data.len() == 0 {
        return Err(PipelineError::InvalidInput);
    }
    let gray = to_gray(frame);
    proof {
        assert(gray.data@ =~= gray_of(*frame));
        assert(frame.pixel_count() > 0) by (nonlinear_arith)
            requires
                frame.data@.len() == frame.pixel_count() * frame.channels,
                frame.data@.len() > 0,
                frame.channels >= 1,
        ;
    }
    match build_histogram(&gray) {
        Err(e) => Err(e),
        Ok(hist) => {
            proof {
                assert(hist.cumulative@ =~= cumulative_of(gray_of(*frame)));
            }
            let bounds = clip_bounds(&hist, clip_basis_points);
            Ok(LinearStretch::from_bounds(bounds))
        },
    }
}

/// Stretches brightness and contrast of every channel of a frame by the
/// parameters estimated from its gray histogram, `clip_basis_points` (one
/// percent when absent) of the pixel mass being clipped over both tails.
pub fn auto_brightness_and_contrast(frame: &Frame, clip_basis_points: Option<u32>) -> (r: Result<
    Frame,
    PipelineError,
>)
    requires
        frame.wf(),
    ensures
        r is Err <==> frame.data@.len() == 0,
        r is Err ==> r->Err_0 == PipelineError::InvalidInput,
        r is Ok ==> r->Ok_0.wf() && r->Ok_0.width == frame.width && r->Ok_0.height
            == frame.height && r->Ok_0.channels == frame.channels,
        r is Ok ==> r->Ok_0.data@ == normalized(
            *frame,
            match clip_basis_points {
                Some(b) => b as int,
                None => DEFAULT_CLIP_BASIS_POINTS as int,
            },
        ),
{
    let bp = match clip_basis_points {
        Some(b) => b,
        None => DEFAULT_CLIP_BASIS_POINTS,
    };
    match estimate_stretch(frame, bp) {
        Err(e) => Err(e),
        Ok(stretch) => {
            let table = stretch.table();
            Ok(apply_table(frame, &table))
        },
    }
}

proof fn lemma_count_le_flat(s: Seq<u8>, v: u8, i: int)
    requires
        forall|k: int| 0 <= k < s.len() ==> s[k] == v,
    ensures
        count_le(s, i) == if i >= v {
            s.len()
        } else {
            0
        },
    decreases s.len(),
{
    if s.len() > 0 {
        lemma_count_le_flat(s.drop_last(), v, i);
    }
}

proof fn lemma_lower_skip(cum: Seq<u64>, bp: int, i: int, k: int)
    requires
        0 <= i <= k <= 255,
        forall|j: int| i <= j < k ==> !reaches_low(cum[j] as int, cum[255] as int, bp),
    ensures
        lower_from(cum, bp, i) == lower_from(cum, bp, k),
    decreases k - i,
{
    if i < k {
        lemma_lower_skip(cum, bp, i + 1, k);
    }
}

proof fn lemma_lower_at_least(cum: Seq<u64>, bp: int, i: int)
    requires
        0 <= i <= 255,
    ensures
        i <= lower_from(cum, bp, i) <= 255,
    decreases 255 - i,
{
    if i < 255 && !reaches_low(cum[i] as int, cum[255] as int, bp) {
        lemma_lower_at_least(cum, bp, i + 1);
    }
}

proof fn lemma_upper_skip(cum: Seq<u64>, bp: int, k: int, i: int)
    requires
        0 <= k <= i <= 255,
        forall|j: int| k < j <= i ==> !within_high(cum[j] as int, cum[255] as int, bp),
    ensures
        upper_from(cum, bp, i) == upper_from(cum, bp, k),
    decreases i - k,
{
    if k < i {
        lemma_upper_skip(cum, bp, k, i - 1);
    }
}

proof fn lemma_upper_at_most(cum: Seq<u64>, bp: int, i: int)
    requires
        0 <= i <= 255,
    ensures
        0 <= upper_from(cum, bp, i) <= i,
    decreases i,
{
    if i > 0 && !within_high(cum[i] as int, cum[255] as int, bp) {
        lemma_upper_at_most(cum, bp, i - 1);
    }
}

/// A stretch with `alpha = 1` and `beta = 0` maps every intensity to itself.
pub proof fn lemma_unit_table(s: LinearStretch)
    requires
        is_unit(s),
    ensures
        forall|i: int| 0 <= i < 256 ==> stretch_table(s)[i] == i,
{
    assert forall|i: int| 0 <= i < 256 implies stretch_table(s)[i] == i by {
        if s is Range {
            if 0 < i < 255 {
                assert((510 * i + 255) / 510 == i);
            }
        }
    }
}

/// Normalising with a unit stretch hands the samples back unchanged.
proof fn lemma_unit_keeps(f: Frame, basis_points: int)
    requires
        is_unit(stretch_of(f, basis_points)),
    ensures
        normalized(f, basis_points) == f.data@,
{
    lemma_unit_table(stretch_of(f, basis_points));
    assert(normalized(f, basis_points) =~= f.data@);
}

/// A frame of one gray level has a flat histogram: whatever the clip share,
/// the estimated stretch has `alpha = 1` and `beta = 0` (no stretch at all
/// where some mass is clipped), and normalisation returns the frame as it was.
pub proof fn lemma_flat_frame_unit(f: Frame, basis_points: u32, v: u8)
    requires
        f.wf(),
        f.pixel_count() > 0,
        forall|p: int| 0 <= p < f.pixel_count() ==> gray_level(f, p) == v as int,
    ensures
        is_unit(stretch_of(f, basis_points as int)),
        basis_points > 0 ==> stretch_of(f, basis_points as int) == LinearStretch::Identity,
        normalized(f, basis_points as int) == f.data@,
{
    let s = gray_of(f);
    let n = s.len() as int;
    let bp = basis_points as int;
    let cum = cumulative_of(s);
    assert(n <= usize::MAX) by (nonlinear_arith)
        requires
            f.data@.len() == n * f.channels,
            f.data@.len() <= usize::MAX,
            f.channels >= 1,
            n >= 0,
    ;
    assert forall|k: int| 0 <= k < s.len() implies s[k] == v by {}
    assert forall|i: int| 0 <= i < 256 implies cum[i] as int == if i >= v {
        n
    } else {
        0
    } by {
        lemma_count_le_flat(s, v, i);
    }
    assert(cum[255] as int == n);
    if bp == 0 {
        assert(reaches_low(cum[0] as int, n, bp));
        assert(within_high(cum[255] as int, n, bp));
        assert(stretch_of(f, bp) == (LinearStretch::Range { low: 0, high: 255 }));
    } else {
        assert(bp * n > 0) by (nonlinear_arith)
            requires
                bp > 0,
                n > 0,
        ;
        lemma_lower_skip(cum, bp, 0, v as int);
        lemma_lower_at_least(cum, bp, v as int);
        if v == 0 {
            lemma_upper_skip(cum, bp, 0, 255);
        } else {
            lemma_upper_skip(cum, bp, v - 1, 255);
            lemma_upper_at_most(cum, bp, v - 1);
        }
        assert(upper_from(cum, bp, 255) <= lower_from(cum, bp, 0));
    }
    lemma_unit_keeps(f, bp);
}

/// Once the estimated stretch is the unit one, normalisation is at a fixed
/// point: the output equals the input, and normalising that output again
/// changes nothing.
pub proof fn lemma_normalize_fixed_point(f: Frame, g: Frame, basis_points: u32)
    requires
        f.wf(),
        is_unit(stretch_of(f, basis_points as int)),
        g.width == f.width,
        g.height == f.height,
        g.channels == f.channels,
        g.data@ == normalized(f, basis_points as int),
    ensures
        g.data@ == f.data@,
        stretch_of(g, basis_points as int) == stretch_of(f, basis_points as int),
        normalized(g, basis_points as int) == g.data@,
{
    lemma_unit_keeps(f, basis_points as int);
    assert(gray_of(g) =~= gray_of(f));
    lemma_unit_keeps(g, basis_points as int);
}

} // verus!
