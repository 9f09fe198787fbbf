use vstd::prelude::*;
use crate::error::PipelineError;
use crate::frame::Frame;

verus! {

/// Number of intensity buckets.
pub const BUCKETS: usize = 256;

/// How many samples of `s` equal `v`.
pub open spec fn count_eq(s: Seq<u8>, v: int) -> nat
    decreases s.len(),
{
    if s.len() == 0 {
        0
    } else {
        count_eq(s.drop_last(), v) + if s.last() as int == v {
            1nat
        } else {
            0nat
        }
    }
}

/// How many samples of `s` are at most `v`.
pub open spec fn count_le(s: Seq<u8>, v: int) -> nat
    decreases s.len(),
{
    if s.len() == 0 {
        0
    } else {
        count_le(s.drop_last(), v) + if s.last() as int <= v {
            1nat
        } else {
            0nat
        }
    }
}

proof fn lemma_counts_bounded(s: Seq<u8>, v: int)
    ensures
        count_eq(s, v) <= s.len(),
        count_le(s, v) <= s.len(),
    decreases s.len(),
{
    if s.len() > 0 {
        lemma_counts_bounded(s.drop_last(), v);
    }
}

proof fn lemma_count_le_step(s: Seq<u8>, v: int)
    ensures
        v == 0 ==> count_le(s, v) == count_eq(s, v),
        0 < v ==> count_le(s, v) == count_le(s, v - 1) + count_eq(s, v),
    decreases s.len(),
{
    if s.len() > 0 {
        lemma_count_le_step(s.drop_last(), v);
    }
}

proof fn lemma_count_le_monotone(s: Seq<u8>, i: int, j: int)
    requires
        i <= j,
    ensures
        count_le(s, i) <= count_le(s, j),
    decreases s.len(),
{
    if s.len() > 0 {
        lemma_count_le_monotone(s.drop_last(), i, j);
    }
}

proof fn lemma_count_le_top(s: Seq<u8>)
    ensures
        count_le(s, 255) == s.len(),
    decreases s.len(),
{
    if s.len() > 0 {
        lemma_count_le_top(s.drop_last());
    }
}

/// The cumulative counts of any sample sequence never decrease from one bucket
/// to the next, and the last bucket holds every sample.
pub proof fn lemma_cumulative_laws(s: Seq<u8>)
    ensures
        forall|i: int, j: int| 0 <= i <= j < 256 ==> count_le(s, i) <= count_le(s, j),
        count_le(s, 255) == s.len(),
{
    assert forall|i: int, j: int| 0 <= i <= j < 256 implies count_le(s, i) <= count_le(s, j) by {
        lemma_count_le_monotone(s, i, j);
    }
    lemma_count_le_top(s);
}

/// Intensity counts of a single-channel frame and their running sums.
pub struct Histogram {
    /// `counts[v]`: number of pixels of intensity `v`.
    pub counts: Vec<u64>,
    /// `cumulative[v]`: number of pixels of intensity at most `v`.
    pub cumulative: Vec<u64>,
}

impl Histogram {
    /// The histogram is the one of the samples `s`.
    pub open spec fn describes(&self, s: Seq<u8>) -> bool {
        &&& self.counts@.len() == BUCKETS
        &&& self.cumulative@.len() == BUCKETS
        &&& forall|v: int| 0 <= v < 256 ==> self.counts@[v] == count_eq(s, v)
        &&& forall|v: int| 0 <= v < 256 ==> self.cumulative@[v] == count_le(s, v)
    }

    /// Total number of pixels counted.
    pub fn total(&self) -> (r: u64)
        requires
            self.cumulative@.len() == BUCKETS,
        ensures
            r == self.cumulative@[255],
    {
        self.cumulative[BUCKETS - 1]
    }
}

/// Counts the intensities of a non-empty single-channel frame.
pub fn build_histogram(frame: &Frame) -> (r: Result<Histogram, PipelineError>)
    requires
        frame.wf(),
    ensures
        r is Err <==> (frame.channels != 1 || frame.data@.len() == 0),
        r is Err ==> r->Err_0 == PipelineError::InvalidInput,
        r is Ok ==> r->Ok_0.describes(frame.data@),
        r is Ok ==> forall|i: int, j: int|
            0 <= i <= j < 256 ==> r->Ok_0.cumulative@[i] <= r->Ok_0.cumulative@[j],
        r is Ok ==> r->Ok_0.cumulative@[255] == frame.pixel_count(),
{
    if frame.channels != 1 || frame.data.len() == 0 {
        return Err(PipelineError::InvalidInput);
    }
    let ghost s = frame.data@;
    let n = frame.data.len();
    let mut counts: Vec<u64> = vec![0u64; BUCKETS];
    let mut k: usize = 0;
    while k < n
        invariant
            k <= n,
            n == s.len(),
            s == frame.data@,
            counts@.len() == BUCKETS,
            forall|v: int| 0 <= v < 256 ==> counts@[v] == count_eq(s.take(k as int), v),
        decreases n - k,
    {
        let x = frame.data[k];
        proof {
            assert(s.take(k as int + 1).drop_last() =~= s.take(k as int));
            lemma_counts_bounded(s.take(k as int), x as int);
        }
        let c = counts[x as usize];
        counts.set(x as usize, c + 1);
        k += 1;
    }
    assert(s.take(n as int) =~= s);
    let mut cumulative: Vec<u64> = Vec::new();
    let mut running: u64 = 0;
    let mut v: usize = 0;
    while v < BUCKETS
        invariant
            v <= BUCKETS,
            n == s.len(),
            counts@.len() == BUCKETS,
            forall|u: int| 0 <= u < 256 ==> counts@[u] == count_eq(s, u),
            cumulative@.len() == v,
            forall|u: int| 0 <= u < v ==> cumulative@[u] == count_le(s, u),
            v == 0 ==> running == 0,
            v > 0 ==> running == count_le(s, v - 1),
        decreases BUCKETS - v,
    {
        proof {
            lemma_count_le_step(s, v as int);
            lemma_counts_bounded(s, v as int);
        }
        running = running + counts[v];
        cumulative.push(running);
        v += 1;
    }
    let h = Histogram { counts, cumulative };
    proof {
        lemma_cumulative_laws(s);
        assert forall|i: int, j: int| 0 <= i <= j < 256 implies h.cumulative@[i]
            <= h.cumulative@[j] by {
            assert(count_le(s, i) <= count_le(s, j));
        }
        assert(frame.pixel_count() == s.len()) by (nonlinear_arith)
            requires
                s.len() == frame.pixel_count() * frame.channels,
                frame.channels == 1,
        ;
    }
    Ok(h)
}

} // verus!
