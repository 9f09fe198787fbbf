use vstd::prelude::*;
use crate::error::PipelineError;

verus! {

/// The largest number of samples per pixel (blue, green, red, alpha).
pub const MAX_CHANNELS: usize = 4;

/// A grid of pixels stored row by row, each pixel holding `channels`
/// consecutive intensity samples. Colour frames keep blue, green and red in
/// that order.
pub struct Frame {
    pub width: usize,
    pub height: usize,
    pub channels: usize,
    pub data: Vec<u8>,
}

impl Frame {
    /// Number of pixels of the grid.
    pub open spec fn pixel_count(&self) -> int {
        self.width as int * self.height as int
    }

    /// The shape and the sample buffer agree.
    pub open spec fn wf(&self) -> bool {
        &&& 1 <= self.channels <= MAX_CHANNELS
        &&& self.data@.len() == self.pixel_count() * self.channels
        &&& self.data@.len() <= usize::MAX
    }

    /// Sample `c` of pixel `p`.
    pub open spec fn sample(&self, p: int, c: int) -> u8 {
        self.data@[p * self.channels + c]
    }

    /// Checks the shape against the buffer and wraps them into a frame.
    pub fn new(width: usize, height: usize, channels: usize, data: Vec<u8>) -> (r: Result<
        Frame,
        PipelineError,
    >)
        ensures
            (1 <= channels <= MAX_CHANNELS && data@.len() == width as int * height as int
                * channels) <==> r is Ok,
            r is Ok ==> (r->Ok_0.width == width && r->Ok_0.height == height && r->Ok_0.channels
                == channels && r->Ok_0.data@ == data@),
            r is Err ==> r->Err_0 == PipelineError::InvalidInput,
    {
        if channels < 1 || channels > MAX_CHANNELS {
            return Err(PipelineError::InvalidInput);
        }
        let len = data.len();
        match width.checked_mul(height) {
            None => {
                proof {
                    assert(width as int * height as int * channels >= width as int * height as int)
                        by (nonlinear_arith)
                        requires
                            channels >= 1,
                            width as int * height as int >= 0,
                    ;
                }
                Err(PipelineError::InvalidInput)
            },
            Some(pixels) => match pixels.checked_mul(channels) {
                None => Err(PipelineError::InvalidInput),
                Some(n) => {
                    if n == len {
                        Ok(Frame { width, height, channels, data })
                    } else {
                        Err(PipelineError::InvalidInput)
                    }
                },
            },
        }
    }

    /// A frame with every sample set to `value`.
    pub fn filled(width: usize, height: usize, channels: usize, value: u8) -> (r: Frame)
        requires
            1 <= channels <= MAX_CHANNELS,
            width as int * height as int * channels <= usize::MAX,
        ensures
            r.wf(),
            r.width == width && r.height == height && r.channels == channels,
            forall|i: int| 0 <= i < r.data@.len() ==> r.data@[i] == value,
    {
        proof {
            assert(width as int * height as int <= width as int * height as int * channels)
                by (nonlinear_arith)
                requires
                    channels >= 1,
                    width as int * height as int >= 0,
            ;
        }
        let n: usize = width * height * channels;
        let data = vec![value; n];
        Frame { width, height, channels, data }
    }
}

} // verus!
