use vstd::prelude::*;

verus! {

/// What a stage of the pipeline can refuse.
#[derive(Clone, Copy, Debug, PartialEq, Eq, Structural)]
pub enum PipelineError {
    /// An empty frame, a buffer that does not match its shape, or a frame
    /// with the wrong number of channels for the stage.
    InvalidInput,
    /// A frame whose width, height or channel count differs from the frames
    /// the background model has already seen.
    DimensionMismatch,
}

} // verus!
