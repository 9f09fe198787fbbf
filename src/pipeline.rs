use vstd::prelude::*;
use crate::background::{
    mask_of, updated, BackgroundModel, LearningRate, ModelView, DEFAULT_HISTORY, DEFAULT_THRESHOLD,
};
use crate::contrast::{auto_brightness_and_contrast, normalized, DEFAULT_CLIP_BASIS_POINTS};
use crate::error::PipelineError;
use crate::frame::Frame;
use crate::lut::{apply_table, mapped};

verus! {

/// Key code of Escape.
pub const KEY_ESCAPE: i32 = 27;

/// Key code of the letter q.
pub const KEY_Q: i32 = 113;

/// The frames that one input frame goes through.
pub struct Stages {
    /// After the gamma lookup table.
    pub gamma: Frame,
    /// After brightness and contrast normalisation.
    pub normalized: Frame,
    /// Foreground mask of the background model.
    pub mask: Frame,
}

/// Gamma correction, contrast normalisation and background subtraction,
/// frame after frame, with the one background model of a session.
pub struct RemoveBackground {
    background: BackgroundModel,
    clip_basis_points: u32,
    learning_rate: LearningRate,
}

impl RemoveBackground {
    /// The background model of the session.
    pub closed spec fn model(&self) -> ModelView {
        self.background@
    }

    /// Share of the pixel mass clipped in contrast normalisation, in
    /// hundredths of a percent.
    pub closed spec fn clip(&self) -> u32 {
        self.clip_basis_points
    }

    /// Weight of each new frame in the background model.
    pub closed spec fn rate(&self) -> LearningRate {
        self.learning_rate
    }

    pub open spec fn wf(&self) -> bool {
        self.model().wf() && self.rate().wf()
    }

    /// A session with the default settings: a history of 100 frames, one
    /// percent clipped, a learning rate of one half.
    pub fn new() -> (r: RemoveBackground)
        ensures
            r.wf(),
            r.model().warm_frames == 0,
            r.model().history == DEFAULT_HISTORY,
            r.model().threshold == DEFAULT_THRESHOLD,
            r.clip() == DEFAULT_CLIP_BASIS_POINTS,
            r.rate() == (LearningRate { num: 1, den: 2 }),
    {
        RemoveBackground::with_config(
            DEFAULT_HISTORY,
            DEFAULT_THRESHOLD,
            DEFAULT_CLIP_BASIS_POINTS,
            LearningRate::half(),
        )
    }

    /// A session with the given settings (a history of 0 counts as 1).
    pub fn with_config(
        history: u32,
        threshold: u8,
        clip_basis_points: u32,
        learning_rate: LearningRate,
    ) -> (r: RemoveBackground)
        requires
            learning_rate.wf(),
        ensures
            r.wf(),
            r.model().warm_frames == 0,
            r.model().history == if history == 0 {
                1
            } else {
                history as int
            },
            r.model().threshold == threshold,
            r.clip() == clip_basis_points,
            r.rate() == learning_rate,
    {
        RemoveBackground {
            background: BackgroundModel::new(history, threshold),
            clip_basis_points,
            learning_rate,
        }
    }

    /// Runs one frame through the gamma table, contrast normalisation and the
    /// background model. An empty frame, or one whose shape differs from the
    /// frames of the session, is refused and leaves the session as it was.
    pub fn process(&mut self, frame: &Frame, gamma_table: &Vec<u8>) -> (r: Result<
        Stages,
        PipelineError,
    >)
        requires
            old(self).wf(),
            frame.wf(),
            gamma_table@.len() == 256,
        ensures
            final(self).wf(),
            final(self).clip() == old(self).clip(),
            final(self).rate() == old(self).rate(),
            frame.data@.len() == 0 ==> r == Err::<Stages, PipelineError>(
                PipelineError::InvalidInput,
            ),
            frame.data@.len() > 0 && !old(self).model().fits(*frame) ==> r == Err::<
                Stages,
                PipelineError,
            >(PipelineError::DimensionMismatch),
            r is Err ==> final(self).model() == old(self).model(),
            r is Ok <==> frame.data@.len() > 0 && old(self).model().fits(*frame),
            r is Ok ==> {
                let s = r->Ok_0;
                &&& s.gamma.wf() && s.normalized.wf() && s.mask.wf()
                &&& s.gamma.width == frame.width && s.gamma.height == frame.height
                &&& s.gamma.channels == frame.channels
                &&& s.gamma.data@ == mapped(frame.data@, gamma_table@)
                &&& s.normalized.width == frame.width && s.normalized.height == frame.height
                &&& s.normalized.channels == frame.channels
                &&& s.normalized.data@ == normalized(s.gamma, old(self).clip() as int)
                &&& s.mask.width == frame.width && s.mask.height == frame.height
                &&& s.mask.channels == 1
                &&& s.mask.data@ == mask_of(old(self).model(), s.normalized)
                &&& final(self).model() == updated(old(self).model(), s.normalized, old(self).rate())
            },
    {
        if frame.data.len() == 0 {
            return Err(PipelineError::InvalidInput);
        }
        if !self.background.fits(frame) {
            return Err(PipelineError::DimensionMismatch);
        }
        let gamma = apply_table(frame, gamma_table);
        let normalized = match auto_brightness_and_contrast(&gamma, Some(self.clip_basis_points)) {
            Ok(f) => f,
            Err(e) => {
                return Err(e);
            },
        };
        match self.background.apply(&normalized, self.learning_rate) {
            Ok(mask) => Ok(Stages { gamma, normalized, mask }),
            Err(e) => Err(e),
        }
    }
}

/// A position that walks a finite sequence of frames and starts over at its
/// end.
pub struct Replay {
    pub len: usize,
    pub position: usize,
}

impl Replay {
    /// A walk over `len` frames from the first.
    pub fn new(len: usize) -> (r: Replay)
        ensures
            r.len == len && r.position == 0,
    {
        Replay { len, position: 0 }
    }

    /// The index of the next frame, none for an empty sequence; after the
    /// last frame comes the first again.
    pub fn advance(&mut self) -> (r: Option<usize>)
        requires
            old(self).len == 0 || old(self).position < old(self).len,
        ensures
            final(self).len == old(self).len,
            old(self).len == 0 ==> r is None && final(self).position == old(self).position,
            old(self).len > 0 ==> r == Some(old(self).position) && final(self).position == if old(
                self,
            ).position + 1 == old(self).len {
                0
            } else {
                old(self).position + 1
            },
            old(self).len > 0 ==> final(self).position < final(self).len,
    {
        if self.len == 0 {
            return None;
        }
        let at = self.position;
        self.position = if at + 1 == self.len {
            0
        } else {
            at + 1
        };
        Some(at)
    }
}

/// What happened to one frame of the loop.
#[derive(Clone, Copy, Debug, PartialEq, Eq, Structural)]
pub enum FrameOutcome {
    /// The frame could not be read.
    ReadFailed,
    /// The frame was processed and shown; `key` is the key polled afterwards
    /// (negative when none was pressed).
    Shown { key: i32 },
    /// The output could not take the frame.
    SinkFailed,
}

/// What the loop does next.
#[derive(Clone, Copy, Debug, PartialEq, Eq, Structural)]
pub enum LoopAction {
    /// Go on with the next frame.
    Continue,
    /// End the loop on request.
    Stop,
    /// End the loop with the output's error.
    Fail,
}

/// The key asks to end the loop.
pub open spec fn is_stop_key(key: i32) -> bool {
    key == KEY_ESCAPE || key == KEY_Q
}

/// Whether the polled key asks to end the loop.
pub fn stop_requested(key: i32) -> (r: bool)
    ensures
        r == is_stop_key(key),
{
    key == KEY_ESCAPE || key == KEY_Q
}

/// The decision after one frame: a frame that could not be read is skipped,
/// a broken output ends the loop with its error, and a stop key ends it
/// cleanly.
pub fn next_action(outcome: FrameOutcome) -> (r: LoopAction)
    ensures
        outcome == FrameOutcome::ReadFailed ==> r == LoopAction::Continue,
        outcome == FrameOutcome::SinkFailed ==> r == LoopAction::Fail,
        outcome is Shown ==> r == if is_stop_key(outcome->key) {
            LoopAction::Stop
        } else {
            LoopAction::Continue
        },
{
    match outcome {
        FrameOutcome::ReadFailed => LoopAction::Continue,
        FrameOutcome::SinkFailed => LoopAction::Fail,
        FrameOutcome::Shown { key } => if stop_requested(key) {
            LoopAction::Stop
        } else {
            LoopAction::Continue
        },
    }
}

} // verus!
