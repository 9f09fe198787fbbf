use remove_background::background::{BackgroundModel, LearningRate, FOREGROUND};
use remove_background::error::PipelineError;
use remove_background::frame::Frame;
use remove_background::gamma::mean_intensity;
use remove_background::pipeline::{
    next_action, stop_requested, FrameOutcome, LoopAction, RemoveBackground, Replay,
};

fn foreground_count(mask: &Frame) -> usize {
    mask.data.iter().filter(|&&v| v == FOREGROUND).count()
}

fn gamma_table(frame: &Frame) -> Vec<u8> {
    let m = mean_intensity(frame).unwrap();
    let mean = (m.total as f64 / m.samples as f64).clamp(1.0 + 1e-6, 255.0 - 1e-6);
    let gamma = (0.5f64 * 255.0).ln() / mean.ln();
    let inv = 1.0 / gamma;
    (0..256).map(|i| (255.0 * (i as f64 / 255.0).powf(inv)).round().clamp(0.0, 255.0) as u8).collect()
}

fn textured(width: usize, height: usize) -> Frame {
    let mut data = Vec::new();
    for y in 0..height {
        for x in 0..width {
            let v = ((x * 3 + y * 5) % 180 + 40) as u8;
            data.extend([v, v, v]);
        }
    }
    Frame::new(width, height, 3, data).unwrap()
}

fn with_block(base: &Frame, x0: usize, y0: usize, size: usize, value: u8) -> Frame {
    let mut data = base.data.clone();
    for y in y0..y0 + size {
        for x in x0..x0 + size {
            for c in 0..base.channels {
                data[(y * base.width + x) * base.channels + c] = value;
            }
        }
    }
    Frame::new(base.width, base.height, base.channels, data).unwrap()
}

#[test]
fn learning_rate_bounds() {
    assert_eq!(LearningRate::new(1, 2), Some(LearningRate { num: 1, den: 2 }));
    assert_eq!(LearningRate::new(3, 3), Some(LearningRate { num: 3, den: 3 }));
    assert_eq!(LearningRate::new(0, 2), None);
    assert_eq!(LearningRate::new(3, 2), None);
    assert_eq!(LearningRate::half(), LearningRate { num: 1, den: 2 });
}

#[test]
fn first_frame_gives_empty_mask() {
    let mut model = BackgroundModel::new(10, 30);
    let f = textured(12, 7);
    let mask = model.apply(&f, LearningRate::half()).unwrap();
    assert_eq!((mask.width, mask.height, mask.channels), (12, 7, 1));
    assert_eq!(foreground_count(&mask), 0);
}

#[test]
fn static_scene_stays_background() {
    let mut model = BackgroundModel::new(100, 30);
    let f = textured(50, 40);
    for _ in 0..120 {
        let mask = model.apply(&f, LearningRate::half()).unwrap();
        assert_eq!(foreground_count(&mask), 0);
    }
}

#[test]
fn deviation_beyond_threshold_is_foreground() {
    let mut model = BackgroundModel::new(5, 30);
    let rate = LearningRate::half();
    let base = Frame::filled(4, 4, 1, 100);
    model.apply(&base, rate).unwrap();
    let mut data = base.data.clone();
    data[0] = 131;
    data[1] = 130;
    data[2] = 69;
    data[3] = 70;
    let moved = Frame::new(4, 4, 1, data).unwrap();
    let mask = model.apply(&moved, rate).unwrap();
    assert_eq!(&mask.data[0..5], &[FOREGROUND, 0, FOREGROUND, 0, 0]);
    assert_eq!(foreground_count(&mask), 2);
}

#[test]
fn colour_pixel_is_foreground_when_one_channel_deviates() {
    let mut model = BackgroundModel::new(5, 30);
    let rate = LearningRate::half();
    let base = Frame::filled(2, 1, 3, 100);
    model.apply(&base, rate).unwrap();
    let moved = Frame::new(2, 1, 3, vec![100, 100, 100, 100, 100, 180]).unwrap();
    let mask = model.apply(&moved, rate).unwrap();
    assert_eq!(mask.data, vec![0, FOREGROUND]);
}

#[test]
fn means_adapt_at_the_learning_rate() {
    // history 1: the given rate applies from the second frame on.
    let mut model = BackgroundModel::new(1, 30);
    let rate = LearningRate::half();
    model.apply(&Frame::filled(1, 1, 1, 100), rate).unwrap();
    // mean 100 -> 140 after a sample of 180, which is foreground.
    let m = model.apply(&Frame::filled(1, 1, 1, 180), rate).unwrap();
    assert_eq!(m.data, vec![FOREGROUND]);
    // 165 lies 25 from 140: background, mean moves to 152.5.
    let m = model.apply(&Frame::filled(1, 1, 1, 165), rate).unwrap();
    assert_eq!(m.data, vec![0]);
    // 120 lies 32.5 from 152.5: foreground.
    let m = model.apply(&Frame::filled(1, 1, 1, 120), rate).unwrap();
    assert_eq!(m.data, vec![FOREGROUND]);
}

#[test]
fn warm_up_averages_the_first_frames() {
    // A rate of 1/100 would barely move; during warm-up the means follow
    // 1/2, 1/3, ... instead.
    let rate = LearningRate::new(1, 100).unwrap();
    let mut model = BackgroundModel::new(10, 30);
    model.apply(&Frame::filled(1, 1, 1, 100), rate).unwrap();
    // mean (100 + 160) / 2 = 130; 160 is 60 away: foreground.
    let m = model.apply(&Frame::filled(1, 1, 1, 160), rate).unwrap();
    assert_eq!(m.data, vec![FOREGROUND]);
    // 160 lies 30 from 130: not beyond the threshold.
    let m = model.apply(&Frame::filled(1, 1, 1, 160), rate).unwrap();
    assert_eq!(m.data, vec![0]);
}

#[test]
fn dimension_mismatch_leaves_model_unchanged() {
    let rate = LearningRate::half();
    let a = textured(10, 10);
    let b = with_block(&a, 2, 2, 3, 255);
    let mut model = BackgroundModel::new(3, 30);
    let mut reference = BackgroundModel::new(3, 30);
    model.apply(&a, rate).unwrap();
    reference.apply(&a, rate).unwrap();
    let other = textured(8, 10);
    assert_eq!(model.apply(&other, rate).err(), Some(PipelineError::DimensionMismatch));
    let grayish = Frame::filled(10, 10, 1, 50);
    assert_eq!(model.apply(&grayish, rate).err(), Some(PipelineError::DimensionMismatch));
    let after = model.apply(&b, rate).unwrap();
    let expected = reference.apply(&b, rate).unwrap();
    assert_eq!(after.data, expected.data);
    assert_eq!(foreground_count(&after), 9);
}

#[test]
fn empty_frame_is_invalid_input() {
    let mut model = BackgroundModel::new(3, 30);
    let empty = Frame::new(0, 5, 1, vec![]).unwrap();
    assert_eq!(model.apply(&empty, LearningRate::half()).err(), Some(PipelineError::InvalidInput));
    let f = Frame::filled(2, 2, 1, 9);
    assert!(model.apply(&f, LearningRate::half()).is_ok());
}

#[test]
fn pipeline_static_gray_sequence_has_no_foreground() {
    let rate = LearningRate::half();
    let mut session = RemoveBackground::with_config(2, 30, 100, rate);
    let f = Frame::filled(100, 100, 3, 128);
    let mut last = None;
    for _ in 0..3 {
        let table = gamma_table(&f);
        let stages = session.process(&f, &table).unwrap();
        assert_eq!((stages.mask.width, stages.mask.height), (100, 100));
        last = Some(stages);
    }
    let stages = last.unwrap();
    assert_eq!(foreground_count(&stages.mask), 0);
    assert_eq!(stages.gamma.data, f.data);
    assert_eq!(stages.normalized.data, f.data);
}

#[test]
fn pipeline_marks_inserted_block() {
    let mut session = RemoveBackground::with_config(20, 30, 300, LearningRate::half());
    let scene = textured(100, 100);
    let moved = with_block(&scene, 40, 30, 10, 255);
    for n in 1..=50 {
        let frame = if n == 50 { &moved } else { &scene };
        let table = gamma_table(frame);
        let stages = session.process(frame, &table).unwrap();
        if n < 50 {
            assert_eq!(foreground_count(&stages.mask), 0);
        } else {
            let mut inside = 0;
            let mut outside = 0;
            for y in 0..100 {
                for x in 0..100 {
                    if stages.mask.data[y * 100 + x] == FOREGROUND {
                        if (40..50).contains(&x) && (30..40).contains(&y) {
                            inside += 1;
                        } else {
                            outside += 1;
                        }
                    }
                }
            }
            assert!(inside >= 90, "block pixels marked: {}", inside);
            assert!(outside <= 50, "pixels marked outside the block: {}", outside);
        }
    }
}

#[test]
fn pipeline_default_session_and_errors() {
    let mut session = RemoveBackground::new();
    let identity: Vec<u8> = (0..256u32).map(|i| i as u8).collect();
    let empty = Frame::new(0, 0, 3, vec![]).unwrap();
    assert_eq!(session.process(&empty, &identity).err(), Some(PipelineError::InvalidInput));
    let f = textured(6, 6);
    assert!(session.process(&f, &identity).is_ok());
    let g = textured(6, 7);
    assert_eq!(session.process(&g, &identity).err(), Some(PipelineError::DimensionMismatch));
    let stages = session.process(&f, &identity).unwrap();
    assert_eq!(foreground_count(&stages.mask), 0);
}

#[test]
fn replay_cycles_over_the_sequence() {
    let mut r = Replay::new(3);
    let got: Vec<Option<usize>> = (0..7).map(|_| r.advance()).collect();
    assert_eq!(got, vec![Some(0), Some(1), Some(2), Some(0), Some(1), Some(2), Some(0)]);
    let mut empty = Replay::new(0);
    assert_eq!(empty.advance(), None);
}

#[test]
fn loop_decisions() {
    assert_eq!(next_action(FrameOutcome::ReadFailed), LoopAction::Continue);
    assert_eq!(next_action(FrameOutcome::SinkFailed), LoopAction::Fail);
    assert_eq!(next_action(FrameOutcome::Shown { key: -1 }), LoopAction::Continue);
    assert_eq!(next_action(FrameOutcome::Shown { key: 27 }), LoopAction::Stop);
    assert_eq!(next_action(FrameOutcome::Shown { key: 113 }), LoopAction::Stop);
    assert_eq!(next_action(FrameOutcome::Shown { key: 32 }), LoopAction::Continue);
    assert!(stop_requested(27));
    assert!(!stop_requested(0));
}
