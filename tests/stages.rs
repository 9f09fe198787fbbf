use remove_background::contrast::{
    auto_brightness_and_contrast, clip_bounds, estimate_stretch, ClipBounds, LinearStretch,
};
use remove_background::error::PipelineError;
use remove_background::frame::Frame;
use remove_background::gamma::mean_intensity;
use remove_background::histogram::build_histogram;
use remove_background::luminance::to_gray;
use remove_background::lut::apply_table;

fn gray(width: usize, height: usize, data: Vec<u8>) -> Frame {
    Frame::new(width, height, 1, data).unwrap()
}

#[test]
fn frame_new_checks_shape() {
    assert!(Frame::new(2, 2, 1, vec![0; 4]).is_ok());
    assert_eq!(Frame::new(2, 2, 1, vec![0; 5]).err(), Some(PipelineError::InvalidInput));
    assert_eq!(Frame::new(2, 2, 0, vec![]).err(), Some(PipelineError::InvalidInput));
    assert_eq!(Frame::new(1, 1, 5, vec![0; 5]).err(), Some(PipelineError::InvalidInput));
    assert_eq!(Frame::new(usize::MAX, 2, 1, vec![]).err(), Some(PipelineError::InvalidInput));
}

#[test]
fn histogram_counts_and_cumulative() {
    let f = gray(3, 2, vec![0, 5, 5, 255, 7, 5]);
    let h = build_histogram(&f).unwrap();
    assert_eq!(h.counts[0], 1);
    assert_eq!(h.counts[5], 3);
    assert_eq!(h.counts[7], 1);
    assert_eq!(h.counts[255], 1);
    assert_eq!(h.cumulative[0], 1);
    assert_eq!(h.cumulative[4], 1);
    assert_eq!(h.cumulative[5], 4);
    assert_eq!(h.cumulative[6], 4);
    assert_eq!(h.cumulative[7], 5);
    assert_eq!(h.cumulative[254], 5);
    assert_eq!(h.total(), 6);
}

#[test]
fn histogram_cumulative_is_monotone_and_ends_at_pixel_count() {
    let data: Vec<u8> = (0..1000u32).map(|i| ((i * 37 + 11) % 256) as u8).collect();
    let f = gray(40, 25, data);
    let h = build_histogram(&f).unwrap();
    for v in 1..256 {
        assert!(h.cumulative[v - 1] <= h.cumulative[v]);
    }
    assert_eq!(h.cumulative[255], 1000);
    let sum: u64 = h.counts.iter().sum();
    assert_eq!(sum, 1000);
}

#[test]
fn histogram_rejects_empty_and_colour_frames() {
    let empty = gray(0, 3, vec![]);
    assert_eq!(build_histogram(&empty).err(), Some(PipelineError::InvalidInput));
    let colour = Frame::new(1, 1, 3, vec![1, 2, 3]).unwrap();
    assert_eq!(build_histogram(&colour).err(), Some(PipelineError::InvalidInput));
}

#[test]
fn luma_weights_blue_green_red() {
    let f = Frame::new(4, 1, 3, vec![255, 0, 0, 0, 255, 0, 0, 0, 255, 255, 255, 255]).unwrap();
    let g = to_gray(&f);
    assert_eq!(g.channels, 1);
    assert_eq!(g.data, vec![29, 150, 76, 255]);
    let two = Frame::new(2, 1, 2, vec![9, 200, 17, 0]).unwrap();
    assert_eq!(to_gray(&two).data, vec![9, 17]);
}

#[test]
fn lookup_table_maps_every_sample() {
    let table: Vec<u8> = (0..256u32).map(|i| (255 - i) as u8).collect();
    let f = Frame::new(2, 1, 3, vec![0, 1, 2, 253, 254, 255]).unwrap();
    let out = apply_table(&f, &table);
    assert_eq!(out.data, vec![255, 254, 253, 2, 1, 0]);
    assert_eq!((out.width, out.height, out.channels), (2, 1, 3));
}

#[test]
fn mean_intensity_uses_first_three_channels() {
    let f = Frame::new(2, 1, 4, vec![10, 20, 30, 250, 40, 50, 60, 250]).unwrap();
    let m = mean_intensity(&f).unwrap();
    assert_eq!((m.total, m.samples), (210, 6));
    let g = gray(3, 1, vec![1, 2, 3]);
    let m = mean_intensity(&g).unwrap();
    assert_eq!((m.total, m.samples), (6, 3));
    assert_eq!(mean_intensity(&gray(0, 0, vec![])).err(), Some(PipelineError::InvalidInput));
}

fn gamma_table(total: u128, samples: u128) -> Vec<u8> {
    let mean = (total as f64 / samples as f64).clamp(1.0 + 1e-6, 255.0 - 1e-6);
    let gamma = (0.5f64 * 255.0).ln() / mean.ln();
    let inv = 1.0 / gamma;
    (0..256).map(|i| (255.0 * (i as f64 / 255.0).powf(inv)).round().clamp(0.0, 255.0) as u8).collect()
}

#[test]
fn gamma_near_one_at_mid_gray() {
    let f = Frame::filled(8, 8, 3, 128);
    let m = mean_intensity(&f).unwrap();
    assert_eq!((m.total, m.samples), (128 * 192, 192));
    let mean = m.total as f64 / m.samples as f64;
    let gamma = (0.5f64 * 255.0).ln() / mean.ln();
    assert!((gamma - 1.0).abs() < 0.001);
    let table = gamma_table(m.total, m.samples);
    assert_eq!(table[128], 128);
    let out = apply_table(&f, &table);
    assert_eq!(out.data, f.data);
}

#[test]
fn clip_bounds_scan_the_cumulative_counts() {
    // 100 pixels: 10 at 0, 80 spread over 50..=129, 10 at 255.
    let mut data = vec![0u8; 10];
    for i in 0..80u32 {
        data.push((50 + i) as u8);
    }
    data.extend(vec![255u8; 10]);
    let f = gray(10, 10, data);
    let h = build_histogram(&f).unwrap();
    // 10% over both tails: threshold 5 per tail.
    let b = clip_bounds(&h, 1000);
    assert_eq!(b, ClipBounds { minimum_gray: 0, maximum_gray: 254 });
    // 30%: threshold 15 per tail.
    let b = clip_bounds(&h, 3000);
    assert_eq!(b, ClipBounds { minimum_gray: 54, maximum_gray: 124 });
    // nothing clipped.
    let b = clip_bounds(&h, 0);
    assert_eq!(b, ClipBounds { minimum_gray: 0, maximum_gray: 255 });
}

#[test]
fn stretch_values() {
    let s = LinearStretch::from_bounds(ClipBounds { minimum_gray: 100, maximum_gray: 200 });
    assert_eq!(s, LinearStretch::Range { low: 100, high: 200 });
    assert_eq!(s.apply(99), 0);
    assert_eq!(s.apply(100), 0);
    assert_eq!(s.apply(150), 128);
    assert_eq!(s.apply(101), 3);
    assert_eq!(s.apply(200), 255);
    assert_eq!(s.apply(250), 255);
    let t = s.table();
    assert_eq!(t.len(), 256);
    assert_eq!(t[150], 128);
    let flat = LinearStretch::from_bounds(ClipBounds { minimum_gray: 80, maximum_gray: 80 });
    assert_eq!(flat, LinearStretch::Identity);
    assert_eq!(flat.apply(17), 17);
    let inverted = LinearStretch::from_bounds(ClipBounds { minimum_gray: 90, maximum_gray: 40 });
    assert_eq!(inverted, LinearStretch::Identity);
}

#[test]
fn contrast_stretches_a_narrow_range() {
    // gray levels 100..=199, one pixel each.
    let data: Vec<u8> = (100..200u32).map(|v| v as u8).collect();
    let f = gray(10, 10, data);
    let s = estimate_stretch(&f, 0).unwrap();
    assert_eq!(s, LinearStretch::Range { low: 0, high: 255 });
    let s = estimate_stretch(&f, 200).unwrap();
    assert_eq!(s, LinearStretch::Range { low: 100, high: 198 });
    let out = auto_brightness_and_contrast(&f, Some(200)).unwrap();
    assert_eq!(out.data[0], 0);
    // 255 * 49 / 98 = 127.5, rounded half up.
    assert_eq!(out.data[49], 128);
    assert_eq!(out.data[98], 255);
    assert_eq!(out.data[99], 255);
}

#[test]
fn contrast_flat_frame_is_unit_stretch() {
    let f = Frame::filled(20, 10, 3, 77);
    assert_eq!(estimate_stretch(&f, 100).unwrap(), LinearStretch::Identity);
    assert_eq!(estimate_stretch(&f, 0).unwrap(), LinearStretch::Range { low: 0, high: 255 });
    let out = auto_brightness_and_contrast(&f, None).unwrap();
    assert_eq!(out.data, f.data);
    let out = auto_brightness_and_contrast(&f, Some(0)).unwrap();
    assert_eq!(out.data, f.data);
    let black = Frame::filled(4, 4, 1, 0);
    assert_eq!(estimate_stretch(&black, 100).unwrap(), LinearStretch::Identity);
    let white = Frame::filled(4, 4, 1, 255);
    assert_eq!(estimate_stretch(&white, 100).unwrap(), LinearStretch::Identity);
    assert_eq!(estimate_stretch(&white, 30000).unwrap(), LinearStretch::Identity);
}

#[test]
fn contrast_fixed_point_under_repetition() {
    let f = Frame::filled(16, 16, 1, 200);
    let once = auto_brightness_and_contrast(&f, None).unwrap();
    let twice = auto_brightness_and_contrast(&once, None).unwrap();
    assert_eq!(once.data, f.data);
    assert_eq!(twice.data, once.data);
    let data: Vec<u8> = (0..256u32).map(|v| v as u8).collect();
    let ramp = gray(16, 16, data);
    let a = auto_brightness_and_contrast(&ramp, Some(0)).unwrap();
    assert_eq!(a.data, ramp.data);
    let b = auto_brightness_and_contrast(&a, Some(0)).unwrap();
    assert_eq!(b.data, a.data);
}

#[test]
fn contrast_rejects_empty_frame() {
    let empty = Frame::new(0, 0, 3, vec![]).unwrap();
    assert_eq!(auto_brightness_and_contrast(&empty, None).err(), Some(PipelineError::InvalidInput));
}
