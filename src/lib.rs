//! Exposure normalisation and moving-object segmentation for video frames.
//!
//! Each frame goes through a gamma lookup table, a contrast stretch derived
//! from histogram clipping, and a recency-weighted per-pixel background model
//! that yields a foreground mask.
pub mod error;
pub mod frame;
pub mod gamma;
pub mod histogram;
pub mod lut;
pub mod luminance;
pub mod contrast;
pub mod background;
pub mod pipeline;
