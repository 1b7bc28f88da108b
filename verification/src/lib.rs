//! Verified core of a webcam face-tracking plugin: the bounded window of
//! recent face samples and its smoothing dispatch, the RGB-to-grayscale
//! conversion of camera frames, and the start/stop decisions of the
//! capture task.

pub mod control;
pub mod filter;
pub mod frame;
