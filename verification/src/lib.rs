//! Verified core of a frame-differencing motion detector.
//!
//! The crate holds the parts of the detector that can be reasoned about
//! exactly: the grid of samples that stands for a grayscale frame, the
//! difference, dilation and threshold filters, the selection of bounding
//! boxes from traced contours, the holder of the latest detections, the
//! text of the response that publishes them, and the decisions of the
//! capture loop. Capturing, smoothing, contour tracing and networking stay
//! with the caller, which hands plain values in and takes plain values back.

pub mod frame;
pub mod filters;
pub mod geometry;
pub mod config;
pub mod pipeline;
pub mod store;
pub mod publish;
pub mod capture;
