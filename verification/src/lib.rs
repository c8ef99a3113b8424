//! A time-series windowing and downsampling engine.
//!
//! Irregularly-timed scalar samples are pushed into a [`raw_series::RawSeries`];
//! a [`window::WindowIter`] partitions them into fixed-width, epoch-aligned
//! buckets; an aggregation operator reduces each bucket to one
//! [`sample::Sample`]; the results form an [`aligned_series::AlignedSeries`],
//! a regularly-spaced series suitable for storage at coarser resolutions.

pub mod aligned_series;
pub mod base;
pub mod element;
pub mod metric;
pub mod ops;
pub mod raw_series;
pub mod sample;
pub mod series;
pub mod stat;
pub mod window;
pub mod window_ops;

pub use aligned_series::AlignedSeries;
pub use base::{Duration, Interval, TimeStamp};
pub use element::Element;
pub use raw_series::RawSeries;
pub use sample::Sample;
