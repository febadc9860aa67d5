//! Triage of photos: which of a day's pictures are sharp, well exposed and well composed, which
//! frames of a burst to keep, and how many stars each photo gets.
//!
//! Decimal numbers are held in fixed point: the integer `x * 1_000_000` stands for `x`.
pub mod ai;
pub mod cache;
pub mod config;
pub mod decode;
pub mod dedup;
pub mod fixed;
pub mod gallery;
pub mod index;
pub mod load;
pub mod metrics;
pub mod moments;
pub mod order;
pub mod output;
pub mod pipeline;
pub mod pixels;
pub mod raster;
pub mod review;
pub mod scan;
pub mod score;
pub mod tally;
pub mod template;
pub mod text;
