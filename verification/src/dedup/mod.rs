//! Bursts: frames taken in quick succession, and which of them to keep.
pub mod bursts;
pub mod cluster;
pub mod datetime;
pub mod phash;
pub mod pose;

pub use bursts::{analyze_bursts, BurstInfo};
pub use datetime::{days_from_civil, days_in_month, parse_datetime};
pub use phash::{dhash, hamming};
pub use pose::{pose_distance, PoseDesc};
