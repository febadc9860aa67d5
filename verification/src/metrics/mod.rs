//! Measures of a picture.
pub mod composition;
pub mod exposure;
pub mod histogram;
pub mod noise;
pub mod region;
pub mod sharpness;
