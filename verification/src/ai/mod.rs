//! What the detectors need and return, and what is made of it.
pub mod boxes;
pub mod facedetect;
pub mod pool;
pub mod pose;

pub use pool::{ensure_models, ort_err, SessionPool, MODELS_DIR};
