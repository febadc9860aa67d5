//! What is written: stars, sidecars and the report.
pub mod csv;
pub mod xmp;
