//! The review page: jobs, the list of photos, thumbnails, settings and answers to requests.
pub mod config_edit;
pub mod job;
pub mod paths;
pub mod service;
pub mod snapshot;
pub mod thumb;
